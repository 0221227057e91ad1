# mesh_viewer

The verified core of Mesh, a lightweight desktop viewer for 3D models
(STL, 3MF, Wavefront OBJ, glTF/GLB and FBX).

`src/` is the library, written in Verus and proved against its contracts:

- `loader/` chooses a loader for a file and turns each format into one
  exact mesh (`mesh::MeshData`); coordinates are carried as float bit
  patterns or as the decimal literals of the file, never computed on.
- `mesh.rs` holds the mesh and the statistics shown for it.
- `i18n/` holds the interface languages, their texts and the detection of
  the system language.
- `ui.rs` and `input.rs` decide what the context menu, the mouse and the
  keyboard ask of the viewer; `settings.rs` brings a saved settings file
  up to date with the defaults.
- `numbers.rs`, `text.rs` and `color.rs` read numbers, words, lines and
  colours the way the standard library does.

`app/` is the window around it: rendering, the file system, dialogs and
the float geometry of the camera and the scene. `tests/` exercises the
library on concrete files and values.
