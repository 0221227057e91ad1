[package]
name = "mesh_viewer"
version = "0.1.0"
edition = "2021"
publish = false

[dependencies]
sys-locale = "0.3"
stl_io = "0.8"
zip = { version = "2", default-features = false, features = ["deflate"] }
quick-xml = "0.31"
gltf = "1"
ufbx = "*"
serde = { version = "1", features = ["derive"] }
serde_json = "1"
directories = "5"
