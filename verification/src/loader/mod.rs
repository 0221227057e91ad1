//! Choosing a loader for a model file, by its extension or by the first
//! bytes of its contents.

pub mod fbx;
pub mod gltf;
pub mod gltf_layout;
pub mod obj;
pub mod stl;
pub mod threemf;

use vstd::prelude::*;

use crate::numbers::{eq_ignore_ascii_case, eq_ignore_case_str};
use crate::text::chars_of;
use vstd::string::StringExecFns;

pub use fbx::FbxLoader;
pub use gltf::GltfLoader;
pub use obj::ObjLoader;
pub use stl::StlLoader;
pub use threemf::ThreemfLoader;

verus! {

/// What `Path::extension` gives for a path, as text: the part of the file
/// name after its last `.`, when there is one.
pub uninterp spec fn path_extension(path: Seq<char>) -> Option<Seq<char>>;

/// A path that is a plain file name: not empty, not `.` or `..`, and
/// without separators or drive marks.
pub open spec fn plain_name(path: Seq<char>) -> bool {
    &&& path.len() > 0
    &&& path != "."@
    &&& path != ".."@
    &&& !path.contains('/')
    &&& !path.contains('\\')
    &&& !path.contains(':')
}

/// The position of the last `.` in `name`, or -1.
pub open spec fn last_dot(name: Seq<char>) -> int
    decreases name.len(),
{
    if name.len() == 0 {
        -1
    } else if name.last() == '.' {
        name.len() - 1
    } else {
        last_dot(name.drop_last())
    }
}

/// The extension of a file name as `Path::extension` documents it: none
/// without a `.`, none when the only `.` begins the name, else the part
/// after the last `.`.
pub open spec fn name_extension(name: Seq<char>) -> Option<Seq<char>> {
    let d = last_dot(name);
    if d <= 0 {
        None
    } else {
        Some(name.subrange(d + 1, name.len() as int))
    }
}

/// Calls `Path::new(path).extension()` and reads it as text. Its result
/// depends on the path alone; it is named. Of a plain file name, the rule
/// of its documentation is stated; for other paths (the file name taken
/// from components) it is not written out.
#[verifier::external_body]
fn file_extension(path: &str) -> (res: Option<String>)
    ensures
        match res {
            Some(e) => path_extension(path@) == Some(e@),
            None => path_extension(path@) is None,
        },
        plain_name(path@) ==> match res {
            Some(e) => name_extension(path@) == Some(e@),
            None => name_extension(path@) is None,
        },
{
    std::path::Path::new(path).extension().and_then(|e| e.to_str()).map(|e| e.to_string())
}

/// The path's extension is `ext`, ignoring ASCII case.
pub open spec fn has_extension(path: Seq<char>, ext: Seq<char>) -> bool {
    let found = if plain_name(path) {
        name_extension(path)
    } else {
        path_extension(path)
    };
    match found {
        Some(e) => eq_ignore_ascii_case(e, ext),
        None => false,
    }
}

/// `prefix` begins `data`.
pub open spec fn bytes_start_with(data: Seq<u8>, prefix: Seq<u8>) -> bool {
    prefix.len() <= data.len() && data.subrange(0, prefix.len() as int) == prefix
}

/// Whether the path's extension is `ext`, ignoring ASCII case.
pub fn extension_is(path: &str, ext: &str) -> (res: bool)
    ensures
        res == has_extension(path@, ext@),
{
    match file_extension(path) {
        Some(e) => eq_ignore_case_str(&chars_of(e.as_str()), ext),
        None => false,
    }
}

/// Whether `data` begins with `prefix`.
pub fn starts_with_bytes(data: &[u8], prefix: &[u8]) -> (res: bool)
    ensures
        res == bytes_start_with(data@, prefix@),
{
    if prefix.len() > data.len() {
        return false;
    }
    let mut i: usize = 0;
    while i < prefix.len()
        invariant
            prefix@.len() <= data@.len(),
            i <= prefix@.len(),
            forall|j: int| 0 <= j < i ==> data@[j] == prefix@[j],
        decreases prefix.len() - i,
    {
        if data[i] != prefix[i] {
            assert(data@.subrange(0, prefix@.len() as int)[i as int] != prefix@[i as int]);
            return false;
        }
        i = i + 1;
    }
    assert(data@.subrange(0, prefix@.len() as int) =~= prefix@);
    true
}

/// The model formats that a registry can hold.
#[derive(Clone, Copy, Debug, PartialEq, Eq, Structural)]
pub enum LoaderKind {
    Stl,
    Threemf,
    Obj,
    Gltf,
    Fbx,
}

/// Whether the loader of `kind` takes the file at `path` whose contents
/// begin with `header`.
pub open spec fn accepts(kind: LoaderKind, path: Seq<char>, header: Seq<u8>) -> bool {
    match kind {
        LoaderKind::Stl => has_extension(path, "stl"@) || bytes_start_with(header, stl::solid_magic()),
        LoaderKind::Threemf => has_extension(path, "3mf"@) || bytes_start_with(
            header,
            seq![0x50u8, 0x4bu8],
        ),
        LoaderKind::Obj => has_extension(path, "obj"@),
        LoaderKind::Gltf => has_extension(path, "gltf"@) || has_extension(path, "glb"@)
            || bytes_start_with(header, gltf::gltf_magic()),
        LoaderKind::Fbx => has_extension(path, "fbx"@) || bytes_start_with(header, fbx::fbx_magic()),
    }
}

/// The first of `loaders` that takes the file, if any.
pub open spec fn first_accepting(loaders: Seq<LoaderKind>, path: Seq<char>, header: Seq<u8>) -> Option<
    int,
>
    decreases loaders.len(),
{
    if loaders.len() == 0 {
        None
    } else {
        match first_accepting(loaders.drop_last(), path, header) {
            Some(i) => Some(i),
            None => if accepts(loaders.last(), path, header) {
                Some(loaders.len() - 1)
            } else {
                None
            },
        }
    }
}

impl LoaderKind {
    /// The name of the format.
    pub fn name(&self) -> (res: &'static str)
        ensures
            res@ == match *self {
                LoaderKind::Stl => "stl"@,
                LoaderKind::Threemf => "3mf"@,
                LoaderKind::Obj => "obj"@,
                LoaderKind::Gltf => "gltf"@,
                LoaderKind::Fbx => "fbx"@,
            },
    {
        match self {
            LoaderKind::Stl => StlLoader {}.name(),
            LoaderKind::Threemf => ThreemfLoader {}.name(),
            LoaderKind::Obj => ObjLoader {}.name(),
            LoaderKind::Gltf => GltfLoader {}.name(),
            LoaderKind::Fbx => FbxLoader {}.name(),
        }
    }

    /// Whether this format's loader takes the file at `path` whose
    /// contents begin with `header`.
    pub fn can_load(&self, path: &str, header: &[u8]) -> (res: bool)
        ensures
            res == accepts(*self, path@, header@),
    {
        match self {
            LoaderKind::Stl => StlLoader {}.can_load(path, header),
            LoaderKind::Threemf => ThreemfLoader {}.can_load(path, header),
            LoaderKind::Obj => ObjLoader {}.can_load(path, header),
            LoaderKind::Gltf => GltfLoader {}.can_load(path, header),
            LoaderKind::Fbx => FbxLoader {}.can_load(path, header),
        }
    }
}

/// The loaders of a viewer, in the order in which they are asked.
pub struct LoaderRegistry {
    loaders: Vec<LoaderKind>,
}

impl View for LoaderRegistry {
    type V = Seq<LoaderKind>;

    closed spec fn view(&self) -> Seq<LoaderKind> {
        self.loaders@
    }
}

impl LoaderRegistry {
    /// A registry without loaders.
    pub fn new() -> (res: Self)
        ensures
            res@ == Seq::<LoaderKind>::empty(),
    {
        LoaderRegistry { loaders: Vec::new() }
    }

    /// Adds a loader after those already there.
    pub fn register(&mut self, l: LoaderKind)
        ensures
            final(self)@ == old(self)@.push(l),
    {
        self.loaders.push(l);
    }

    /// The loaders, in order.
    pub fn loaders(&self) -> (res: &Vec<LoaderKind>)
        ensures
            res@ == self@,
    {
        &self.loaders
    }

    /// The first registered loader that takes the file at `path` whose
    /// contents begin with `header`; "no suitable loader" when none does.
    pub fn select(&self, path: &str, header: &[u8]) -> (res: Result<LoaderKind, String>)
        ensures
            match first_accepting(self@, path@, header@) {
                Some(i) => res == Ok::<LoaderKind, String>(self@[i]),
                None => res matches Err(e) && e@ == "no suitable loader"@,
            },
    {
        let mut i: usize = 0;
        while i < self.loaders.len()
            invariant
                i <= self.loaders@.len(),
                first_accepting(self.loaders@.subrange(0, i as int), path@, header@) is None,
            decreases self.loaders.len() - i,
        {
            let k = self.loaders[i];
            let ghost pre = self.loaders@.subrange(0, i as int);
            assert(self.loaders@.subrange(0, i + 1).drop_last() =~= pre);
            if k.can_load(path, header) {
                proof {
                    lemma_first_accepting_prefix(self.loaders@, i + 1, path@, header@);
                }
                return Ok(k);
            }
            i = i + 1;
        }
        proof {
            assert(self.loaders@.subrange(0, i as int) =~= self.loaders@);
        }
        Err(String::from_str("no suitable loader"))
    }
}

/// The registry's choice is the first loader that takes the file: it takes
/// it and none registered before it does; when there is no choice, no
/// loader takes the file.
pub proof fn lemma_first_accepting_is_first(loaders: Seq<LoaderKind>, path: Seq<char>, header: Seq<u8>)
    ensures
        first_accepting(loaders, path, header) matches Some(i) ==> {
            &&& 0 <= i < loaders.len()
            &&& accepts(loaders[i], path, header)
            &&& forall|j: int| 0 <= j < i ==> !accepts(#[trigger] loaders[j], path, header)
        },
        first_accepting(loaders, path, header) is None ==> forall|j: int|
            0 <= j < loaders.len() ==> !accepts(#[trigger] loaders[j], path, header),
    decreases loaders.len(),
{
    if loaders.len() > 0 {
        let front = loaders.drop_last();
        lemma_first_accepting_is_first(front, path, header);
        assert forall|j: int| 0 <= j < front.len() implies #[trigger] loaders[j] == front[j] by {}
    }
}

/// Once a prefix of the loaders has a first taker, so do all the loaders.
proof fn lemma_first_accepting_prefix(loaders: Seq<LoaderKind>, n: int, path: Seq<char>, header: Seq<u8>)
    requires
        0 <= n <= loaders.len(),
        first_accepting(loaders.subrange(0, n), path, header) is Some,
    ensures
        first_accepting(loaders, path, header) == first_accepting(loaders.subrange(0, n), path, header),
    decreases loaders.len() - n,
{
    if n < loaders.len() {
        assert(loaders.subrange(0, n + 1).drop_last() =~= loaders.subrange(0, n));
        lemma_first_accepting_prefix(loaders, n + 1, path, header);
    } else {
        assert(loaders.subrange(0, n) =~= loaders);
    }
}

/// The message shown when the file at `path` could not be loaded.
pub fn load_failure_message(path: &str) -> (res: String)
    ensures
        res@ == "Could not open '"@ + path@
            + "'. The format may be unsupported or the file may be corrupted."@,
{
    let mut msg = String::from_str("Could not open '");
    msg.append(path);
    msg.append("'. The format may be unsupported or the file may be corrupted.");
    msg
}

} // verus!
