//! Routing files dropped on the viewer: a self-contained model, a glTF with
//! the files beside it, or an environment map.
use vstd::prelude::*;

use crate::seqs::{first_where, lemma_first_where};
use crate::text::{lowercase, to_lowercase};
use crate::unzip::{archive_opens, entry_count, unpacked_files, unzip};

verus! {

/// Where a drop of files goes.
#[derive(Debug)]
pub enum DropRoute {
    /// A self-contained model: a GLB, or a glTF with nothing beside it.
    Model(Vec<u8>),
    /// A glTF and the files beside it, named relative to its directory.
    Bundle { gltf: Vec<u8>, resources: Vec<(String, Vec<u8>)> },
    /// An HDR environment map.
    Hdri(Vec<u8>),
    /// Nothing the viewer loads.
    Ignored,
}

/// The model of a [`DropRoute`].
pub enum DropRouteView {
    Model(Seq<u8>),
    Bundle { gltf: Seq<u8>, resources: Seq<(Seq<char>, Seq<u8>)> },
    Hdri(Seq<u8>),
    Ignored,
}

/// Dropped files as names and contents.
pub open spec fn files_view(files: Seq<(String, Vec<u8>)>) -> Seq<(Seq<char>, Seq<u8>)> {
    Seq::new(files.len(), |i: int| (files[i].0@, files[i].1@))
}

impl DropRoute {
    pub open spec fn view(&self) -> DropRouteView {
        match self {
            DropRoute::Model(b) => DropRouteView::Model(b@),
            DropRoute::Bundle { gltf, resources } => DropRouteView::Bundle {
                gltf: gltf@,
                resources: files_view(resources@),
            },
            DropRoute::Hdri(b) => DropRouteView::Hdri(b@),
            DropRoute::Ignored => DropRouteView::Ignored,
        }
    }
}

/// Whether a text ends with another.
pub open spec fn ends_with_text(s: Seq<char>, suffix: Seq<char>) -> bool {
    suffix.len() <= s.len() && s.subrange(s.len() - suffix.len(), s.len() as int) == suffix
}

/// Whether a file name carries an extension, in any letter case.
pub open spec fn has_extension(name: Seq<char>, ext: Seq<char>) -> bool {
    ends_with_text(lowercase(name), ext)
}

/// Whether a lowercased file name names a glTF model, binary or text.
pub open spec fn is_model_lowered(lower: Seq<char>) -> bool {
    ends_with_text(lower, ".glb"@) || ends_with_text(lower, ".gltf"@)
}

/// Whether a file is a glTF model, binary or text.
pub open spec fn is_model_file(file: (Seq<char>, Seq<u8>)) -> bool {
    is_model_lowered(lowercase(file.0))
}

/// Whether a file is an HDR environment map.
pub open spec fn is_hdr_file(file: (Seq<char>, Seq<u8>)) -> bool {
    has_extension(file.0, ".hdr"@)
}

/// The test for model files.
pub open spec fn model_test() -> spec_fn((Seq<char>, Seq<u8>)) -> bool {
    |f: (Seq<char>, Seq<u8>)| is_model_file(f)
}

/// The test for HDR files.
pub open spec fn hdr_test() -> spec_fn((Seq<char>, Seq<u8>)) -> bool {
    |f: (Seq<char>, Seq<u8>)| is_hdr_file(f)
}

/// The test for HDR files, or for model files.
pub open spec fn file_test(hdr: bool) -> spec_fn((Seq<char>, Seq<u8>)) -> bool {
    if hdr {
        hdr_test()
    } else {
        model_test()
    }
}

/// The directory part of a path: everything up to and including its last
/// `/`, or nothing when it has none.
pub open spec fn directory_of(path: Seq<char>) -> Seq<char>
    decreases path.len(),
{
    if path.len() == 0 {
        path
    } else if path.last() == '/' {
        path
    } else {
        directory_of(path.drop_last())
    }
}

/// A path relative to a directory: the path without the directory in front
/// when it starts with it, else the path as it is.
pub open spec fn relative_to(path: Seq<char>, dir: Seq<char>) -> Seq<char> {
    if dir.len() <= path.len() && path.take(dir.len() as int) == dir {
        path.skip(dir.len() as int)
    } else {
        path
    }
}

/// Where a drop goes: the first model file, loaded on its own when it is a
/// GLB or has nothing beside it, else with the other files as resources named
/// relative to its directory; failing a model, the first HDR file; else
/// nothing.
pub open spec fn spec_route_files(files: Seq<(Seq<char>, Seq<u8>)>) -> DropRouteView {
    match first_where(files, model_test()) {
        Some(i) => {
            let (name, gltf) = files[i];
            let rest = files.remove(i);
            if has_extension(name, ".glb"@) || rest.len() == 0 {
                DropRouteView::Model(gltf)
            } else {
                let dir = directory_of(name);
                DropRouteView::Bundle {
                    gltf,
                    resources: Seq::new(rest.len(), |k: int| (relative_to(rest[k].0, dir), rest[k].1)),
                }
            }
        },
        None => match first_where(files, hdr_test()) {
            Some(i) => DropRouteView::Hdri(files[i].1),
            None => DropRouteView::Ignored,
        },
    }
}

/// Whether a text ends with another; applied to a lowercased file name and
/// an extension, it tells whether the name carries that extension.
pub fn ends_with(s: &str, suffix: &str) -> (r: bool)
    ensures
        r == ends_with_text(s@, suffix@),
{
    let n = s.unicode_len();
    let m = suffix.unicode_len();
    if m > n {
        return false;
    }
    let start = n - m;
    let mut k: usize = 0;
    while k < m
        invariant
            k <= m,
            n == s@.len(),
            m == suffix@.len(),
            start == n - m,
            forall|j: int| 0 <= j < k ==> s@[start + j] == suffix@[j],
        decreases m - k,
    {
        if s.get_char(start + k) != suffix.get_char(k) {
            assert(s@.subrange(start as int, n as int)[k as int] != suffix@[k as int]);
            return false;
        }
        k += 1;
    }
    assert(s@.subrange(start as int, n as int) =~= suffix@);
    true
}

/// Whether a lowercased file name names a glTF model.
pub fn model_lowered(lower: &str) -> (r: bool)
    ensures
        r == is_model_lowered(lower@),
{
    ends_with(lower, ".glb") || ends_with(lower, ".gltf")
}

/// Whether a file name carries an extension, in any letter case.
fn has_ext(name: &String, ext: &str) -> (r: bool)
    ensures
        r == has_extension(name@, ext@),
{
    let lower = to_lowercase(name.as_str());
    ends_with(lower.as_str(), ext)
}

/// The directory part of a path.
pub fn directory(path: &String) -> (r: String)
    ensures
        r@ == directory_of(path@),
{
    let s = path.as_str();
    let mut i = s.unicode_len();
    assert(s@.take(i as int) =~= s@);
    while i > 0 && s.get_char(i - 1) != '/'
        invariant
            i <= s@.len(),
            directory_of(s@.take(i as int)) == directory_of(s@),
        decreases i,
    {
        assert(s@.take(i as int).drop_last() =~= s@.take(i - 1));
        i -= 1;
    }
    assert(directory_of(s@.take(i as int)) == s@.take(i as int));
    String::from_str(s.substring_char(0, i))
}

/// A path relative to a directory.
pub fn relative(path: String, dir: &String) -> (r: String)
    ensures
        r@ == relative_to(path@, dir@),
{
    let p = path.as_str();
    let d = dir.as_str();
    let n = p.unicode_len();
    let m = d.unicode_len();
    if m > n {
        return path;
    }
    let mut k: usize = 0;
    while k < m
        invariant
            k <= m <= n,
            p@ == path@,
            d@ == dir@,
            n == p@.len(),
            m == d@.len(),
            forall|j: int| 0 <= j < k ==> p@[j] == d@[j],
        decreases m - k,
    {
        if p.get_char(k) != d.get_char(k) {
            assert(p@.take(m as int) != d@) by {
                assert(p@.take(m as int)[k as int] != d@[k as int]);
            }
            return path;
        }
        k += 1;
    }
    assert(p@.take(m as int) =~= d@);
    String::from_str(p.substring_char(m, n))
}

/// The index of the first file satisfying a test on its name.
fn first_file(files: &Vec<(String, Vec<u8>)>, hdr: bool) -> (r: Option<usize>)
    ensures
        match r {
            Some(i) => first_where(files_view(files@), file_test(hdr)) == Some(i as int),
            None => first_where(files_view(files@), file_test(hdr)) is None,
        },
{
    let ghost p = file_test(hdr);
    let ghost view = files_view(files@);
    proof {
        lemma_first_where(view, p);
    }
    let mut i: usize = 0;
    while i < files.len()
        invariant
            i <= files@.len(),
            view == files_view(files@),
            forall|j: int| 0 <= j < i ==> !p(#[trigger] view[j]),
            p == file_test(hdr),
        decreases files@.len() - i,
    {
        let name = &files[i].0;
        let hit = if hdr {
            has_ext(name, ".hdr")
        } else {
            let lower = to_lowercase(name.as_str());
            model_lowered(lower.as_str())
        };
        assert(hit == p(view[i as int]));
        if hit {
            proof {
                crate::seqs::lemma_first_where_is(view, p, i as int);
            }
            return Some(i);
        }
        i += 1;
    }
    proof {
        crate::seqs::lemma_first_where_none(view, p);
    }
    None
}

/// Whether a drop is one archive to unpack before routing it.
pub fn opens_as_archive(files: &Vec<(String, Vec<u8>)>) -> (r: bool)
    ensures
        r == (files@.len() == 1 && has_extension(files@[0].0@, ".zip"@)),
{
    files.len() == 1 && has_ext(&files[0].0, ".zip")
}

/// Decides where dropped files go: the first model file, loaded on its own
/// when it is a GLB or has nothing beside it, else with the other files as
/// resources named relative to its directory; failing a model, the first
/// HDR file; else nothing.
pub fn route_files(files: Vec<(String, Vec<u8>)>) -> (r: DropRoute)
    ensures
        r.view() == spec_route_files(files_view(files@)),
{
    let ghost view = files_view(files@);
    proof {
        lemma_first_where(view, model_test());
        lemma_first_where(view, hdr_test());
    }
    let mut files = files;
    match first_file(&files, false) {
        Some(index) => {
            let ghost rest = view.remove(index as int);
            let (name, gltf) = files.remove(index);
            assert(files_view(files@) =~= rest);
            if has_ext(&name, ".glb") || files.len() == 0 {
                DropRoute::Model(gltf)
            } else {
                let dir = directory(&name);
                let mut resources: Vec<(String, Vec<u8>)> = Vec::new();
                let mut k: usize = 0;
                while k < files.len()
                    invariant
                        k <= files@.len(),
                        files@.len() == rest.len(),
                        forall|j: int| k <= j < files@.len() ==> (#[trigger] files@[j]).0@ == rest[j].0 && files@[j].1@ == rest[j].1,
                        resources@.len() == k,
                        forall|j: int| 0 <= j < k ==> (#[trigger] resources@[j]).0@ == relative_to(rest[j].0, dir@)
                            && resources@[j].1@ == rest[j].1,
                    decreases files@.len() - k,
                {
                    let mut item = (String::new(), Vec::new());
                    files.set_and_swap(k, &mut item);
                    let (path, bytes) = item;
                    resources.push((relative(path, &dir), bytes));
                    k += 1;
                }
                let r = DropRoute::Bundle { gltf, resources };
                assert(files_view(resources@) =~= Seq::new(
                    rest.len(),
                    |j: int| (relative_to(rest[j].0, directory_of(view[index as int].0)), rest[j].1),
                ));
                r
            }
        },
        None => match first_file(&files, true) {
            Some(index) => {
                let mut item = (String::new(), Vec::new());
                files.set_and_swap(index, &mut item);
                DropRoute::Hdri(item.1)
            },
            None => DropRoute::Ignored,
        },
    }
}

/// The files a drop comes to: the files of the archive when the drop is one
/// `.zip` that opens, else the files as dropped.
pub open spec fn dropped_files(files: Seq<(String, Vec<u8>)>) -> Seq<(Seq<char>, Seq<u8>)> {
    if files.len() == 1 && has_extension(files[0].0@, ".zip"@) && archive_opens(files[0].1@) {
        unpacked_files(files[0].1@, entry_count(files[0].1@) as int)
    } else {
        files_view(files)
    }
}

/// Decides where a drop goes after unpacking it when it is one archive: a
/// `.zip` that does not open is routed as the file it is.
pub fn route_drop(files: Vec<(String, Vec<u8>)>) -> (r: DropRoute)
    ensures
        r.view() == spec_route_files(dropped_files(files@)),
{
    if opens_as_archive(&files) {
        let bytes = files[0].1.clone();
        assert(bytes@ == files@[0].1@);
        if let Some(unpacked) = unzip(bytes) {
            return route_files(unpacked);
        }
    }
    route_files(files)
}

} // verus!
