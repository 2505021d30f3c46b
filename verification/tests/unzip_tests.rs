use std::io::{Cursor, Write};

use nightshade_viewer::drop::{DropRoute, route_drop};
use nightshade_viewer::unzip::unzip;
use zip::write::SimpleFileOptions;
use zip::{CompressionMethod, ZipWriter};

enum Item<'a> {
    Dir(&'a str),
    File(&'a str, &'a [u8]),
}

fn archive(items: &[Item], method: CompressionMethod) -> Vec<u8> {
    let mut writer = ZipWriter::new(Cursor::new(Vec::new()));
    let options = SimpleFileOptions::default().compression_method(method);
    for item in items {
        match item {
            Item::Dir(name) => writer.add_directory(*name, options).unwrap(),
            Item::File(name, bytes) => {
                writer.start_file(*name, options).unwrap();
                writer.write_all(bytes).unwrap();
            }
        }
    }
    writer.finish().unwrap().into_inner()
}

fn duck(method: CompressionMethod) -> Vec<u8> {
    archive(
        &[
            Item::Dir("duck/"),
            Item::File("duck/scene.gltf", b"{\"asset\":{}}"),
            Item::Dir("duck/textures/"),
            Item::File("duck/buffer.bin", &[1, 2, 3]),
            Item::File("duck/textures/skin.png", &[9; 64]),
        ],
        method,
    )
}

#[test]
fn unzip_keeps_files_in_archive_order() {
    let files = unzip(duck(CompressionMethod::Stored)).unwrap();
    let names: Vec<&str> = files.iter().map(|(n, _)| n.as_str()).collect();
    assert_eq!(names, vec!["duck/scene.gltf", "duck/buffer.bin", "duck/textures/skin.png"]);
    assert_eq!(files[0].1, b"{\"asset\":{}}".to_vec());
    assert_eq!(files[1].1, vec![1, 2, 3]);
    assert_eq!(files[2].1, vec![9; 64]);
}

#[test]
fn unzip_inflates_compressed_entries() {
    let files = unzip(duck(CompressionMethod::Deflated)).unwrap();
    assert_eq!(files.len(), 3);
    assert_eq!(files[2], ("duck/textures/skin.png".to_string(), vec![9; 64]));
}

#[test]
fn unzip_refuses_what_is_no_archive() {
    assert!(unzip(b"not an archive".to_vec()).is_none());
    assert!(unzip(Vec::new()).is_none());
}

#[test]
fn unzip_of_an_empty_archive() {
    assert_eq!(unzip(archive(&[Item::Dir("empty/")], CompressionMethod::Stored)), Some(vec![]));
}

#[test]
fn a_dropped_zip_is_unpacked_and_routed() {
    match route_drop(vec![("Duck.ZIP".to_string(), duck(CompressionMethod::Stored))]) {
        DropRoute::Bundle { gltf, resources } => {
            assert_eq!(gltf, b"{\"asset\":{}}".to_vec());
            assert_eq!(
                resources,
                vec![("buffer.bin".to_string(), vec![1, 2, 3]), ("textures/skin.png".to_string(), vec![9; 64])]
            );
        }
        other => panic!("unexpected route {other:?}"),
    }
}

#[test]
fn a_zip_holding_one_glb_loads_it() {
    let bytes = archive(&[Item::File("model.glb", b"glTF")], CompressionMethod::Stored);
    match route_drop(vec![("m.zip".to_string(), bytes)]) {
        DropRoute::Model(b) => assert_eq!(b, b"glTF".to_vec()),
        other => panic!("unexpected route {other:?}"),
    }
}

#[test]
fn a_broken_zip_is_routed_as_dropped() {
    assert!(matches!(route_drop(vec![("broken.zip".to_string(), b"junk".to_vec())]), DropRoute::Ignored));
    let two = vec![("a.zip".to_string(), duck(CompressionMethod::Stored)), ("b.hdr".to_string(), vec![5])];
    assert!(matches!(route_drop(two), DropRoute::Hdri(b) if b == vec![5]));
}
