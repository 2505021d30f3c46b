use nightshade_viewer::drop::{DropRoute, directory, ends_with, model_lowered, opens_as_archive, relative, route_files};

fn file(name: &str, bytes: &[u8]) -> (String, Vec<u8>) {
    (name.to_string(), bytes.to_vec())
}

#[test]
fn a_glb_loads_on_its_own() {
    match route_files(vec![file("notes.txt", b"n"), file("Scene.GLB", b"glb"), file("b.bin", b"b")]) {
        DropRoute::Model(bytes) => assert_eq!(bytes, b"glb".to_vec()),
        other => panic!("unexpected route {other:?}"),
    }
}

#[test]
fn a_lone_gltf_loads_on_its_own() {
    match route_files(vec![file("dir/scene.gltf", b"{}")]) {
        DropRoute::Model(bytes) => assert_eq!(bytes, b"{}".to_vec()),
        other => panic!("unexpected route {other:?}"),
    }
}

#[test]
fn a_gltf_takes_its_neighbours_relative_to_its_directory() {
    let route = route_files(vec![
        file("pack/scene.bin", b"bin"),
        file("pack/scene.gltf", b"{}"),
        file("pack/tex/a.png", b"png"),
        file("other/b.png", b"b"),
    ]);
    match route {
        DropRoute::Bundle { gltf, resources } => {
            assert_eq!(gltf, b"{}".to_vec());
            assert_eq!(
                resources,
                vec![file("scene.bin", b"bin"), file("tex/a.png", b"png"), file("other/b.png", b"b")]
            );
        }
        other => panic!("unexpected route {other:?}"),
    }
}

#[test]
fn the_first_model_wins() {
    match route_files(vec![file("a.glb", b"a"), file("b.glb", b"b")]) {
        DropRoute::Model(bytes) => assert_eq!(bytes, b"a".to_vec()),
        other => panic!("unexpected route {other:?}"),
    }
}

#[test]
fn an_hdr_without_a_model_is_an_environment() {
    match route_files(vec![file("x.txt", b"x"), file("sky.HDR", b"hdr"), file("y.hdr", b"y")]) {
        DropRoute::Hdri(bytes) => assert_eq!(bytes, b"hdr".to_vec()),
        other => panic!("unexpected route {other:?}"),
    }
}

#[test]
fn other_files_are_ignored() {
    assert!(matches!(route_files(vec![file("x.txt", b"x")]), DropRoute::Ignored));
    assert!(matches!(route_files(Vec::new()), DropRoute::Ignored));
}

#[test]
fn one_zip_is_unpacked_first() {
    assert!(opens_as_archive(&vec![file("Models.ZIP", b"z")]));
    assert!(!opens_as_archive(&vec![file("a.zip", b"z"), file("b.zip", b"z")]));
    assert!(!opens_as_archive(&vec![file("a.glb", b"z")]));
}

#[test]
fn lowercased_names_and_paths() {
    assert!(model_lowered("a.glb"));
    assert!(model_lowered("dir/scene.gltf"));
    assert!(!model_lowered("scene.GLB"));
    assert!(!model_lowered("glb"));
    assert!(ends_with("scene.gltf", ".gltf"));
    assert!(!ends_with("scene.gltf", ".glb"));
    assert!(!ends_with("gltf", ".gltf"));
    assert_eq!(directory(&"models/duck/scene.gltf".to_string()), "models/duck/");
    assert_eq!(directory(&"scene.gltf".to_string()), "");
    assert_eq!(relative("models/duck/tex.png".to_string(), &"models/duck/".to_string()), "tex.png");
    assert_eq!(relative("other/tex.png".to_string(), &"models/duck/".to_string()), "other/tex.png");
}
