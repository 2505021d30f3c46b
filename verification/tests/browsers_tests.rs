use nightshade_viewer::browsers::{
    Browsers, DownloadStep, FetchState, FileLink, GltfFile, GltfResolution, HdriFiles, HdriResolution, IndexFetch,
    KhronosRaw, ModelFiles, PolyRaw, ResourceDownload, begin_loading, ensure_indices, fetch_khronos,
    fetch_polyhaven, fetch_polyhaven_model_additive, finish_khronos, finish_polyhaven, index_url, khronos_entries,
    pick_hdr, pick_model, pick_resolution, poll, poly_entries, resend, resolution_value,
};

fn raw(label: &str, name: &str, binary: Option<&str>, screenshot: Option<&str>) -> KhronosRaw {
    let mut variants = vec![("glTF".to_string(), format!("{name}.gltf"))];
    if let Some(file) = binary {
        variants.push(("glTF-Binary".to_string(), file.to_string()));
    }
    KhronosRaw {
        label: label.to_string(),
        name: name.to_string(),
        variants,
        screenshot: screenshot.map(|s| s.to_string()),
    }
}

#[test]
fn resolution_keys_read_in_k() {
    assert_eq!(resolution_value("2k"), 2);
    assert_eq!(resolution_value("8K"), 8);
    assert_eq!(resolution_value("16kk"), 16);
    assert_eq!(resolution_value("4"), 4);
    assert_eq!(resolution_value("+4k"), 4);
    assert_eq!(resolution_value("hdr"), u32::MAX);
    assert_eq!(resolution_value("k"), u32::MAX);
}

#[test]
fn exact_resolution_wins() {
    let entries = vec![(4, "four"), (2, "two-a"), (1, "one"), (2, "two-b")];
    assert_eq!(pick_resolution(entries, 2), Some("two-a"));
}

#[test]
fn highest_below_wins_last_among_equals() {
    let entries = vec![(8, "eight"), (1, "one-a"), (16, "sixteen"), (1, "one-b")];
    assert_eq!(pick_resolution(entries, 4), Some("one-b"));
    let entries = vec![(1, "one"), (2, "two"), (8, "eight")];
    assert_eq!(pick_resolution(entries, 4), Some("two"));
}

#[test]
fn smallest_when_all_above_first_among_equals() {
    let entries = vec![(16, "sixteen"), (8, "eight-a"), (8, "eight-b")];
    assert_eq!(pick_resolution(entries, 4), Some("eight-a"));
    let none: Vec<(u32, &str)> = vec![];
    assert_eq!(pick_resolution(none, 4), None);
}

#[test]
fn hdr_pick_skips_resolutions_without_hdr() {
    let files = HdriFiles {
        hdri: vec![
            ("1k".into(), HdriResolution { hdr: Some(FileLink { url: "one.hdr".into() }) }),
            ("2k".into(), HdriResolution { hdr: None }),
            ("4k".into(), HdriResolution { hdr: Some(FileLink { url: "four.hdr".into() }) }),
        ],
    };
    assert_eq!(pick_hdr(files, 2), Some("one.hdr".to_string()));
}

#[test]
fn model_pick_takes_exact_resolution() {
    let files = ModelFiles {
        gltf: vec![
            ("1k".into(), GltfResolution { gltf: GltfFile { url: "one.gltf".into(), includes: vec![] } }),
            ("2k".into(), GltfResolution { gltf: GltfFile { url: "two.gltf".into(), includes: vec![] } }),
        ],
    };
    assert_eq!(pick_model(files, 2).map(|g| g.url), Some("two.gltf".to_string()));
}

#[test]
fn khronos_list_keeps_binaries_sorted_by_label() {
    let entries = khronos_entries(vec![
        raw("box", "Box", Some("Box.glb"), Some("screenshot/shot.png")),
        raw("Avocado", "Avocado", Some("Avocado.glb"), None),
        raw("NoBinary", "Plain", None, None),
        raw("apple", "Apple", Some("Apple.glb"), None),
    ]);
    let labels: Vec<&str> = entries.iter().map(|e| e.label.as_str()).collect();
    assert_eq!(labels, vec!["apple", "Avocado", "box"]);
    let boxed = &entries[2];
    assert_eq!(
        boxed.glb_url.as_deref(),
        Some("https://raw.githubusercontent.com/KhronosGroup/glTF-Sample-Assets/main/Models/Box/glTF-Binary/Box.glb")
    );
    assert_eq!(
        boxed.thumbnail.as_deref(),
        Some("https://raw.githubusercontent.com/KhronosGroup/glTF-Sample-Assets/main/Models/Box/screenshot/shot.png")
    );
}

#[test]
fn khronos_sort_is_stable() {
    let entries = khronos_entries(vec![
        raw("Same", "First", Some("a.glb"), None),
        raw("same", "Second", Some("b.glb"), None),
        raw("SAME", "Third", Some("c.glb"), None),
    ]);
    let names: Vec<&str> = entries.iter().map(|e| e.name.as_str()).collect();
    assert_eq!(names, vec!["First", "Second", "Third"]);
}

#[test]
fn polyhaven_list_sorted_by_name_with_thumbnails() {
    let entries = poly_entries(vec![
        ("zeta".into(), PolyRaw { name: "Beach".into() }),
        ("alpha".into(), PolyRaw { name: "attic".into() }),
    ]);
    assert_eq!(entries[0].slug, "alpha");
    assert_eq!(entries[1].slug, "zeta");
    assert_eq!(entries[1].thumbnail, "https://cdn.polyhaven.com/asset_img/thumbs/zeta.png?width=256&height=256");
}

#[test]
fn indexes_start_once() {
    let mut browsers = Browsers::new();
    let started = ensure_indices(&mut browsers);
    assert_eq!(started, vec![IndexFetch::Khronos, IndexFetch::Hdris, IndexFetch::Models]);
    assert!(matches!(browsers.khronos, FetchState::Loading));
    assert!(ensure_indices(&mut browsers).is_empty());
    assert_eq!(index_url(IndexFetch::Hdris), "https://api.polyhaven.com/assets?type=hdris");
}

#[test]
fn lists_are_sent_once_until_resend() {
    let mut browsers = Browsers::new();
    finish_khronos(&mut browsers, Some(vec![raw("Box", "Box", Some("Box.glb"), None)]));
    finish_polyhaven(&mut browsers, false, None);
    finish_polyhaven(&mut browsers, true, Some(vec![("chair".into(), PolyRaw { name: "Chair".into() })]));
    assert!(matches!(browsers.hdris, FetchState::Failed));
    let first = poll(&mut browsers);
    assert_eq!(first.khronos.as_ref().map(|l| l.len()), Some(1));
    assert!(first.hdris.is_none());
    assert_eq!(first.models.as_ref().map(|l| l[0].slug.clone()), Some("chair".to_string()));
    let second = poll(&mut browsers);
    assert!(second.khronos.is_none() && second.hdris.is_none() && second.models.is_none());
    resend(&mut browsers);
    let third = poll(&mut browsers);
    assert!(third.khronos.is_some() && third.models.is_some());
}

#[test]
fn one_download_at_a_time() {
    let mut loading: Option<String> = None;
    assert!(begin_loading(&mut loading, "Box"));
    assert_eq!(loading.as_deref(), Some("Box"));
    assert!(!begin_loading(&mut loading, "Other"));
    assert_eq!(loading.as_deref(), Some("Box"));
    assert_eq!(fetch_polyhaven(&mut loading, "sky"), None);
    let mut free: Option<String> = None;
    assert_eq!(fetch_polyhaven(&mut free, "sky"), Some("https://api.polyhaven.com/files/sky".to_string()));
    assert_eq!(fetch_polyhaven_model_additive("chair"), "https://api.polyhaven.com/files/chair");
}

#[test]
fn khronos_fetch_needs_a_listed_binary() {
    let mut browsers = Browsers::new();
    let mut loading: Option<String> = None;
    assert_eq!(fetch_khronos(&browsers, &mut loading, "Box"), None);
    finish_khronos(&mut browsers, Some(vec![raw("Box", "Box", Some("Box.glb"), None)]));
    assert_eq!(fetch_khronos(&browsers, &mut loading, "Missing"), None);
    assert!(loading.is_none());
    let url = fetch_khronos(&browsers, &mut loading, "Box").unwrap();
    assert!(url.ends_with("/Box/glTF-Binary/Box.glb"));
    assert_eq!(loading.as_deref(), Some("Box"));
}

#[test]
fn model_download_completes_after_every_file() {
    let mut download = ResourceDownload::new(vec![1, 2, 3], 2);
    assert!(matches!(download.arrive("a.png".into(), Some(vec![9])), DownloadStep::Pending));
    match download.arrive("b.bin".into(), Some(vec![8])) {
        DownloadStep::Complete { gltf, resources } => {
            assert_eq!(gltf, vec![1, 2, 3]);
            assert_eq!(resources.len(), 2);
            assert_eq!(resources[1].0, "b.bin");
        }
        _ => panic!("expected the model"),
    }
    let mut failing = ResourceDownload::new(vec![1], 2);
    assert!(matches!(failing.arrive("a.png".into(), None), DownloadStep::Failed));
    assert!(matches!(failing.arrive("b.png".into(), Some(vec![1])), DownloadStep::Failed));
}
