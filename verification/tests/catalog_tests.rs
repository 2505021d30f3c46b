use nightshade_viewer::browsers::{Browsers, FetchState, KhronosAsset, PolyAsset};
use nightshade_viewer::catalog::{asset_catalog, khronos_list, polyhaven_list};
use nightshade_viewer::json::JsonValue;

fn s(t: &str) -> JsonValue {
    JsonValue::String(t.to_string())
}

fn obj(members: Vec<(&str, JsonValue)>) -> JsonValue {
    JsonValue::Object(members.into_iter().map(|(k, v)| (k.to_string(), v)).collect())
}

fn same(a: &JsonValue, b: &JsonValue) -> bool {
    format!("{a:?}") == format!("{b:?}")
}

#[test]
fn an_unloaded_index_reads_as_its_fetch_state() {
    let catalog = asset_catalog(&Browsers::new());
    let idle = s("idle (call refresh_browsers)");
    let expected = obj(vec![("hdris", s("idle (call refresh_browsers)")), ("khronos", idle), ("models", s("idle (call refresh_browsers)"))]);
    assert!(same(&catalog, &expected));
    assert!(same(&polyhaven_list(&FetchState::Loading), &s("loading")));
    assert!(same(&khronos_list(&FetchState::Failed), &s("failed")));
}

#[test]
fn a_loaded_index_lists_its_assets() {
    let khronos = FetchState::Loaded(vec![
        KhronosAsset {
            name: "Box".to_string(),
            label: "Box".to_string(),
            glb_url: Some("https://example.org/Box.glb".to_string()),
            thumbnail: None,
        },
        KhronosAsset { name: "Fox".to_string(), label: "The Fox".to_string(), glb_url: None, thumbnail: None },
    ]);
    let expected = JsonValue::Array(vec![
        obj(vec![("glb_url", s("https://example.org/Box.glb")), ("label", s("Box")), ("name", s("Box"))]),
        obj(vec![("glb_url", JsonValue::Null), ("label", s("The Fox")), ("name", s("Fox"))]),
    ]);
    assert!(same(&khronos_list(&khronos), &expected));

    let hdris = FetchState::Loaded(vec![PolyAsset {
        slug: "sunset".to_string(),
        name: "Sunset".to_string(),
        thumbnail: "t".to_string(),
    }]);
    let expected = JsonValue::Array(vec![obj(vec![("name", s("Sunset")), ("slug", s("sunset"))])]);
    assert!(same(&polyhaven_list(&hdris), &expected));
}
