use nightshade_viewer::json::{JsonValue, get_index, get_key, shape_of, text};
use nightshade_viewer::registry::{ComponentMasks, find, mask_for, registry, writable, writable_mask};
use nightshade_viewer::text::{parse_bounded, push_decimal, split, strip_separators};

fn masks() -> ComponentMasks {
    ComponentMasks {
        local_transform: 1,
        parent: 2,
        name: 4,
        visibility: 8,
        camera: 16,
        light: 32,
        material_ref: 64,
        bounding_volume: 128,
        casts_shadow: 256,
        render_layer: 512,
    }
}

#[test]
fn decimal_numbers_read_and_write() {
    assert_eq!(parse_bounded("42", 100), Some(42));
    assert_eq!(parse_bounded("+7", 100), Some(7));
    assert_eq!(parse_bounded("101", 100), None);
    assert_eq!(parse_bounded("", 100), None);
    assert_eq!(parse_bounded("+", 100), None);
    assert_eq!(parse_bounded("4x", 100), None);
    assert_eq!(parse_bounded("18446744073709551615", u64::MAX), Some(u64::MAX));
    let mut out = String::from("n=");
    push_decimal(&mut out, 1907);
    assert_eq!(out, "n=1907");
    let mut zero = String::new();
    push_decimal(&mut zero, 0);
    assert_eq!(zero, "0");
}

#[test]
fn splitting_and_stripping() {
    assert_eq!(split("0.roots.1", '.'), vec!["0", "roots", "1"]);
    assert_eq!(split("", '.'), vec![""]);
    assert_eq!(split("a..b.", '.'), vec!["a", "", "b", ""]);
    assert_eq!(strip_separators("Cloudy Sky_day-night"), "CloudySkydaynight");
}

#[test]
fn registry_lookups_and_policies() {
    let reg = registry(masks());
    assert_eq!(reg.len(), 10);
    assert_eq!(find(&reg, &"light".to_string()).unwrap().mask, 32);
    assert_eq!(find(&reg, &"wheel".to_string()).unwrap_err(), "unknown component: wheel");
    assert_eq!(writable(&reg, &"name".to_string()), Ok(4));
    assert_eq!(writable(&reg, &"parent".to_string()).unwrap_err(), "parent is owned by the reparent command");
    assert_eq!(
        writable(&reg, &"bounding_volume".to_string()).unwrap_err(),
        "bounding_volume is derived and cannot be written"
    );
    assert_eq!(writable_mask(&reg, &vec!["name".to_string(), "light".to_string()]), Ok(36));
    assert_eq!(mask_for(&reg, &vec!["camera".to_string(), "name".to_string()]), 20);
}

#[test]
fn json_reads_and_shapes() {
    let value = JsonValue::Object(vec![
        ("list".to_string(), JsonValue::Array(vec![JsonValue::Bool(true), JsonValue::Null])),
        ("count".to_string(), JsonValue::Number("3".to_string())),
    ]);
    assert!(matches!(get_key(&value, &"count".to_string()), Some(JsonValue::Number(_))));
    assert!(get_key(&value, &"none".to_string()).is_none());
    let list = get_key(&value, &"list".to_string()).unwrap();
    assert!(matches!(get_index(list, 0), Some(JsonValue::Bool(true))));
    assert!(get_index(list, 2).is_none());
    match shape_of(&value) {
        JsonValue::Object(members) => {
            assert!(matches!(&members[1].1, JsonValue::String(s) if s == "number"));
            match &members[0].1 {
                JsonValue::Array(items) => assert!(matches!(&items[0], JsonValue::String(s) if s == "boolean")),
                _ => panic!(),
            }
        }
        _ => panic!(),
    }
    assert!(matches!(text("hi"), JsonValue::String(ref s) if s == "hi"));
}

#[test]
fn decimal_text_reads_back() {
    for n in [0u64, 7, 42, 4096, u32::MAX as u64] {
        let mut text = String::new();
        nightshade_viewer::text::push_decimal(&mut text, n);
        assert_eq!(text, n.to_string());
        assert_eq!(nightshade_viewer::text::parse_bounded(&text, u32::MAX as u64), Some(n));
    }
    assert_eq!(nightshade_viewer::text::parse_bounded("4294967296", u32::MAX as u64), None);
}
