use nightshade_viewer::environment::{Atmosphere, atmosphere_from_lowercase, is_procedural, parse_atmosphere, unknown_atmosphere};

#[test]
fn atmosphere_names_ignore_case_and_separators() {
    assert_eq!(parse_atmosphere("None"), Some(Atmosphere::Off));
    assert_eq!(parse_atmosphere("Cloudy-Sky"), Some(Atmosphere::CloudySky));
    assert_eq!(parse_atmosphere("cloudy"), Some(Atmosphere::CloudySky));
    assert_eq!(parse_atmosphere("DAY_NIGHT"), Some(Atmosphere::DayNight));
    assert_eq!(parse_atmosphere("day night"), Some(Atmosphere::DayNight));
    assert_eq!(parse_atmosphere("Hdr"), Some(Atmosphere::Hdr));
    assert_eq!(parse_atmosphere("fog"), None);
    assert_eq!(parse_atmosphere(""), None);
}

#[test]
fn procedural_skies() {
    assert!(is_procedural(Atmosphere::Sky));
    assert!(is_procedural(Atmosphere::Sunset));
    assert!(!is_procedural(Atmosphere::Off));
    assert!(!is_procedural(Atmosphere::Hdr));
    assert_eq!(unknown_atmosphere("fog"), "unknown atmosphere: fog");
}

#[test]
fn lowercased_atmosphere_names() {
    assert_eq!(atmosphere_from_lowercase("cloudy-sky"), Some(Atmosphere::CloudySky));
    assert_eq!(atmosphere_from_lowercase("day_night"), Some(Atmosphere::DayNight));
    assert_eq!(atmosphere_from_lowercase("space"), Some(Atmosphere::Space));
    assert_eq!(atmosphere_from_lowercase("Space"), None);
    assert_eq!(atmosphere_from_lowercase("- -"), None);
}
