//! The sky an agent names: reading an atmosphere's name, and which
//! atmospheres are drawn procedurally.
use vstd::prelude::*;

use crate::text::{lowercase, strip_separators, to_lowercase, without_chars};

verus! {

/// The sky modes the renderer offers. `Off` is the plain clear colour.
#[derive(Clone, Copy, Debug, PartialEq, Eq, Structural)]
pub enum Atmosphere {
    Off,
    Sky,
    CloudySky,
    Space,
    Nebula,
    Sunset,
    DayNight,
    Hdr,
}

/// A name as it is matched: lowercased, without `_`, spaces and `-`.
pub open spec fn atmosphere_key(name: Seq<char>) -> Seq<char> {
    without_chars(lowercase(name), seq!['_', ' ', '-'])
}

/// The atmosphere a key (a lowercased name without separators) means, if any;
/// `cloudy` is short for the cloudy sky.
pub open spec fn atmosphere_of_key(key: Seq<char>) -> Option<Atmosphere> {
    if key == "none"@ {
        Some(Atmosphere::Off)
    } else if key == "sky"@ {
        Some(Atmosphere::Sky)
    } else if key == "cloudysky"@ || key == "cloudy"@ {
        Some(Atmosphere::CloudySky)
    } else if key == "space"@ {
        Some(Atmosphere::Space)
    } else if key == "nebula"@ {
        Some(Atmosphere::Nebula)
    } else if key == "sunset"@ {
        Some(Atmosphere::Sunset)
    } else if key == "daynight"@ {
        Some(Atmosphere::DayNight)
    } else if key == "hdr"@ {
        Some(Atmosphere::Hdr)
    } else {
        None
    }
}

/// The atmosphere a name means, if any.
pub open spec fn spec_parse_atmosphere(name: Seq<char>) -> Option<Atmosphere> {
    atmosphere_of_key(atmosphere_key(name))
}

/// Reads an already lowercased name: its `_`, spaces and `-` are dropped and
/// the rest is matched.
pub fn atmosphere_from_lowercase(lower: &str) -> (r: Option<Atmosphere>)
    ensures
        r == atmosphere_of_key(without_chars(lower@, seq!['_', ' ', '-'])),
{
    let key = strip_separators(lower);
    if key == String::from_str("none") {
        Some(Atmosphere::Off)
    } else if key == String::from_str("sky") {
        Some(Atmosphere::Sky)
    } else if key == String::from_str("cloudysky") || key == String::from_str("cloudy") {
        Some(Atmosphere::CloudySky)
    } else if key == String::from_str("space") {
        Some(Atmosphere::Space)
    } else if key == String::from_str("nebula") {
        Some(Atmosphere::Nebula)
    } else if key == String::from_str("sunset") {
        Some(Atmosphere::Sunset)
    } else if key == String::from_str("daynight") {
        Some(Atmosphere::DayNight)
    } else if key == String::from_str("hdr") {
        Some(Atmosphere::Hdr)
    } else {
        None
    }
}

/// Reads an atmosphere's name, in any case and with or without separators.
pub fn parse_atmosphere(name: &str) -> (r: Option<Atmosphere>)
    ensures
        r == spec_parse_atmosphere(name@),
{
    let lower = to_lowercase(name);
    atmosphere_from_lowercase(lower.as_str())
}

/// The atmospheres drawn procedurally, whose lighting is captured from the
/// sky itself: every one but the clear colour and an HDR map.
pub open spec fn spec_is_procedural(atmosphere: Atmosphere) -> bool {
    !(atmosphere is Off || atmosphere is Hdr)
}

/// Whether an atmosphere is drawn procedurally.
pub fn is_procedural(atmosphere: Atmosphere) -> (r: bool)
    ensures
        r == spec_is_procedural(atmosphere),
{
    match atmosphere {
        Atmosphere::Sky | Atmosphere::CloudySky | Atmosphere::Space | Atmosphere::Nebula | Atmosphere::Sunset
        | Atmosphere::DayNight => true,
        Atmosphere::Off | Atmosphere::Hdr => false,
    }
}

/// The error for an atmosphere name that means nothing.
pub open spec fn unknown_atmosphere_message(name: Seq<char>) -> Seq<char> {
    "unknown atmosphere: "@ + name
}

/// Builds the error for an atmosphere name that means nothing.
pub fn unknown_atmosphere(name: &str) -> (r: String)
    ensures
        r@ == unknown_atmosphere_message(name@),
{
    let mut m = String::from_str("unknown atmosphere: ");
    m.append(name);
    m
}

} // verus!
