//! The verified core of the nightshade glTF viewer: the wire protocol, the
//! agent's component registry and delta stream, the host relay's buffering,
//! the asset browsers' index handling and the scene hierarchy walks.
pub mod agent;
pub mod api;
pub mod args;
pub mod browsers;
pub mod catalog;
pub mod despawn;
pub mod drop;
pub mod environment;
pub mod host;
pub mod json;
pub mod laws;
pub mod load;
pub mod order;
pub mod picking;
pub mod protocol;
pub mod registry;
pub mod scene;
pub mod seqs;
pub mod text;
pub mod unzip;

use vstd::prelude::*;

verus! {

} // verus!
