//! The server-list status document, as plain values. Its JSON text is
//! produced outside the library.
use vstd::prelude::*;

verus! {

pub struct Version {
    pub name: String,
    pub protocol: i32,
}

pub struct Player {
    pub name: String,
    pub id: String,
}

pub struct Players {
    pub max: i32,
    pub online: i32,
    pub sample: Vec<Player>,
}

pub struct Description {
    pub text: String,
}

pub struct ServerList {
    pub version: Version,
    pub players: Players,
    pub description: Description,
    pub favicon: String,
}

} // verus!
