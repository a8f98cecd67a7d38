//! Records about players.

use vstd::prelude::*;
use crate::identifier::Identifier;

verus! {

/// An angle in steps of 1/256 of a full turn.
#[derive(Clone, Copy, Debug, PartialEq, Eq, Structural)]
pub struct Angle {
    pub value: u8,
}

/// A change to the list of players: what is done, and to whom.
#[derive(Debug, PartialEq, Eq)]
pub struct PlayerItemListModifier {
    pub action: i32,
    pub players: Vec<Player>,
}

/// A player as the list of players shows them.
#[derive(Debug, PartialEq, Eq)]
pub struct Player {
    pub uuid: Identifier,
    pub name: String,
    pub properties: Vec<Property>,
    pub gamemode: i32,
    pub ping: i32,
    pub display_name: String,
}

/// A signed property of a player, such as their skin.
#[derive(Debug, PartialEq, Eq)]
pub struct Property {
    pub name: String,
    pub value: String,
    pub signature: String,
}

impl Default for Angle {
    fn default() -> (r: Self)
        ensures
            r.value == 0,
    {
        Angle { value: 0 }
    }
}

impl Default for PlayerItemListModifier {
    fn default() -> (r: Self)
        ensures
            r.action == 0,
            r.players@.len() == 0,
    {
        PlayerItemListModifier { action: 0, players: Vec::new() }
    }
}

impl Default for Player {
    fn default() -> (r: Self)
        ensures
            r.uuid.value == 0,
            r.name@.len() == 0,
            r.properties@.len() == 0,
            r.gamemode == 0,
            r.ping == 0,
            r.display_name@.len() == 0,
    {
        Player {
            uuid: Identifier { value: 0 },
            name: String::new(),
            properties: Vec::new(),
            gamemode: 0,
            ping: 0,
            display_name: String::new(),
        }
    }
}

impl Default for Property {
    fn default() -> (r: Self)
        ensures
            r.name@.len() == 0,
            r.value@.len() == 0,
            r.signature@.len() == 0,
    {
        Property { name: String::new(), value: String::new(), signature: String::new() }
    }
}

} // verus!
