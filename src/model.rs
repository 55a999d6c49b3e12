//! The game's data: terrains, animals, structures, tiles, answers and clues.

use crate::hex::Hex;
use std::collections::BTreeMap;
use vstd::prelude::*;

verus! {

#[derive(Debug, Clone, Copy, PartialEq, Eq, Hash, Structural)]
pub enum Terrain {
    Desert,
    Forest,
    Water,
    Swamp,
    Mountain,
}

#[derive(Debug, Clone, Copy, PartialEq, Eq, Hash, Structural)]
pub enum Animal {
    Bear,
    Cougar,
}

#[derive(Debug, Clone, Copy, PartialEq, Eq, Hash, Structural)]
pub enum StructureColor {
    White,
    Green,
    Blue,
    Black,
}

#[derive(Debug, Clone, Copy, PartialEq, Eq, Hash, Structural)]
pub enum StructureKind {
    Shack,
    Stone,
}

#[derive(Debug, Clone, Copy, PartialEq, Eq, Hash, Structural)]
pub struct Structure {
    pub kind: StructureKind,
    pub color: StructureColor,
}

/// Identifies a player for the length of a round.
#[derive(Debug, Clone, Copy, PartialEq, Eq, Hash, PartialOrd, Ord, Structural)]
pub struct PlayerID(pub usize);

/// Answer a player gave on a tile.
#[derive(Debug, Clone, Copy, PartialEq, Eq, Hash, Structural)]
pub enum Answer {
    /// The player gave no information for a tile.
    Unknown,
    /// The player revealed that the cryptid may be on the tile in question.
    Yes,
    /// The player revealed that the cryptid cannot be on the tile in question.
    No,
}

impl Default for Answer {
    fn default() -> (r: Self)
        ensures
            r == Answer::Unknown,
    {
        Answer::Unknown
    }
}

/// A single hexagon in the game world.
#[derive(Debug, Clone)]
pub struct Tile {
    pub position: Hex,
    pub terrain: Terrain,
    pub animal: Option<Animal>,
    pub structure: Option<Structure>,
    /// True if the target cannot be on this tile; such a tile is drawn a
    /// bit smaller than usual.
    pub small: bool,
    /// Answers given on this tile, keyed by the number of the player
    /// (`PlayerID.0`). A player without an entry has not answered.
    pub answers: BTreeMap<usize, Answer>,
}

impl Tile {
    /// The answer `player` gave on this tile; `Unknown` where there is none.
    pub open spec fn answer_of(self, player: PlayerID) -> Answer {
        if self.answers@.contains_key(player.0) {
            self.answers@[player.0]
        } else {
            Answer::Unknown
        }
    }

    /// A tile with no answers that is not excluded.
    pub fn new(
        position: Hex,
        terrain: Terrain,
        animal: Option<Animal>,
        structure: Option<Structure>,
    ) -> (r: Tile)
        ensures
            r.position == position,
            r.terrain == terrain,
            r.animal == animal,
            r.structure == structure,
            !r.small,
            r.answers@ == Map::<usize, Answer>::empty(),
    {
        Tile { position, terrain, animal, structure, small: false, answers: BTreeMap::new() }
    }

    /// The answer `player` gave on this tile.
    pub fn answer(&self, player: PlayerID) -> (r: Answer)
        ensures
            r == self.answer_of(player),
    {
        match self.answers.get(&player.0) {
            Some(a) => *a,
            None => Answer::Unknown,
        }
    }
}

/// All possible clues.
#[derive(Debug, Clone, Copy, PartialEq, Eq, Structural)]
pub enum ClueKind {
    /// The creature is within one space of the terrain.
    Terrain(Terrain),
    /// The creature is on one of these types of terrain.
    TwoTerrains(Terrain, Terrain),
    /// The creature is within one space of either animal.
    EitherAnimal,
    /// The creature is within two spaces of the animal territory.
    Animal(Animal),
    /// The creature is within two spaces of the type of structure.
    StructureKind(StructureKind),
    /// The creature is within three spaces of a structure of the color.
    StructureColor(StructureColor),
}

#[derive(Debug, Clone, Copy, PartialEq, Eq, Structural)]
pub struct Clue {
    pub kind: ClueKind,
    pub inverted: bool,
}

impl From<ClueKind> for Clue {
    fn from(kind: ClueKind) -> (r: Self) {
        Clue { kind, inverted: false }
    }
}

impl vstd::std_specs::convert::FromSpecImpl<ClueKind> for Clue {
    open spec fn obeys_from_spec() -> bool {
        true
    }

    open spec fn from_spec(kind: ClueKind) -> Clue {
        Clue { kind, inverted: false }
    }
}

} // verus!
