//! Names and descriptions of the game's values, for display.

use crate::model::{Animal, Answer, Clue, ClueKind, StructureColor, StructureKind, Terrain};
use crate::players::PlayerColor;
use vstd::prelude::*;
use vstd::string::*;

verus! {

pub open spec fn terrain_label(t: Terrain) -> Seq<char> {
    match t {
        Terrain::Desert => "Desert"@,
        Terrain::Forest => "Forest"@,
        Terrain::Water => "Water"@,
        Terrain::Swamp => "Swamp"@,
        Terrain::Mountain => "Mountain"@,
    }
}

pub open spec fn animal_label(a: Animal) -> Seq<char> {
    match a {
        Animal::Bear => "Bear"@,
        Animal::Cougar => "Cougar"@,
    }
}

pub open spec fn kind_label(k: StructureKind) -> Seq<char> {
    match k {
        StructureKind::Shack => "Abandoned Shack"@,
        StructureKind::Stone => "Standing Stone"@,
    }
}

pub open spec fn color_label(c: StructureColor) -> Seq<char> {
    match c {
        StructureColor::White => "White"@,
        StructureColor::Green => "Green"@,
        StructureColor::Blue => "Blue"@,
        StructureColor::Black => "Black"@,
    }
}

pub open spec fn player_color_label(c: PlayerColor) -> Seq<char> {
    match c {
        PlayerColor::Red => "Red"@,
        PlayerColor::Purple => "Purple"@,
        PlayerColor::Orange => "Orange"@,
        PlayerColor::Green => "Green"@,
        PlayerColor::Blue => "Blue"@,
    }
}

/// The wording of a clue kind, as on the clue cards.
pub open spec fn kind_description(kind: ClueKind) -> Seq<char> {
    match kind {
        ClueKind::Terrain(t) => "within one space of "@ + terrain_label(t),
        ClueKind::TwoTerrains(a, b) => "on "@ + terrain_label(a) + " or "@ + terrain_label(b),
        ClueKind::EitherAnimal => "within one space of bear or cougar"@,
        ClueKind::Animal(a) => "within two spaces of "@ + animal_label(a),
        ClueKind::StructureKind(k) => "within two spaces of "@ + kind_label(k),
        ClueKind::StructureColor(c) => "within three spaces of "@ + color_label(c) + " structure"@,
    }
}

/// The wording of a clue: its kind's, after "not " when inverted.
pub open spec fn clue_description(clue: Clue) -> Seq<char> {
    if clue.inverted {
        "not "@ + kind_description(clue.kind)
    } else {
        kind_description(clue.kind)
    }
}

impl Terrain {
    pub fn name(self) -> (r: &'static str)
        ensures
            r@ == terrain_label(self),
    {
        match self {
            Terrain::Desert => "Desert",
            Terrain::Forest => "Forest",
            Terrain::Water => "Water",
            Terrain::Swamp => "Swamp",
            Terrain::Mountain => "Mountain",
        }
    }
}

impl Animal {
    pub fn name(self) -> (r: &'static str)
        ensures
            r@ == animal_label(self),
    {
        match self {
            Animal::Bear => "Bear",
            Animal::Cougar => "Cougar",
        }
    }
}

impl StructureKind {
    pub fn name(self) -> (r: &'static str)
        ensures
            r@ == kind_label(self),
    {
        match self {
            StructureKind::Shack => "Abandoned Shack",
            StructureKind::Stone => "Standing Stone",
        }
    }
}

impl StructureColor {
    pub fn name(self) -> (r: &'static str)
        ensures
            r@ == color_label(self),
    {
        match self {
            StructureColor::White => "White",
            StructureColor::Green => "Green",
            StructureColor::Blue => "Blue",
            StructureColor::Black => "Black",
        }
    }
}

impl Answer {
    pub fn name(self) -> (r: &'static str)
        ensures
            r@ == match self {
                Answer::Unknown => "Unknown"@,
                Answer::Yes => "Yes"@,
                Answer::No => "No"@,
            },
    {
        match self {
            Answer::Unknown => "Unknown",
            Answer::Yes => "Yes",
            Answer::No => "No",
        }
    }
}

impl PlayerColor {
    pub fn name(self) -> (r: &'static str)
        ensures
            r@ == player_color_label(self),
    {
        match self {
            PlayerColor::Red => "Red",
            PlayerColor::Purple => "Purple",
            PlayerColor::Orange => "Orange",
            PlayerColor::Green => "Green",
            PlayerColor::Blue => "Blue",
        }
    }
}

impl ClueKind {
    /// The wording of this clue kind.
    pub fn describe(&self) -> (r: String)
        ensures
            r@ == kind_description(*self),
    {
        match *self {
            ClueKind::Terrain(t) => {
                let mut s = String::from_str("within one space of ");
                s.append(t.name());
                s
            },
            ClueKind::TwoTerrains(a, b) => {
                let mut s = String::from_str("on ");
                s.append(a.name());
                s.append(" or ");
                s.append(b.name());
                s
            },
            ClueKind::EitherAnimal => String::from_str("within one space of bear or cougar"),
            ClueKind::Animal(a) => {
                let mut s = String::from_str("within two spaces of ");
                s.append(a.name());
                s
            },
            ClueKind::StructureKind(k) => {
                let mut s = String::from_str("within two spaces of ");
                s.append(k.name());
                s
            },
            ClueKind::StructureColor(c) => {
                let mut s = String::from_str("within three spaces of ");
                s.append(c.name());
                s.append(" structure");
                s
            },
        }
    }
}

impl Clue {
    /// The wording of this clue.
    pub fn describe(&self) -> (r: String)
        ensures
            r@ == clue_description(*self),
    {
        if self.inverted {
            let mut s = String::from_str("not ");
            s.append(self.kind.describe().as_str());
            s
        } else {
            self.kind.describe()
        }
    }
}

} // verus!
