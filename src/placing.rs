//! Placing the structures on an assembled map.

use crate::map::has_structure_color;
use crate::model::{Structure, StructureColor, StructureKind, Tile};
use crate::players::PlayerList;
use vstd::prelude::*;

verus! {

/// Two tiles of `tiles` have no structure.
pub open spec fn two_free(tiles: Seq<Tile>) -> bool {
    exists|a: int, b: int|
        0 <= a < b < tiles.len() && (#[trigger] tiles[a]).structure is None && (#[trigger] tiles[b]).structure is None
}

/// Number of tiles without a structure.
pub open spec fn free_count(tiles: Seq<Tile>) -> int
    decreases tiles.len(),
{
    if tiles.len() == 0 {
        0
    } else {
        free_count(tiles.drop_last()) + if tiles.last().structure is None {
            1int
        } else {
            0int
        }
    }
}

proof fn lemma_some_free(tiles: Seq<Tile>)
    requires
        free_count(tiles) >= 1,
    ensures
        exists|a: int| 0 <= a < tiles.len() && (#[trigger] tiles[a]).structure is None,
    decreases tiles.len(),
{
    if tiles.last().structure is None {
        assert(tiles[tiles.len() - 1].structure is None);
    } else {
        lemma_some_free(tiles.drop_last());
        let a = choose|a: int| 0 <= a < tiles.drop_last().len() && (#[trigger] tiles.drop_last()[a]).structure is None;
        assert(tiles[a].structure is None);
    }
}

/// Two free tiles are there as soon as they are counted.
proof fn lemma_two_free(tiles: Seq<Tile>)
    requires
        free_count(tiles) >= 2,
    ensures
        two_free(tiles),
    decreases tiles.len(),
{
    let rest = tiles.drop_last();
    if free_count(rest) >= 2 {
        lemma_two_free(rest);
        let (a, b) = choose|a: int, b: int|
            0 <= a < b < rest.len() && (#[trigger] rest[a]).structure is None && (#[trigger] rest[b]).structure is None;
        assert(tiles[a].structure is None && tiles[b].structure is None);
    } else {
        lemma_some_free(rest);
        let a = choose|a: int| 0 <= a < rest.len() && (#[trigger] rest[a]).structure is None;
        assert(tiles[a].structure is None);
        assert(tiles[tiles.len() - 1].structure is None);
    }
}

/// Filling the free tiles `a` and `b` leaves two free tiles fewer.
proof fn lemma_count_after_pair(before: Seq<Tile>, after: Seq<Tile>, a: int, b: int, n: int)
    requires
        0 <= a < b < before.len(),
        after.len() == before.len(),
        0 <= n <= before.len(),
        before[a].structure is None,
        before[b].structure is None,
        after[a].structure is Some,
        after[b].structure is Some,
        forall|j: int| 0 <= j < before.len() && j != a && j != b ==> (#[trigger] after[j]).structure == before[j].structure,
    ensures
        free_count(after.take(n)) == free_count(before.take(n)) - (if a < n {
            1int
        } else {
            0int
        }) - (if b < n {
            1int
        } else {
            0int
        }),
    decreases n,
{
    if n > 0 {
        lemma_count_after_pair(before, after, a, b, n - 1);
        assert(after.take(n).drop_last() =~= after.take(n - 1));
        assert(before.take(n).drop_last() =~= before.take(n - 1));
        assert(after.take(n).last() == after[n - 1]);
        assert(before.take(n).last() == before[n - 1]);
    }
}

/// `after` is `before` with the stone of `color` on tile `a` and its
/// shack on tile `b`, the first two tiles of `before` without a structure.
pub open spec fn placed_pair(before: Seq<Tile>, after: Seq<Tile>, a: int, b: int, color: StructureColor) -> bool {
    &&& 0 <= a < b < before.len()
    &&& after.len() == before.len()
    &&& before[a].structure is None
    &&& before[b].structure is None
    &&& forall|j: int| 0 <= j < b && j != a ==> (#[trigger] before[j]).structure is Some
    &&& forall|j: int|
        0 <= j < before.len() ==> {
            &&& (#[trigger] after[j]).position == before[j].position
            &&& after[j].terrain == before[j].terrain
            &&& after[j].animal == before[j].animal
            &&& after[j].small == before[j].small
            &&& after[j].answers == before[j].answers
            &&& after[j].structure == if j == a {
                Some(Structure { kind: StructureKind::Stone, color })
            } else if j == b {
                Some(Structure { kind: StructureKind::Shack, color })
            } else {
                before[j].structure
            }
        }
}

/// State of the phase in which structures are placed.
#[derive(Debug)]
pub struct PlacingStructures {
    map: Vec<Tile>,
    pub players: PlayerList,
}

impl PlacingStructures {
    pub closed spec fn tiles_view(&self) -> Seq<Tile> {
        self.map@
    }

    pub closed spec fn players_view(&self) -> Seq<crate::players::Player> {
        self.players@
    }

    /// Starts placing structures on `tiles`, placing the white, green and
    /// blue structures on the first free tiles while there is room.
    pub fn new(tiles: Vec<Tile>, players: PlayerList) -> (r: PlacingStructures)
        ensures
            r.tiles_view().len() == tiles@.len(),
            r.players_view() == players@,
            free_count(tiles@) >= 6 ==> {
                &&& r.has_spec(StructureColor::White)
                &&& r.has_spec(StructureColor::Green)
                &&& r.has_spec(StructureColor::Blue)
                &&& free_count(r.tiles_view()) == free_count(tiles@) - 6
            },
    {
        proof {
            if free_count(tiles@) >= 6 {
                lemma_two_free(tiles@);
            }
        }
        let mut s = PlacingStructures { map: tiles, players };
        if s.has_room() {
            s.add(StructureColor::White);
        }
        proof {
            if free_count(tiles@) >= 6 {
                lemma_two_free(s.tiles_view());
            }
        }
        if s.has_room() {
            s.add(StructureColor::Green);
        }
        proof {
            if free_count(tiles@) >= 6 {
                lemma_two_free(s.tiles_view());
            }
        }
        if s.has_room() {
            s.add(StructureColor::Blue);
        }
        s
    }

    /// Whether two tiles are free for the structures of a color.
    pub fn has_room(&self) -> (r: bool)
        ensures
            r == two_free(self.tiles_view()),
    {
        let mut found: usize = 0;
        let mut first: usize = 0;
        let mut i: usize = 0;
        while i < self.map.len()
            invariant
                i <= self.map@.len(),
                found <= 1,
                found == 0 ==> forall|j: int| 0 <= j < i ==> (#[trigger] self.map@[j]).structure is Some,
                found == 1 ==> first < i && self.map@[first as int].structure is None,
                found == 1 ==> forall|j: int| first < j < i ==> (#[trigger] self.map@[j]).structure is Some,
                found == 1 ==> forall|j: int| 0 <= j < first ==> (#[trigger] self.map@[j]).structure is Some,
            decreases self.map@.len() - i,
        {
            if self.map[i].structure.is_none() {
                if found == 1 {
                    assert(self.map@[first as int].structure is None && self.map@[i as int].structure is None);
                    return true;
                }
                found = 1;
                first = i;
            }
            i += 1;
        }
        false
    }

    /// The first index from `start` on of a tile without a structure.
    fn next_free(&self, start: usize) -> (r: usize)
        requires
            exists|j: int| start <= j < self.map@.len() && (#[trigger] self.map@[j]).structure is None,
        ensures
            start <= r < self.map@.len(),
            self.map@[r as int].structure is None,
            forall|j: int| start <= j < r ==> (#[trigger] self.map@[j]).structure is Some,
    {
        assert(self.map@.len() == self.map.len());
        let mut i = start;
        while self.map[i].structure.is_some()
            invariant
                self.map@.len() <= usize::MAX,
                start <= i < self.map@.len(),
                exists|j: int| i <= j < self.map@.len() && (#[trigger] self.map@[j]).structure is None,
                forall|j: int| start <= j < i ==> (#[trigger] self.map@[j]).structure is Some,
            decreases self.map@.len() - i,
        {
            proof {
                let j = choose|j: int| i <= j < self.map@.len() && (#[trigger] self.map@[j]).structure is None;
                assert(j != i);
            }
            i += 1;
        }
        i
    }

    pub closed spec fn has_spec(&self, color: StructureColor) -> bool {
        exists|i: int| 0 <= i < self.map@.len() && has_structure_color(#[trigger] self.map@[i], color)
    }

    pub fn tiles(&self) -> (r: &[Tile])
        ensures
            r@ == self.tiles_view(),
    {
        self.map.as_slice()
    }

    /// Returns true if a structure of the color stands on the map.
    pub fn has(&self, color: StructureColor) -> (r: bool)
        ensures
            r == self.has_spec(color),
    {
        let mut i: usize = 0;
        while i < self.map.len()
            invariant
                i <= self.map@.len(),
                forall|j: int| 0 <= j < i ==> !has_structure_color(#[trigger] self.map@[j], color),
            decreases self.map@.len() - i,
        {
            if let Some(s) = self.map[i].structure {
                if s.color == color {
                    return true;
                }
            }
            i += 1;
        }
        false
    }

    /// Adds the standing stone of the color on the first free tile and
    /// its abandoned shack on the next free one.
    pub fn add(&mut self, color: StructureColor)
        requires
            two_free(old(self).tiles_view()),
        ensures
            final(self).players_view() == old(self).players_view(),
            final(self).tiles_view().len() == old(self).tiles_view().len(),
            exists|a: int, b: int| placed_pair(old(self).tiles_view(), final(self).tiles_view(), a, b, color),
            free_count(final(self).tiles_view()) == free_count(old(self).tiles_view()) - 2,
            forall|c: StructureColor| old(self).has_spec(c) ==> final(self).has_spec(c),
            final(self).has_spec(color),
    {
        let ghost start = self.map@;
        let first = self.next_free(0);
        self.map[first].structure = Some(Structure { kind: StructureKind::Stone, color });
        assert(exists|j: int| first <= j < self.map@.len() && (#[trigger] self.map@[j]).structure is None) by {
            let (x, y) = choose|x: int, y: int|
                0 <= x < y < start.len() && (#[trigger] start[x]).structure is None && (#[trigger] start[y]).structure is None;
            assert(self.map@[y].structure is None);
        }
        let second = self.next_free(first);
        self.map[second].structure = Some(Structure { kind: StructureKind::Shack, color });
        assert forall|j: int| 0 <= j < second && j != first implies (#[trigger] start[j]).structure is Some by {
            if j > first {
                assert(self.map@[j].structure == start[j].structure);
            }
        }
        assert(placed_pair(start, self.map@, first as int, second as int, color));
        assert(placed_pair(old(self).tiles_view(), self.tiles_view(), first as int, second as int, color));
        proof {
            lemma_count_after_pair(start, self.map@, first as int, second as int, start.len() as int);
            assert(start.take(start.len() as int) =~= start);
            assert(self.map@.take(start.len() as int) =~= self.map@);
            assert forall|c: StructureColor| old(self).has_spec(c) implies self.has_spec(c) by {
                let i = choose|i: int| 0 <= i < start.len() && has_structure_color(#[trigger] start[i], c);
                assert(has_structure_color(self.map@[i], c));
            }
            assert(has_structure_color(self.map@[first as int], color));
        }
    }

    /// Removes the structures of the color from the map.
    pub fn delete(&mut self, color: StructureColor)
        ensures
            final(self).players_view() == old(self).players_view(),
            final(self).tiles_view().len() == old(self).tiles_view().len(),
            forall|i: int|
                0 <= i < old(self).tiles_view().len() ==> {
                    &&& (#[trigger] final(self).tiles_view()[i]).position == old(self).tiles_view()[i].position
                    &&& final(self).tiles_view()[i].terrain == old(self).tiles_view()[i].terrain
                    &&& final(self).tiles_view()[i].animal == old(self).tiles_view()[i].animal
                    &&& final(self).tiles_view()[i].structure == match old(self).tiles_view()[i].structure {
                        Some(s) => if s.color == color {
                            None
                        } else {
                            Some(s)
                        },
                        None => None,
                    }
                },
    {
        let mut i: usize = 0;
        while i < self.map.len()
            invariant
                self.players == old(self).players,
                self.map@.len() == old(self).map@.len(),
                i <= self.map@.len(),
                forall|j: int| i <= j < self.map@.len() ==> self.map@[j] == old(self).map@[j],
                forall|j: int|
                    0 <= j < i ==> {
                        &&& (#[trigger] self.map@[j]).position == old(self).map@[j].position
                        &&& self.map@[j].terrain == old(self).map@[j].terrain
                        &&& self.map@[j].animal == old(self).map@[j].animal
                        &&& self.map@[j].structure == match old(self).map@[j].structure {
                            Some(s) => if s.color == color {
                                None
                            } else {
                                Some(s)
                            },
                            None => None,
                        }
                    },
            decreases self.map@.len() - i,
        {
            if let Some(s) = self.map[i].structure {
                if s.color == color {
                    self.map[i].structure = None;
                }
            }
            i += 1;
        }
    }
}

} // verus!
