//! The map of tiles, neighbourhood queries and the clue evaluator.

use crate::hex::{hex_distance, Hex};
use crate::model::{Animal, Clue, ClueKind, Structure, StructureColor, StructureKind, Terrain, Tile};
use itertools::Itertools;
use vstd::prelude::*;

verus! {

/// A map of tiles.
#[derive(Debug)]
pub struct TileMap(pub Vec<Tile>);

/// `i` is the first index of `tiles` whose tile stands at `at`.
pub open spec fn first_at(tiles: Seq<Tile>, i: int, at: Hex) -> bool {
    &&& 0 <= i < tiles.len()
    &&& tiles[i].position == at
    &&& forall|j: int| 0 <= j < i ==> tiles[j].position != at
}

/// Some tile within `radius` steps of `center` satisfies `pred`.
pub open spec fn near(tiles: Seq<Tile>, center: Hex, radius: int, pred: spec_fn(Tile) -> bool) -> bool {
    exists|i: int|
        #![trigger tiles[i]]
        0 <= i < tiles.len() && hex_distance(tiles[i].position, center) <= radius && pred(tiles[i])
}

pub open spec fn has_structure_kind(t: Tile, kind: StructureKind) -> bool {
    match t.structure {
        Some(s) => s.kind == kind,
        None => false,
    }
}

pub open spec fn has_structure_color(t: Tile, color: StructureColor) -> bool {
    match t.structure {
        Some(s) => s.color == color,
        None => false,
    }
}

/// Whether the uninverted form of a clue of kind `kind` allows `position`.
pub open spec fn kind_holds(tiles: Seq<Tile>, kind: ClueKind, position: Hex) -> bool {
    match kind {
        ClueKind::Terrain(terrain) => near(tiles, position, 1, |t: Tile| t.terrain == terrain),
        ClueKind::TwoTerrains(a, b) => exists|i: int|
            #![trigger tiles[i]]
            first_at(tiles, i, position) && (tiles[i].terrain == a || tiles[i].terrain == b),
        ClueKind::EitherAnimal => near(tiles, position, 1, |t: Tile| t.animal is Some),
        ClueKind::Animal(animal) => near(tiles, position, 2, |t: Tile| t.animal == Some(animal)),
        ClueKind::StructureKind(kind) => near(
            tiles,
            position,
            2,
            |t: Tile| has_structure_kind(t, kind),
        ),
        ClueKind::StructureColor(color) => near(
            tiles,
            position,
            3,
            |t: Tile| has_structure_color(t, color),
        ),
    }
}

/// Whether `clue` allows the target at `position`.
pub open spec fn clue_holds(tiles: Seq<Tile>, clue: Clue, position: Hex) -> bool {
    if clue.inverted {
        !kind_holds(tiles, clue.kind, position)
    } else {
        kind_holds(tiles, clue.kind, position)
    }
}

/// Every tile position lies within the coordinate range.
pub open spec fn tiles_wf(tiles: Seq<Tile>) -> bool {
    forall|i: int| 0 <= i < tiles.len() ==> (#[trigger] tiles[i]).position.in_range()
}

/// The structures of `tiles`, in tile order.
pub open spec fn structures_of(tiles: Seq<Tile>) -> Seq<Structure> {
    tiles.filter_map(|t: Tile| t.structure)
}

/// The first occurrence of each distinct element of `s`, in order.
pub open spec fn dedup<A>(s: Seq<A>) -> Seq<A>
    decreases s.len(),
{
    if s.len() == 0 {
        seq![]
    } else {
        let d = dedup(s.drop_last());
        if d.contains(s.last()) {
            d
        } else {
            d.push(s.last())
        }
    }
}

/// The structure colors present on `tiles`, each once, in order of first
/// appearance.
pub open spec fn present_colors(tiles: Seq<Tile>) -> Seq<StructureColor> {
    dedup(structures_of(tiles).map_values(|s: Structure| s.color))
}

/// The structure kinds present on `tiles`, each once, in order of first
/// appearance.
pub open spec fn present_kinds(tiles: Seq<Tile>) -> Seq<StructureKind> {
    dedup(structures_of(tiles).map_values(|s: Structure| s.kind))
}

/// Deduplicating commutes with an injective map.
pub proof fn lemma_dedup_map<A, B>(s: Seq<A>, f: spec_fn(A) -> B)
    requires
        forall|a: A, b: A| #[trigger] f(a) == #[trigger] f(b) ==> a == b,
    ensures
        dedup(s.map_values(f)) == dedup(s).map_values(f),
    decreases s.len(),
{
    if s.len() > 0 {
        let t = s.map_values(f);
        assert(t.drop_last() =~= s.drop_last().map_values(f));
        lemma_dedup_map(s.drop_last(), f);
        let d = dedup(s.drop_last());
        let x = s.last();
        if d.contains(x) {
            let k = choose|k: int| 0 <= k < d.len() && d[k] == x;
            assert(d.map_values(f)[k] == f(x));
        }
        if d.map_values(f).contains(f(x)) {
            let k = choose|k: int| 0 <= k < d.len() && d.map_values(f)[k] == f(x);
            assert(d[k] == x);
        }
        assert(d.push(x).map_values(f) =~= d.map_values(f).push(f(x)));
    }
}

/// Deduplicating keeps only elements of the input.
pub proof fn lemma_dedup_subset<A>(s: Seq<A>, x: A)
    requires
        dedup(s).contains(x),
    ensures
        s.contains(x),
    decreases s.len(),
{
    if s.len() > 0 {
        let d = dedup(s.drop_last());
        if d.contains(x) {
            lemma_dedup_subset(s.drop_last(), x);
            let j = choose|j: int| 0 <= j < s.drop_last().len() && s.drop_last()[j] == x;
            assert(s[j] == x);
        } else {
            assert(s[s.len() - 1] == x);
        }
    }
}

/// Relies on `itertools::Itertools::unique`: the first occurrence of each
/// distinct element, in order.
#[verifier::external_body]
fn unique_codes(v: Vec<u8>) -> (r: Vec<u8>)
    ensures
        r@ == dedup(v@),
{
    v.into_iter().unique().collect()
}

pub open spec fn color_code(c: StructureColor) -> u8 {
    match c {
        StructureColor::White => 0,
        StructureColor::Green => 1,
        StructureColor::Blue => 2,
        StructureColor::Black => 3,
    }
}

pub open spec fn kind_code(k: StructureKind) -> u8 {
    match k {
        StructureKind::Shack => 0,
        StructureKind::Stone => 1,
    }
}

fn encode_color(c: StructureColor) -> (r: u8)
    ensures
        r == color_code(c),
{
    match c {
        StructureColor::White => 0,
        StructureColor::Green => 1,
        StructureColor::Blue => 2,
        StructureColor::Black => 3,
    }
}

fn decode_color(v: u8) -> (r: StructureColor)
    requires
        v < 4,
    ensures
        color_code(r) == v,
{
    if v == 0 {
        StructureColor::White
    } else if v == 1 {
        StructureColor::Green
    } else if v == 2 {
        StructureColor::Blue
    } else {
        StructureColor::Black
    }
}

fn encode_kind(k: StructureKind) -> (r: u8)
    ensures
        r == kind_code(k),
{
    match k {
        StructureKind::Shack => 0,
        StructureKind::Stone => 1,
    }
}

fn decode_kind(v: u8) -> (r: StructureKind)
    requires
        v < 2,
    ensures
        kind_code(r) == v,
{
    if v == 0 {
        StructureKind::Shack
    } else {
        StructureKind::Stone
    }
}

/// Inverting a clue flips its verdict on every position of every map.
pub proof fn lemma_inversion_flips(tiles: Seq<Tile>, kind: ClueKind, position: Hex)
    ensures
        clue_holds(tiles, (Clue { kind, inverted: true }), position) == !clue_holds(
            tiles,
            (Clue { kind, inverted: false }),
            position,
        ),
{
}

/// The two maps hold the same tiles at the same places, answers and
/// exclusion marks aside.
pub open spec fn same_layout(a: Seq<Tile>, b: Seq<Tile>) -> bool {
    &&& a.len() == b.len()
    &&& forall|i: int|
        0 <= i < a.len() ==> {
            &&& (#[trigger] a[i]).position == b[i].position
            &&& a[i].terrain == b[i].terrain
            &&& a[i].animal == b[i].animal
            &&& a[i].structure == b[i].structure
        }
}

/// A clue's verdict depends on the layout of the map alone, never on
/// answers or exclusion marks.
pub proof fn lemma_layout_decides(a: Seq<Tile>, b: Seq<Tile>, clue: Clue, position: Hex)
    requires
        same_layout(a, b),
    ensures
        clue_holds(a, clue, position) == clue_holds(b, clue, position),
{
    assert forall|i: int| 0 <= i < a.len() implies #[trigger] b[i].position == a[i].position by {}
    match clue.kind {
        ClueKind::TwoTerrains(x, y) => {
            if kind_holds(a, clue.kind, position) {
                let i = choose|i: int| first_at(a, i, position) && (a[i].terrain == x || a[i].terrain == y);
                assert(first_at(b, i, position));
            }
            if kind_holds(b, clue.kind, position) {
                let i = choose|i: int| first_at(b, i, position) && (b[i].terrain == x || b[i].terrain == y);
                assert(first_at(a, i, position));
            }
        },
        _ => {},
    }
}

/// Two maps of the same layout hold the same structures.
pub proof fn lemma_layout_structures(a: Seq<Tile>, b: Seq<Tile>)
    requires
        same_layout(a, b),
    ensures
        structures_of(a) == structures_of(b),
    decreases a.len(),
{
    if a.len() > 0 {
        assert(a.last() == a[a.len() - 1]);
        assert(b.last() == b[b.len() - 1]);
        lemma_layout_structures(a.drop_last(), b.drop_last());
    }
}

/// A structure kind that `present_kinds` lists stands on some tile.
pub proof fn lemma_present_kind(tiles: Seq<Tile>, kind: StructureKind)
    requires
        present_kinds(tiles).contains(kind),
    ensures
        exists|i: int| 0 <= i < tiles.len() && has_structure_kind(#[trigger] tiles[i], kind),
{
    let ss = structures_of(tiles);
    let m = ss.map_values(|s: Structure| s.kind);
    lemma_dedup_subset(m, kind);
    let j = choose|j: int| 0 <= j < m.len() && #[trigger] m[j] == kind;
    assert(ss.contains(ss[j]));
    tiles.lemma_filter_map_contains(|t: Tile| t.structure, ss[j]);
    let t = choose|t: Tile| tiles.contains(t) && t.structure == Some(ss[j]);
    let i = choose|i: int| 0 <= i < tiles.len() && tiles[i] == t;
    assert(has_structure_kind(tiles[i], kind));
}

/// A structure color that `present_colors` lists stands on some tile.
pub proof fn lemma_present_color(tiles: Seq<Tile>, color: StructureColor)
    requires
        present_colors(tiles).contains(color),
    ensures
        exists|i: int| 0 <= i < tiles.len() && has_structure_color(#[trigger] tiles[i], color),
{
    let ss = structures_of(tiles);
    let m = ss.map_values(|s: Structure| s.color);
    lemma_dedup_subset(m, color);
    let j = choose|j: int| 0 <= j < m.len() && #[trigger] m[j] == color;
    assert(ss.contains(ss[j]));
    tiles.lemma_filter_map_contains(|t: Tile| t.structure, ss[j]);
    let t = choose|t: Tile| tiles.contains(t) && t.structure == Some(ss[j]);
    let i = choose|i: int| 0 <= i < tiles.len() && tiles[i] == t;
    assert(has_structure_color(tiles[i], color));
}

impl TileMap {
    pub open spec fn tiles(&self) -> Seq<Tile> {
        self.0@
    }

    pub open spec fn wf(&self) -> bool {
        tiles_wf(self.0@)
    }

    /// Returns the structure colors present on the map.
    #[verifier::loop_isolation(false)]
    pub fn structure_colors(&self) -> (r: Vec<StructureColor>)
        ensures
            r@ == present_colors(self.0@),
    {
        let ghost tiles = self.0@;
        let ghost to_color = |s: Structure| s.color;
        let ghost to_code = |c: StructureColor| color_code(c);
        let mut codes: Vec<u8> = Vec::new();
        let mut i: usize = 0;
        while i < self.0.len()
            invariant
                i <= tiles.len(),
                tiles == self.0@,
                codes@ == structures_of(tiles.take(i as int)).map_values(to_color).map_values(to_code),
            decreases tiles.len() - i,
        {
            let ghost prev = structures_of(tiles.take(i as int));
            assert(tiles.take(i as int + 1).drop_last() =~= tiles.take(i as int));
            assert(tiles.take(i as int + 1).last() == tiles[i as int]);
            proof {
                match tiles[i as int].structure {
                    Some(s) => assert(structures_of(tiles.take(i as int + 1)) =~= prev.push(s)),
                    None => assert(structures_of(tiles.take(i as int + 1)) =~= prev),
                }
            }
            if let Some(s) = self.0[i].structure {
                codes.push(encode_color(s.color));
            }
            i += 1;
            assert(codes@ =~= structures_of(tiles.take(i as int)).map_values(to_color).map_values(to_code));
        }
        assert(tiles.take(i as int) =~= tiles);
        let colors = Ghost(structures_of(tiles).map_values(to_color));
        assert(codes@ =~= colors@.map_values(to_code));
        proof {
            lemma_dedup_map(colors@, to_code);
        }
        let unique = unique_codes(codes);
        let mut r: Vec<StructureColor> = Vec::new();
        let mut j: usize = 0;
        while j < unique.len()
            invariant
                j <= unique@.len(),
                unique@ == dedup(colors@).map_values(to_code),
                r@ == dedup(colors@).take(j as int),
            decreases unique@.len() - j,
        {
            assert(unique@[j as int] == color_code(dedup(colors@)[j as int]));
            let c = decode_color(unique[j]);
            r.push(c);
            j += 1;
            assert(r@ =~= dedup(colors@).take(j as int));
        }
        assert(r@ =~= dedup(colors@));
        r
    }

    /// Returns the structure kinds present on the map.
    #[verifier::loop_isolation(false)]
    pub fn structure_kinds(&self) -> (r: Vec<StructureKind>)
        ensures
            r@ == present_kinds(self.0@),
    {
        let ghost tiles = self.0@;
        let ghost to_kind = |s: Structure| s.kind;
        let ghost to_code = |k: StructureKind| kind_code(k);
        let mut codes: Vec<u8> = Vec::new();
        let mut i: usize = 0;
        while i < self.0.len()
            invariant
                i <= tiles.len(),
                tiles == self.0@,
                codes@ == structures_of(tiles.take(i as int)).map_values(to_kind).map_values(to_code),
            decreases tiles.len() - i,
        {
            let ghost prev = structures_of(tiles.take(i as int));
            assert(tiles.take(i as int + 1).drop_last() =~= tiles.take(i as int));
            assert(tiles.take(i as int + 1).last() == tiles[i as int]);
            proof {
                match tiles[i as int].structure {
                    Some(s) => assert(structures_of(tiles.take(i as int + 1)) =~= prev.push(s)),
                    None => assert(structures_of(tiles.take(i as int + 1)) =~= prev),
                }
            }
            if let Some(s) = self.0[i].structure {
                codes.push(encode_kind(s.kind));
            }
            i += 1;
            assert(codes@ =~= structures_of(tiles.take(i as int)).map_values(to_kind).map_values(to_code));
        }
        assert(tiles.take(i as int) =~= tiles);
        let kinds = Ghost(structures_of(tiles).map_values(to_kind));
        assert(codes@ =~= kinds@.map_values(to_code));
        proof {
            lemma_dedup_map(kinds@, to_code);
        }
        let unique = unique_codes(codes);
        let mut r: Vec<StructureKind> = Vec::new();
        let mut j: usize = 0;
        while j < unique.len()
            invariant
                j <= unique@.len(),
                unique@ == dedup(kinds@).map_values(to_code),
                r@ == dedup(kinds@).take(j as int),
            decreases unique@.len() - j,
        {
            assert(unique@[j as int] == kind_code(dedup(kinds@)[j as int]));
            let k = decode_kind(unique[j]);
            r.push(k);
            j += 1;
            assert(r@ =~= dedup(kinds@).take(j as int));
        }
        assert(r@ =~= dedup(kinds@));
        r
    }

    /// The index of the first tile at `at`.
    pub fn index_of(&self, at: Hex) -> (r: Option<usize>)
        ensures
            match r {
                Some(i) => first_at(self.0@, i as int, at),
                None => forall|i: int| 0 <= i < self.0@.len() ==> self.0@[i].position != at,
            },
    {
        let mut i: usize = 0;
        while i < self.0.len()
            invariant
                i <= self.0@.len(),
                forall|j: int| 0 <= j < i ==> self.0@[j].position != at,
            decreases self.0@.len() - i,
        {
            if self.0[i].position == at {
                return Some(i);
            }
            i += 1;
        }
        None
    }

    /// The first tile at `at`, for editing.
    pub fn get_mut(&mut self, at: Hex) -> (r: Option<&mut Tile>)
        ensures
            match r {
                Some(t) => exists|i: int|
                    first_at(old(self).0@, i, at) && *t == old(self).0@[i] && final(self).0@ == old(self).0@.update(i, *final(t)),
                None => {
                    &&& forall|i: int| 0 <= i < old(self).0@.len() ==> old(self).0@[i].position != at
                    &&& final(self).0@ == old(self).0@
                },
            },
    {
        match self.index_of(at) {
            Some(i) => Some(&mut self.0[i]),
            None => None,
        }
    }

    /// Moves the structure standing on the tile at `from` onto the tile at
    /// `to`. Nothing moves, and false is returned, where there is no tile
    /// at `to` or at `from`, or the tile at `to` already holds a structure.
    pub fn move_structure(&mut self, from: Hex, to: Hex) -> (r: bool)
        ensures
            r == ((exists|t: int| first_at(old(self).0@, t, to) && old(self).0@[t].structure is None) && exists|f: int|
                first_at(old(self).0@, f, from)),
            !r ==> final(self).0@ == old(self).0@,
            r ==> exists|t: int, f: int|
                first_at(old(self).0@, t, to) && first_at(old(self).0@, f, from) && final(self).0@.len() == old(self).0@.len()
                    && forall|j: int|
                    0 <= j < old(self).0@.len() ==> {
                        &&& (#[trigger] final(self).0@[j]).position == old(self).0@[j].position
                        &&& final(self).0@[j].terrain == old(self).0@[j].terrain
                        &&& final(self).0@[j].animal == old(self).0@[j].animal
                        &&& final(self).0@[j].small == old(self).0@[j].small
                        &&& final(self).0@[j].answers == old(self).0@[j].answers
                        &&& final(self).0@[j].structure == if j == t {
                            old(self).0@[f].structure
                        } else if j == f {
                            None
                        } else {
                            old(self).0@[j].structure
                        }
                    },
    {
        let t = match self.index_of(to) {
            Some(t) => t,
            None => {
                return false;
            },
        };
        if self.0[t].structure.is_some() {
            return false;
        }
        let f = match self.index_of(from) {
            Some(f) => f,
            None => {
                assert(!exists|f: int| first_at(self.0@, f, from));
                return false;
            },
        };
        let moving = self.0[f].structure;
        self.0[f].structure = None;
        self.0[t].structure = moving;
        true
    }

    /// The first tile at `at`.
    pub fn get(&self, at: Hex) -> (r: Option<&Tile>)
        ensures
            match r {
                Some(t) => exists|i: int| first_at(self.0@, i, at) && *t == self.0@[i],
                None => forall|i: int| 0 <= i < self.0@.len() ==> self.0@[i].position != at,
            },
    {
        let mut i: usize = 0;
        while i < self.0.len()
            invariant
                i <= self.0@.len(),
                forall|j: int| 0 <= j < i ==> self.0@[j].position != at,
            decreases self.0@.len() - i,
        {
            if self.0[i].position == at {
                return Some(&self.0[i]);
            }
            i += 1;
        }
        None
    }

    /// Checks every tile within `distance` steps of `position`, `position`
    /// included, for `condition`. Distance 0 is only `position` itself.
    /// Returns true if the condition holds on any of those tiles.
    pub fn any<F>(&self, position: Hex, distance: u32, condition: F) -> (r: bool) where
        F: Fn(&Tile) -> bool,

        requires
            self.wf(),
            position.in_range(),
            forall|t: &Tile| condition.requires((t,)),
        ensures
            r ==> exists|i: int|
                #![trigger self.0@[i]]
                0 <= i < self.0@.len() && hex_distance(self.0@[i].position, position) <= distance
                    && condition.ensures((&self.0@[i],), true),
            !r ==> forall|i: int|
                #![trigger self.0@[i]]
                0 <= i < self.0@.len() && hex_distance(self.0@[i].position, position) <= distance
                    ==> condition.ensures((&self.0@[i],), false),
    {
        let mut i: usize = 0;
        while i < self.0.len()
            invariant
                self.wf(),
                position.in_range(),
                forall|t: &Tile| condition.requires((t,)),
                i <= self.0@.len(),
                forall|j: int|
                    #![trigger self.0@[j]]
                    0 <= j < i && hex_distance(self.0@[j].position, position) <= distance
                        ==> condition.ensures((&self.0@[j],), false),
            decreases self.0@.len() - i,
        {
            let tile = &self.0[i];
            if tile.position.distance(position) <= distance {
                if condition(tile) {
                    return true;
                }
            }
            i += 1;
        }
        false
    }

    /// Returns true if the target could be at `position` according to `clue`.
    pub fn clue_applies(&self, clue: Clue, position: Hex) -> (r: bool)
        requires
            self.wf(),
            position.in_range(),
        ensures
            r == clue_holds(self.0@, clue, position),
    {
        let applies = match clue.kind {
            ClueKind::Terrain(terrain) => self.any(
                position,
                1,
                (|t: &Tile| -> (b: bool)
                    ensures
                        b == (t.terrain == terrain),
                    { t.terrain == terrain }),
            ),
            ClueKind::TwoTerrains(a, b) => match self.get(position) {
                Some(tile) => tile.terrain == a || tile.terrain == b,
                None => false,
            },
            ClueKind::EitherAnimal => self.any(
                position,
                1,
                (|t: &Tile| -> (b: bool)
                    ensures
                        b == (t.animal is Some),
                    { t.animal.is_some() }),
            ),
            ClueKind::Animal(animal) => self.any(
                position,
                2,
                (|t: &Tile| -> (b: bool)
                    ensures
                        b == (t.animal == Some(animal)),
                    {
                        match t.animal {
                            Some(a) => a == animal,
                            None => false,
                        }
                    }),
            ),
            ClueKind::StructureKind(kind) => self.any(
                position,
                2,
                (|t: &Tile| -> (b: bool)
                    ensures
                        b == has_structure_kind(*t, kind),
                    {
                        match t.structure {
                            Some(s) => s.kind == kind,
                            None => false,
                        }
                    }),
            ),
            ClueKind::StructureColor(color) => self.any(
                position,
                3,
                (|t: &Tile| -> (b: bool)
                    ensures
                        b == has_structure_color(*t, color),
                    {
                        match t.structure {
                            Some(s) => s.color == color,
                            None => false,
                        }
                    }),
            ),
        };
        if clue.inverted {
            !applies
        } else {
            applies
        }
    }
}

} // verus!
