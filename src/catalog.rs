//! The closed catalog of clues.

use crate::model::{Animal, Clue, ClueKind, StructureColor, StructureKind, Terrain};
use itertools::Itertools;
use vstd::prelude::*;

verus! {

/// Every terrain, in declaration order.
pub open spec fn terrain_list() -> Seq<Terrain> {
    seq![Terrain::Desert, Terrain::Forest, Terrain::Water, Terrain::Swamp, Terrain::Mountain]
}

/// Every animal, in declaration order.
pub open spec fn animal_list() -> Seq<Animal> {
    seq![Animal::Bear, Animal::Cougar]
}

/// Every pair of elements of `s` taken at two distinct positions, the
/// earlier one first, in lexicographic order of the positions.
pub open spec fn pairs_of(s: Seq<Terrain>) -> Seq<(Terrain, Terrain)>
    decreases s.len(),
{
    if s.len() == 0 {
        seq![]
    } else {
        s.drop_first().map_values(|b: Terrain| (s[0], b)) + pairs_of(s.drop_first())
    }
}

/// The clue kinds on a map whose structures have the given colors and kinds:
/// terrains, terrain pairs, either animal, each animal, each structure
/// kind, each structure color.
pub open spec fn catalog_kinds(colors: Seq<StructureColor>, kinds: Seq<StructureKind>) -> Seq<ClueKind> {
    terrain_list().map_values(|t: Terrain| ClueKind::Terrain(t)) + pairs_of(terrain_list()).map_values(
        |p: (Terrain, Terrain)| ClueKind::TwoTerrains(p.0, p.1),
    ) + seq![ClueKind::EitherAnimal] + animal_list().map_values(|a: Animal| ClueKind::Animal(a))
        + kinds.map_values(|k: StructureKind| ClueKind::StructureKind(k)) + colors.map_values(
        |c: StructureColor| ClueKind::StructureColor(c),
    )
}

/// Clues of the given kinds, all with the same inversion flag.
pub open spec fn clues_of(kinds: Seq<ClueKind>, inverted: bool) -> Seq<Clue> {
    kinds.map_values(|k: ClueKind| Clue { kind: k, inverted })
}

/// The full catalog: every plain clue, then, with inverted clues enabled,
/// every clue again inverted.
pub open spec fn catalog(colors: Seq<StructureColor>, kinds: Seq<StructureKind>, with_inverted: bool) -> Seq<Clue> {
    let base = catalog_kinds(colors, kinds);
    if with_inverted {
        clues_of(base, false) + clues_of(base, true)
    } else {
        clues_of(base, false)
    }
}

/// A structure clue kind names a kind or color of the given lists.
pub open spec fn restricted(kind: ClueKind, colors: Seq<StructureColor>, kinds: Seq<StructureKind>) -> bool {
    match kind {
        ClueKind::StructureKind(k) => kinds.contains(k),
        ClueKind::StructureColor(c) => colors.contains(c),
        _ => true,
    }
}

/// The catalog offers a structure clue only for the structure kinds and
/// colors it was given: never one for a kind or color absent from the map.
pub proof fn lemma_catalog_restricted(
    colors: Seq<StructureColor>,
    kinds: Seq<StructureKind>,
    with_inverted: bool,
)
    ensures
        forall|j: int|
            0 <= j < catalog(colors, kinds, with_inverted).len() ==> restricted(
                (#[trigger] catalog(colors, kinds, with_inverted)[j]).kind,
                colors,
                kinds,
            ),
{
    let base = catalog_kinds(colors, kinds);
    let a = terrain_list().map_values(|t: Terrain| ClueKind::Terrain(t));
    let b = pairs_of(terrain_list()).map_values(|p: (Terrain, Terrain)| ClueKind::TwoTerrains(p.0, p.1));
    let c = seq![ClueKind::EitherAnimal];
    let d = animal_list().map_values(|a: Animal| ClueKind::Animal(a));
    let e = kinds.map_values(|k: StructureKind| ClueKind::StructureKind(k));
    let f = colors.map_values(|c: StructureColor| ClueKind::StructureColor(c));
    assert forall|j: int| 0 <= j < e.len() implies restricted(#[trigger] e[j], colors, kinds) by {
        assert(kinds[j] == kinds[j]);
    }
    assert forall|j: int| 0 <= j < f.len() implies restricted(#[trigger] f[j], colors, kinds) by {
        assert(colors[j] == colors[j]);
    }
    assert(base == a + b + c + d + e + f);
    assert forall|j: int| 0 <= j < base.len() implies restricted(#[trigger] base[j], colors, kinds) by {
        let n5 = a.len() + b.len() + c.len() + d.len() + e.len();
        if j >= n5 {
            assert(base[j] == f[j - n5]);
        } else if j >= n5 - e.len() {
            assert(base[j] == e[j - (n5 - e.len())]);
        }
    }
    let all = catalog(colors, kinds, with_inverted);
    assert forall|j: int| 0 <= j < all.len() implies restricted((#[trigger] all[j]).kind, colors, kinds) by {
        if j < base.len() {
            assert(all[j].kind == base[j]);
        } else {
            assert(all[j].kind == base[j - base.len()]);
        }
    }
}

/// Relies on `itertools::Itertools::combinations` with length 2: the pairs
/// of positions of the input in lexicographic order, each pair once.
#[verifier::external_body]
fn terrain_pairs(terrains: &Vec<Terrain>) -> (r: Vec<(Terrain, Terrain)>)
    ensures
        r@ == pairs_of(terrains@),
{
    terrains.iter().copied().combinations(2).map(|p| (p[0], p[1])).collect()
}

fn all_terrains() -> (r: Vec<Terrain>)
    ensures
        r@ == terrain_list(),
{
    let mut r: Vec<Terrain> = Vec::new();
    r.push(Terrain::Desert);
    r.push(Terrain::Forest);
    r.push(Terrain::Water);
    r.push(Terrain::Swamp);
    r.push(Terrain::Mountain);
    assert(r@ =~= terrain_list());
    r
}

impl ClueKind {
    /// Returns every possible clue kind for the available structure
    /// colors and kinds.
    pub fn all(structure_colors: &[StructureColor], structure_kinds: &[StructureKind]) -> (r: Vec<ClueKind>)
        ensures
            r@ == catalog_kinds(structure_colors@, structure_kinds@),
    {
        let mut r: Vec<ClueKind> = Vec::new();
        let terrains = all_terrains();
        let mut i: usize = 0;
        while i < terrains.len()
            invariant
                terrains@ == terrain_list(),
                i <= terrains@.len(),
                r@ == terrains@.take(i as int).map_values(|t: Terrain| ClueKind::Terrain(t)),
            decreases terrains@.len() - i,
        {
            r.push(ClueKind::Terrain(terrains[i]));
            i += 1;
            assert(r@ =~= terrains@.take(i as int).map_values(|t: Terrain| ClueKind::Terrain(t)));
        }
        assert(terrains@.take(i as int) =~= terrains@);
        let ghost prefix = r@;
        let pairs = terrain_pairs(&terrains);
        let mut i: usize = 0;
        while i < pairs.len()
            invariant
                i <= pairs@.len(),
                r@ == prefix + pairs@.take(i as int).map_values(
                    |p: (Terrain, Terrain)| ClueKind::TwoTerrains(p.0, p.1),
                ),
            decreases pairs@.len() - i,
        {
            let (a, b) = pairs[i];
            r.push(ClueKind::TwoTerrains(a, b));
            i += 1;
            assert(r@ =~= prefix + pairs@.take(i as int).map_values(
                |p: (Terrain, Terrain)| ClueKind::TwoTerrains(p.0, p.1),
            ));
        }
        assert(pairs@.take(i as int) =~= pairs@);
        r.push(ClueKind::EitherAnimal);
        r.push(ClueKind::Animal(Animal::Bear));
        r.push(ClueKind::Animal(Animal::Cougar));
        let ghost prefix = r@;
        let mut i: usize = 0;
        while i < structure_kinds.len()
            invariant
                i <= structure_kinds@.len(),
                r@ == prefix + structure_kinds@.take(i as int).map_values(
                    |k: StructureKind| ClueKind::StructureKind(k),
                ),
            decreases structure_kinds@.len() - i,
        {
            r.push(ClueKind::StructureKind(structure_kinds[i]));
            i += 1;
            assert(r@ =~= prefix + structure_kinds@.take(i as int).map_values(
                |k: StructureKind| ClueKind::StructureKind(k),
            ));
        }
        assert(structure_kinds@.take(i as int) =~= structure_kinds@);
        let ghost prefix = r@;
        let mut i: usize = 0;
        while i < structure_colors.len()
            invariant
                i <= structure_colors@.len(),
                r@ == prefix + structure_colors@.take(i as int).map_values(
                    |c: StructureColor| ClueKind::StructureColor(c),
                ),
            decreases structure_colors@.len() - i,
        {
            r.push(ClueKind::StructureColor(structure_colors[i]));
            i += 1;
            assert(r@ =~= prefix + structure_colors@.take(i as int).map_values(
                |c: StructureColor| ClueKind::StructureColor(c),
            ));
        }
        assert(structure_colors@.take(i as int) =~= structure_colors@);
        assert(r@ =~= catalog_kinds(structure_colors@, structure_kinds@));
        r
    }
}

fn push_clues(r: &mut Vec<Clue>, kinds: &Vec<ClueKind>, inverted: bool)
    ensures
        final(r)@ == old(r)@ + clues_of(kinds@, inverted),
{
    let ghost prefix = r@;
    let mut i: usize = 0;
    while i < kinds.len()
        invariant
            i <= kinds@.len(),
            r@ == prefix + clues_of(kinds@.take(i as int), inverted),
        decreases kinds@.len() - i,
    {
        r.push(Clue { kind: kinds[i], inverted });
        i += 1;
        assert(r@ =~= prefix + clues_of(kinds@.take(i as int), inverted));
    }
    assert(kinds@.take(i as int) =~= kinds@);
}

impl Clue {
    /// Returns every possible clue for the available structure colors and
    /// kinds, followed by their inverted forms when `with_inverted` holds.
    pub fn all(
        structure_colors: &[StructureColor],
        structure_kinds: &[StructureKind],
        with_inverted: bool,
    ) -> (r: Vec<Clue>)
        ensures
            r@ == catalog(structure_colors@, structure_kinds@, with_inverted),
    {
        let kinds = ClueKind::all(structure_colors, structure_kinds);
        let mut r: Vec<Clue> = Vec::new();
        push_clues(&mut r, &kinds, false);
        if with_inverted {
            push_clues(&mut r, &kinds, true);
        }
        assert(r@ =~= catalog(structure_colors@, structure_kinds@, with_inverted));
        r
    }
}

} // verus!
