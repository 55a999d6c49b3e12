//! The consistency filter: the clues a player's answers still allow.

use crate::catalog::{catalog, lemma_catalog_restricted, restricted};
use crate::map::{
    clue_holds, has_structure_color, has_structure_kind, lemma_layout_decides, lemma_layout_structures,
    lemma_present_color, lemma_present_kind, present_colors, present_kinds, same_layout, TileMap,
};
use crate::model::{Answer, Clue, ClueKind, PlayerID, Tile};
use vstd::prelude::*;

verus! {

/// Whether an answer is compatible with the clue holding (`holds`) or not
/// on the tile it was given on.
pub open spec fn agrees(answer: Answer, holds: bool) -> bool {
    match answer {
        Answer::Unknown => true,
        Answer::Yes => holds,
        Answer::No => !holds,
    }
}

/// The answers of `player`, tile by tile.
pub open spec fn player_answers(tiles: Seq<Tile>, player: PlayerID) -> Seq<Answer> {
    tiles.map_values(|t: Tile| t.answer_of(player))
}

/// No answer in `answers` (one per tile) contradicts `clue`.
pub open spec fn consistent(tiles: Seq<Tile>, answers: Seq<Answer>, clue: Clue) -> bool {
    forall|i: int|
        0 <= i < tiles.len() ==> agrees(
            #[trigger] answers[i],
            clue_holds(tiles, clue, tiles[i].position),
        )
}

/// The clues of `clues` that `answers` do not contradict, in order.
pub open spec fn consistent_clues(clues: Seq<Clue>, tiles: Seq<Tile>, answers: Seq<Answer>) -> Seq<Clue>
    decreases clues.len(),
{
    if clues.len() == 0 {
        seq![]
    } else {
        let rest = consistent_clues(clues.drop_last(), tiles, answers);
        if consistent(tiles, answers, clues.last()) {
            rest.push(clues.last())
        } else {
            rest
        }
    }
}

/// The catalog of the map, filtered by the answers in `answers`.
pub open spec fn candidates_under(tiles: Seq<Tile>, answers: Seq<Answer>, with_inverted: bool) -> Seq<Clue> {
    consistent_clues(catalog(present_colors(tiles), present_kinds(tiles), with_inverted), tiles, answers)
}

/// The candidate clues of `player`: the catalog of the map, less every
/// clue that one of the player's answers contradicts.
pub open spec fn candidates(tiles: Seq<Tile>, player: PlayerID, with_inverted: bool) -> Seq<Clue> {
    candidates_under(tiles, player_answers(tiles, player), with_inverted)
}

/// The filter keeps only clues of its input.
pub proof fn lemma_consistent_subset(clues: Seq<Clue>, tiles: Seq<Tile>, answers: Seq<Answer>, c: Clue)
    requires
        consistent_clues(clues, tiles, answers).contains(c),
    ensures
        clues.contains(c),
    decreases clues.len(),
{
    if clues.len() > 0 {
        let rest = consistent_clues(clues.drop_last(), tiles, answers);
        if rest.contains(c) {
            lemma_consistent_subset(clues.drop_last(), tiles, answers, c);
            let j = choose|j: int| 0 <= j < clues.drop_last().len() && clues.drop_last()[j] == c;
            assert(clues[j] == c);
        } else {
            assert(clues[clues.len() - 1] == c);
        }
    }
}

/// A stricter filter keeps no more clues.
proof fn lemma_stricter_keeps_fewer(
    clues: Seq<Clue>,
    strict_tiles: Seq<Tile>,
    strict: Seq<Answer>,
    loose_tiles: Seq<Tile>,
    loose: Seq<Answer>,
)
    requires
        forall|c: Clue| consistent(strict_tiles, strict, c) ==> consistent(loose_tiles, loose, c),
    ensures
        consistent_clues(clues, strict_tiles, strict).len() <= consistent_clues(clues, loose_tiles, loose).len(),
    decreases clues.len(),
{
    if clues.len() > 0 {
        lemma_stricter_keeps_fewer(clues.drop_last(), strict_tiles, strict, loose_tiles, loose);
    }
}

/// Giving one more answer (`Yes` or `No`) on a tile the player had not
/// answered never adds candidate clues: the candidate list can only shrink
/// or stay as long.
pub proof fn lemma_answer_narrows(
    before: Seq<Tile>,
    after: Seq<Tile>,
    player: PlayerID,
    i: int,
    with_inverted: bool,
)
    requires
        same_layout(before, after),
        0 <= i < before.len(),
        before[i].answer_of(player) == Answer::Unknown,
        after[i].answer_of(player) != Answer::Unknown,
        forall|j: int|
            0 <= j < before.len() && j != i ==> (#[trigger] after[j]).answer_of(player) == before[j].answer_of(
                player,
            ),
    ensures
        candidates(after, player, with_inverted).len() <= candidates(before, player, with_inverted).len(),
{
    lemma_layout_structures(before, after);
    let ab = player_answers(before, player);
    let aa = player_answers(after, player);
    assert forall|c: Clue| consistent(after, aa, c) implies consistent(before, ab, c) by {
        assert forall|j: int| 0 <= j < before.len() implies agrees(
            #[trigger] ab[j],
            clue_holds(before, c, before[j].position),
        ) by {
            lemma_layout_decides(before, after, c, before[j].position);
            if j != i {
                assert(after[j].answer_of(player) == before[j].answer_of(player));
                assert(agrees(aa[j], clue_holds(after, c, after[j].position)));
            }
        }
    }
    lemma_stricter_keeps_fewer(
        catalog(present_colors(before), present_kinds(before), with_inverted),
        after,
        aa,
        before,
        ab,
    );
}

/// Every candidate clue that names a structure kind or color names one
/// that stands on the map.
pub proof fn lemma_candidates_on_map(tiles: Seq<Tile>, player: PlayerID, with_inverted: bool, c: Clue)
    requires
        candidates(tiles, player, with_inverted).contains(c),
    ensures
        match c.kind {
            ClueKind::StructureKind(k) => exists|i: int|
                0 <= i < tiles.len() && has_structure_kind(#[trigger] tiles[i], k),
            ClueKind::StructureColor(col) => exists|i: int|
                0 <= i < tiles.len() && has_structure_color(#[trigger] tiles[i], col),
            _ => true,
        },
{
    let colors = present_colors(tiles);
    let kinds = present_kinds(tiles);
    let all = catalog(colors, kinds, with_inverted);
    lemma_consistent_subset(all, tiles, player_answers(tiles, player), c);
    lemma_catalog_restricted(colors, kinds, with_inverted);
    let j = choose|j: int| 0 <= j < all.len() && all[j] == c;
    assert(restricted(all[j].kind, colors, kinds));
    match c.kind {
        ClueKind::StructureKind(k) => lemma_present_kind(tiles, k),
        ClueKind::StructureColor(col) => lemma_present_color(tiles, col),
        _ => {},
    }
}

impl TileMap {
    /// Returns whether no answer of `player` contradicts `clue`.
    fn is_consistent(&self, player: PlayerID, clue: Clue) -> (r: bool)
        requires
            self.wf(),
        ensures
            r == consistent(self.0@, player_answers(self.0@, player), clue),
    {
        let ghost answers = player_answers(self.0@, player);
        let mut i: usize = 0;
        while i < self.0.len()
            invariant
                self.wf(),
                answers == player_answers(self.0@, player),
                i <= self.0@.len(),
                forall|j: int|
                    0 <= j < i ==> agrees(
                        #[trigger] answers[j],
                        clue_holds(self.0@, clue, self.0@[j].position),
                    ),
            decreases self.0@.len() - i,
        {
            let answer = self.0[i].answer(player);
            let contradicts = match answer {
                Answer::Unknown => false,
                Answer::Yes => !self.clue_applies(clue, self.0[i].position),
                Answer::No => self.clue_applies(clue, self.0[i].position),
            };
            if contradicts {
                assert(!agrees(answers[i as int], clue_holds(self.0@, clue, self.0@[i as int].position)));
                return false;
            }
            i += 1;
        }
        true
    }

    /// Returns the clues that are still possible for `player`: those that
    /// no answer the player gave contradicts, in catalog order.
    pub fn clues_for_player(&self, player: PlayerID, with_inverted: bool) -> (r: Vec<Clue>)
        requires
            self.wf(),
        ensures
            r@ == candidates(self.0@, player, with_inverted),
    {
        let colors = self.structure_colors();
        let kinds = self.structure_kinds();
        let all = Clue::all(colors.as_slice(), kinds.as_slice(), with_inverted);
        let ghost answers = player_answers(self.0@, player);
        let mut result: Vec<Clue> = Vec::new();
        let mut k: usize = 0;
        while k < all.len()
            invariant
                self.wf(),
                answers == player_answers(self.0@, player),
                k <= all@.len(),
                result@ == consistent_clues(all@.take(k as int), self.0@, answers),
            decreases all@.len() - k,
        {
            let clue = all[k];
            assert(all@.take(k as int + 1).drop_last() =~= all@.take(k as int));
            if self.is_consistent(player, clue) {
                result.push(clue);
            }
            k += 1;
        }
        assert(all@.take(k as int) =~= all@);
        result
    }
}

} // verus!
