//! The possibility overlay: which tiles every player's clue still allows.

use crate::hex::Hex;
use crate::map::{clue_holds, same_layout, TileMap};
use crate::model::{Clue, PlayerID, Tile};
use crate::players::{Player, PlayerList};
use std::collections::BTreeMap;
use vstd::prelude::*;

verus! {

/// The clue `player` declared, where they are marked as known.
pub open spec fn known_clue(known_clues: Map<usize, Clue>, is_known: Map<usize, bool>, player: PlayerID) -> Option<Clue> {
    if is_known.contains_key(player.0) && is_known[player.0] && known_clues.contains_key(player.0) {
        Some(known_clues[player.0])
    } else {
        None
    }
}

/// The candidate clues recorded for `player`; none where nothing is recorded.
pub open spec fn deduced_for(deduced_clues: Map<usize, Vec<Clue>>, player: PlayerID) -> Seq<Clue> {
    if deduced_clues.contains_key(player.0) {
        deduced_clues[player.0]@
    } else {
        seq![]
    }
}

/// `player`'s constraint allows `position`: their declared clue, if known,
/// holds there, and at least one of their candidate clues holds there.
pub open spec fn player_allows(
    tiles: Seq<Tile>,
    known_clues: Map<usize, Clue>,
    is_known: Map<usize, bool>,
    deduced_clues: Map<usize, Vec<Clue>>,
    player: PlayerID,
    position: Hex,
) -> bool {
    &&& match known_clue(known_clues, is_known, player) {
        Some(c) => clue_holds(tiles, c, position),
        None => true,
    }
    &&& exists|m: int|
        0 <= m < deduced_for(deduced_clues, player).len() && clue_holds(
            tiles,
            #[trigger] deduced_for(deduced_clues, player)[m],
            position,
        )
}

/// Every player's constraint allows `position`.
pub open spec fn all_allow(
    tiles: Seq<Tile>,
    players: Seq<Player>,
    known_clues: Map<usize, Clue>,
    is_known: Map<usize, bool>,
    deduced_clues: Map<usize, Vec<Clue>>,
    position: Hex,
) -> bool {
    forall|k: int|
        0 <= k < players.len() ==> player_allows(
            tiles,
            known_clues,
            is_known,
            deduced_clues,
            (#[trigger] players[k]).id,
            position,
        )
}

impl TileMap {
    #[verifier::loop_isolation(false)]
    fn player_allows_at(
        &self,
        known_clues: &BTreeMap<usize, Clue>,
        is_known: &BTreeMap<usize, bool>,
        deduced_clues: &BTreeMap<usize, Vec<Clue>>,
        player: PlayerID,
        position: Hex,
    ) -> (r: bool)
        requires
            self.wf(),
            position.in_range(),
        ensures
            r == player_allows(self.0@, known_clues@, is_known@, deduced_clues@, player, position),
    {
        let known = match is_known.get(&player.0) {
            Some(k) => *k,
            None => false,
        };
        if known {
            if let Some(c) = known_clues.get(&player.0) {
                if !self.clue_applies(*c, position) {
                    return false;
                }
            }
        }
        match deduced_clues.get(&player.0) {
            Some(clues) => {
                let mut m: usize = 0;
                while m < clues.len()
                    invariant
                        self.wf(),
                        position.in_range(),
                        deduced_for(deduced_clues@, player) == clues@,
                        m <= clues@.len(),
                        forall|j: int| 0 <= j < m ==> !clue_holds(self.0@, #[trigger] clues@[j], position),
                    decreases clues@.len() - m,
                {
                    if self.clue_applies(clues[m], position) {
                        assert(clue_holds(self.0@, deduced_for(deduced_clues@, player)[m as int], position));
                        return true;
                    }
                    m += 1;
                }
                false
            },
            None => false,
        }
    }

    /// Recomputes from scratch which tiles are still possible. A tile stays
    /// possible (not `small`) only if, for every player, their declared clue
    /// holds there when it is marked known (`is_known`, `known_clues`), and
    /// at least one of their candidate clues (`deduced_clues`) holds there.
    /// All maps are keyed by the number of the player.
    pub fn recompute_possible(
        &mut self,
        players: &PlayerList,
        known_clues: &BTreeMap<usize, Clue>,
        is_known: &BTreeMap<usize, bool>,
        deduced_clues: &BTreeMap<usize, Vec<Clue>>,
    )
        requires
            old(self).wf(),
        ensures
            same_layout(final(self).0@, old(self).0@),
            forall|i: int|
                0 <= i < old(self).0@.len() ==> (#[trigger] final(self).0@[i]).answers@ == old(self).0@[i].answers@
                    && final(self).0@[i].small == !all_allow(
                    old(self).0@,
                    players@,
                    known_clues@,
                    is_known@,
                    deduced_clues@,
                    old(self).0@[i].position,
                ),
    {
        let ghost before = self.0@;
        let list = players.as_slice();
        let mut i: usize = 0;
        while i < self.0.len()
            invariant
                same_layout(self.0@, before),
                self.wf(),
                i <= before.len(),
                list@ == players@,
                forall|j: int| 0 <= j < before.len() ==> (#[trigger] self.0@[j]).answers@ == before[j].answers@,
                forall|j: int|
                    0 <= j < i ==> (#[trigger] self.0@[j]).small == !all_allow(
                        before,
                        players@,
                        known_clues@,
                        is_known@,
                        deduced_clues@,
                        before[j].position,
                    ),
            decreases before.len() - i,
        {
            let position = self.0[i].position;
            proof {
                crate::hints::lemma_layout_same_verdicts(self.0@, before);
            }
            let mut allowed = true;
            let mut k: usize = 0;
            while k < list.len()
                invariant
                    same_layout(self.0@, before),
                    self.wf(),
                    position.in_range(),
                    k <= list@.len(),
                    position == before[i as int].position,
                    allowed == forall|q: int|
                        0 <= q < k ==> player_allows(
                            before,
                            known_clues@,
                            is_known@,
                            deduced_clues@,
                            (#[trigger] list@[q]).id,
                            position,
                        ),
                    forall|c: Clue, p: Hex| clue_holds(self.0@, c, p) == #[trigger] clue_holds(before, c, p),
                decreases list@.len() - k,
            {
                if allowed && !self.player_allows_at(known_clues, is_known, deduced_clues, list[k].id, position) {
                    allowed = false;
                }
                k += 1;
            }
            self.0[i].small = !allowed;
            assert(same_layout(self.0@, before));
            i += 1;
        }
    }
}

} // verus!
