//! A round of play: answers, declared clues, the cached candidate lists,
//! the possibility overlay and the hints, kept consistent with each other.

use crate::deduce::candidates;
use crate::hex::Hex;
use crate::hints::{lemma_layout_same_verdicts, lemma_same_hints, lemma_same_state_counts, question_spec, quiet_spec};
use crate::map::{first_at, same_layout, tiles_wf, TileMap};
use crate::model::{Answer, Clue, ClueKind, PlayerID, Terrain, Tile};
use crate::overlay::all_allow;
use crate::players::{Player, PlayerList};
use std::collections::BTreeMap;
use vstd::prelude::*;
use vstd::string::*;

verus! {

/// A hint for the user.
#[derive(Debug, Clone)]
pub enum Hint {
    /// Ask `player` on one of `tiles` to rule out between `low` and `high`
    /// of their candidate clues.
    Ask { player: PlayerID, tiles: Vec<Hex>, low: usize, high: usize },
    /// Place a `No` on one of `tiles` to rule out only `diff` of one's own
    /// candidate clues.
    Quiet { tiles: Vec<Hex>, diff: usize },
}

/// A hint as plain values: the player asked (none for the user's own
/// quiet tiles), the tiles, and the low and high counts (both the count
/// for quiet tiles).
pub open spec fn hint_view(h: Hint) -> (Option<PlayerID>, Seq<Hex>, int, int) {
    match h {
        Hint::Ask { player, tiles, low, high } => (Some(player), tiles@, low as int, high as int),
        Hint::Quiet { tiles, diff } => (None, tiles@, diff as int, diff as int),
    }
}

/// One question hint for each player of `players` but `user` for whom a
/// question is useful, in roster order.
pub open spec fn ask_hints(tiles: Seq<Tile>, players: Seq<Player>, user: PlayerID, with_inverted: bool) -> Seq<
    (Option<PlayerID>, Seq<Hex>, int, int),
>
    decreases players.len(),
{
    if players.len() == 0 {
        seq![]
    } else {
        let rest = ask_hints(tiles, players.drop_last(), user, with_inverted);
        let p = players.last().id;
        if p == user {
            rest
        } else {
            match question_spec(tiles, p, with_inverted) {
                Some(q) => rest.push((Some(p), q.0, q.1, q.2)),
                None => rest,
            }
        }
    }
}

/// The hints for a round: the question hints, then the user's quiet tiles.
pub open spec fn expected_hints(tiles: Seq<Tile>, players: Seq<Player>, user: PlayerID, with_inverted: bool) -> Seq<
    (Option<PlayerID>, Seq<Hex>, int, int),
> {
    ask_hints(tiles, players, user, with_inverted) + match quiet_spec(tiles, user, with_inverted) {
        Some(q) => seq![(None, q.0, q.1, q.1)],
        None => seq![],
    }
}

/// The player numbers of the roster.
pub open spec fn roster_numbers(players: Seq<Player>) -> Set<usize> {
    Set::new(|n: usize| exists|k: int| 0 <= k < players.len() && (#[trigger] players[k]).id.0 == n)
}

/// State of the deduction phase of a round.
#[derive(Debug)]
pub struct TryingClues {
    map: TileMap,
    /// Manually entered clues, keyed by player number.
    clues: BTreeMap<usize, Clue>,
    /// True where the player's clue is known; otherwise it is deduced.
    known_clues: BTreeMap<usize, bool>,
    /// Candidate clues deduced from each player's answers.
    deduced_clues: BTreeMap<usize, Vec<Clue>>,
    /// True if the game is played with inverted clues.
    with_inverted: bool,
    highlights: Vec<Hex>,
    players: PlayerList,
    hints: Vec<Hint>,
    /// The player using this tool.
    user: PlayerID,
}

impl TryingClues {
    pub closed spec fn tiles_view(&self) -> Seq<Tile> {
        self.map.0@
    }

    pub closed spec fn players_view(&self) -> Seq<Player> {
        self.players@
    }

    pub closed spec fn user_view(&self) -> PlayerID {
        self.user
    }

    pub closed spec fn inverted_view(&self) -> bool {
        self.with_inverted
    }

    pub closed spec fn clues_view(&self) -> Map<usize, Clue> {
        self.clues@
    }

    pub closed spec fn known_view(&self) -> Map<usize, bool> {
        self.known_clues@
    }

    pub closed spec fn hints_view(&self) -> Seq<(Option<PlayerID>, Seq<Hex>, int, int)> {
        self.hints@.map_values(|h: Hint| hint_view(h))
    }

    pub closed spec fn highlights_view(&self) -> Seq<Hex> {
        self.highlights@
    }

    pub closed spec fn deduced_view(&self) -> Map<usize, Vec<Clue>> {
        self.deduced_clues@
    }

    /// Candidate lists of every player are those of the current answers,
    /// and the exclusion marks are those of the current clues.
    pub closed spec fn fresh(&self) -> bool {
        &&& self.map.wf()
        &&& forall|k: int|
            0 <= k < self.players@.len() ==> {
                let id = (#[trigger] self.players@[k]).id;
                &&& self.deduced_clues@.contains_key(id.0)
                &&& self.deduced_clues@[id.0]@ == candidates(self.map.0@, id, self.with_inverted)
            }
        &&& forall|i: int|
            0 <= i < self.map.0@.len() ==> (#[trigger] self.map.0@[i]).small == !all_allow(
                self.map.0@,
                self.players@,
                self.clues@,
                self.known_clues@,
                self.deduced_clues@,
                self.map.0@[i].position,
            )
    }

    /// What the derived state of a fresh round is, in terms of the views:
    /// each roster player's candidate list is the filter of their answers,
    /// and a tile is excluded exactly when some player's constraint rules it
    /// out.
    pub proof fn lemma_fresh(&self)
        requires
            self.fresh(),
        ensures
            tiles_wf(self.tiles_view()),
            forall|k: int|
                0 <= k < self.players_view().len() ==> {
                    let id = (#[trigger] self.players_view()[k]).id;
                    &&& self.deduced_view().contains_key(id.0)
                    &&& self.deduced_view()[id.0]@ == candidates(self.tiles_view(), id, self.inverted_view())
                },
            forall|i: int|
                0 <= i < self.tiles_view().len() ==> (#[trigger] self.tiles_view()[i]).small == !all_allow(
                    self.tiles_view(),
                    self.players_view(),
                    self.clues_view(),
                    self.known_view(),
                    self.deduced_view(),
                    self.tiles_view()[i].position,
                ),
    {
    }

    /// Builds a list of candidate clues for each player from their answers.
    fn deduce_clues(&mut self)
        requires
            old(self).map.wf(),
        ensures
            final(self).map == old(self).map,
            final(self).players == old(self).players,
            final(self).with_inverted == old(self).with_inverted,
            final(self).clues == old(self).clues,
            final(self).known_clues == old(self).known_clues,
            final(self).highlights == old(self).highlights,
            final(self).hints == old(self).hints,
            final(self).user == old(self).user,
            final(self).deduced_clues@.remove_keys(roster_numbers(old(self).players@)) == old(
                self
            ).deduced_clues@.remove_keys(roster_numbers(old(self).players@)),
            forall|k: int|
                0 <= k < final(self).players@.len() ==> {
                    let id = (#[trigger] final(self).players@[k]).id;
                    &&& final(self).deduced_clues@.contains_key(id.0)
                    &&& final(self).deduced_clues@[id.0]@ == candidates(
                        final(self).map.0@,
                        id,
                        final(self).with_inverted,
                    )
                },
    {
        let list = self.players.as_slice();
        let mut k: usize = 0;
        while k < list.len()
            invariant
                self.map == old(self).map,
                self.players == old(self).players,
                self.with_inverted == old(self).with_inverted,
                self.clues == old(self).clues,
                self.known_clues == old(self).known_clues,
                self.highlights == old(self).highlights,
                self.hints == old(self).hints,
                self.user == old(self).user,
                self.map.wf(),
                list@ == self.players@,
                k <= list@.len(),
                self.deduced_clues@.remove_keys(roster_numbers(list@)) == old(
                    self
                ).deduced_clues@.remove_keys(roster_numbers(list@)),
                forall|q: int|
                    0 <= q < k ==> {
                        let id = (#[trigger] list@[q]).id;
                        &&& self.deduced_clues@.contains_key(id.0)
                        &&& self.deduced_clues@[id.0]@ == candidates(self.map.0@, id, self.with_inverted)
                    },
            decreases list@.len() - k,
        {
            let id = list[k].id;
            let clues = self.map.clues_for_player(id, self.with_inverted);
            let ghost prev = self.deduced_clues@;
            self.deduced_clues.insert(id.0, clues);
            assert(roster_numbers(list@).contains(id.0));
            assert(self.deduced_clues@.remove_keys(roster_numbers(list@)) =~= prev.remove_keys(
                roster_numbers(list@),
            ));
            k += 1;
        }
    }

    /// Recomputes which tiles every player's clue still allows.
    fn update_map_from_clues(&mut self)
        requires
            old(self).map.wf(),
            forall|k: int|
                0 <= k < old(self).players@.len() ==> {
                    let id = (#[trigger] old(self).players@[k]).id;
                    &&& old(self).deduced_clues@.contains_key(id.0)
                    &&& old(self).deduced_clues@[id.0]@ == candidates(old(self).map.0@, id, old(self).with_inverted)
                },
        ensures
            final(self).fresh(),
            same_layout(final(self).map.0@, old(self).map.0@),
            crate::hints::same_answers(final(self).map.0@, old(self).map.0@),
            final(self).clues == old(self).clues,
            final(self).known_clues == old(self).known_clues,
            final(self).deduced_clues == old(self).deduced_clues,
            final(self).with_inverted == old(self).with_inverted,
            final(self).highlights == old(self).highlights,
            final(self).players == old(self).players,
            final(self).hints == old(self).hints,
            final(self).user == old(self).user,
    {
        let ghost before = self.map.0@;
        self.map.recompute_possible(&self.players, &self.clues, &self.known_clues, &self.deduced_clues);
        proof {
            lemma_layout_same_verdicts(self.map.0@, before);
            assert forall|k: int| 0 <= k < self.players@.len() implies candidates(
                self.map.0@,
                (#[trigger] self.players@[k]).id,
                self.with_inverted,
            ) == candidates(before, self.players@[k].id, self.with_inverted) by {
                lemma_same_state_counts(self.map.0@, before, self.players@[k].id, self.with_inverted);
            }
            assert forall|i: int| 0 <= i < self.map.0@.len() implies all_allow(
                self.map.0@,
                self.players@,
                self.clues@,
                self.known_clues@,
                self.deduced_clues@,
                (#[trigger] self.map.0@[i]).position,
            ) == all_allow(
                before,
                self.players@,
                self.clues@,
                self.known_clues@,
                self.deduced_clues@,
                before[i].position,
            ) by {
                assert(self.map.0@[i].position == before[i].position);
            }
        }
    }

    /// Records an `Unknown` answer of every player on every tile.
    fn prefill_answers(&mut self)
        requires
            old(self).map.wf(),
        ensures
            same_layout(final(self).map.0@, old(self).map.0@),
            final(self).map.wf(),
            final(self).players == old(self).players,
            final(self).clues == old(self).clues,
            final(self).known_clues == old(self).known_clues,
            final(self).deduced_clues == old(self).deduced_clues,
            final(self).with_inverted == old(self).with_inverted,
            final(self).highlights == old(self).highlights,
            final(self).hints == old(self).hints,
            final(self).user == old(self).user,
            forall|j: int|
                0 <= j < old(self).map.0@.len() ==> {
                    &&& (#[trigger] final(self).map.0@[j]).small == old(self).map.0@[j].small
                    &&& final(self).map.0@[j].answers@.remove_keys(roster_numbers(old(self).players@))
                        == old(self).map.0@[j].answers@.remove_keys(roster_numbers(old(self).players@))
                },

            forall|i: int, k: int|
                0 <= i < final(self).map.0@.len() && 0 <= k < final(self).players@.len() ==> (#[trigger] final(self).map.0@[i]).answer_of(
                    (#[trigger] final(self).players@[k]).id,
                ) == Answer::Unknown,
    {
        let list = self.players.as_slice();
        let ghost before = self.map.0@;
        let mut i: usize = 0;
        while i < self.map.0.len()
            invariant
                same_layout(self.map.0@, before),
                tiles_wf(self.map.0@),
                list@ == self.players@,
                self.players == old(self).players,
                self.clues == old(self).clues,
                self.known_clues == old(self).known_clues,
                self.deduced_clues == old(self).deduced_clues,
                self.with_inverted == old(self).with_inverted,
                self.highlights == old(self).highlights,
                self.hints == old(self).hints,
                self.user == old(self).user,
                i <= self.map.0@.len(),
                forall|j: int|
                    0 <= j < before.len() ==> {
                        &&& (#[trigger] self.map.0@[j]).small == before[j].small
                        &&& self.map.0@[j].answers@.remove_keys(roster_numbers(list@))
                            == before[j].answers@.remove_keys(roster_numbers(list@))
                    },
                forall|j: int, k: int|
                    0 <= j < i && 0 <= k < list@.len() ==> (#[trigger] self.map.0@[j]).answer_of(
                        (#[trigger] list@[k]).id,
                    ) == Answer::Unknown,
            decreases self.map.0@.len() - i,
        {
            let mut k: usize = 0;
            while k < list.len()
                invariant
                    same_layout(self.map.0@, before),
                    tiles_wf(self.map.0@),
                    list@ == self.players@,
                    self.players == old(self).players,
                    self.clues == old(self).clues,
                    self.known_clues == old(self).known_clues,
                    self.deduced_clues == old(self).deduced_clues,
                    self.with_inverted == old(self).with_inverted,
                    self.highlights == old(self).highlights,
                    self.hints == old(self).hints,
                    self.user == old(self).user,
                    i < self.map.0@.len(),
                    forall|j: int|
                        0 <= j < before.len() ==> {
                            &&& (#[trigger] self.map.0@[j]).small == before[j].small
                            &&& self.map.0@[j].answers@.remove_keys(roster_numbers(list@))
                                == before[j].answers@.remove_keys(roster_numbers(list@))
                        },
                    k <= list@.len(),
                    forall|j: int, q: int|
                        0 <= j < i && 0 <= q < list@.len() ==> (#[trigger] self.map.0@[j]).answer_of(
                            (#[trigger] list@[q]).id,
                        ) == Answer::Unknown,
                    forall|q: int|
                        0 <= q < k ==> self.map.0@[i as int].answer_of((#[trigger] list@[q]).id)
                            == Answer::Unknown,
                decreases list@.len() - k,
            {
                let ghost prev = self.map.0@[i as int].answers@;
                self.map.0[i].answers.insert(list[k].id.0, Answer::Unknown);
                assert(roster_numbers(list@).contains(list@[k as int].id.0));
                assert(self.map.0@[i as int].answers@.remove_keys(roster_numbers(list@)) =~= prev.remove_keys(
                    roster_numbers(list@),
                ));
                k += 1;
            }
            i += 1;
        }
    }

    /// Starts the deduction phase on a finished map. The first player of
    /// the roster is the user. Every player starts with `Unknown` answers,
    /// all clues deduced, none known.
    pub fn new(tiles: Vec<Tile>, players: PlayerList) -> (r: TryingClues)
        requires
            tiles_wf(tiles@),
            players@.len() > 0,
        ensures
            r.fresh(),
            same_layout(r.tiles_view(), tiles@),
            forall|i: int, k: int|
                0 <= i < tiles@.len() && 0 <= k < players@.len() ==> (#[trigger] r.tiles_view()[i]).answer_of(
                    (#[trigger] players@[k]).id,
                ) == Answer::Unknown,
            r.players_view() == players@,
            r.user_view() == players@[0].id,
            !r.inverted_view(),
            r.clues_view() == Map::<usize, Clue>::empty(),
            r.known_view() == Map::<usize, bool>::empty(),
            r.hints_view() == Seq::<(Option<PlayerID>, Seq<Hex>, int, int)>::empty(),
            r.highlights_view() == Seq::<Hex>::empty(),
    {
        let user = players.as_slice()[0].id;
        let mut s = TryingClues {
            map: TileMap(tiles),
            clues: BTreeMap::new(),
            known_clues: BTreeMap::new(),
            deduced_clues: BTreeMap::new(),
            with_inverted: false,
            highlights: Vec::new(),
            players,
            hints: Vec::new(),
            user,
        };
        s.prefill_answers();
        s.deduce_clues();
        s.update_map_from_clues();
        assert(s.hints_view() =~= Seq::<(Option<PlayerID>, Seq<Hex>, int, int)>::empty());
        s
    }

    /// The derived state survives any change of the map that keeps its
    /// layout, answers and exclusion marks.
    proof fn lemma_fresh_kept(&self, other: &Self)
        requires
            self.fresh(),
            crate::hints::same_state(other.map.0@, self.map.0@),
            other.players == self.players,
            other.clues == self.clues,
            other.known_clues == self.known_clues,
            other.deduced_clues == self.deduced_clues,
            other.with_inverted == self.with_inverted,
        ensures
            other.fresh(),
    {
        lemma_layout_same_verdicts(other.map.0@, self.map.0@);
        assert forall|k: int| 0 <= k < self.players@.len() implies candidates(
            other.map.0@,
            (#[trigger] self.players@[k]).id,
            self.with_inverted,
        ) == candidates(self.map.0@, self.players@[k].id, self.with_inverted) by {
            lemma_same_state_counts(other.map.0@, self.map.0@, self.players@[k].id, self.with_inverted);
        }
        assert forall|i: int| 0 <= i < other.map.0@.len() implies all_allow(
            other.map.0@,
            self.players@,
            self.clues@,
            self.known_clues@,
            self.deduced_clues@,
            (#[trigger] other.map.0@[i]).position,
        ) == all_allow(
            self.map.0@,
            self.players@,
            self.clues@,
            self.known_clues@,
            self.deduced_clues@,
            self.map.0@[i].position,
        ) by {
            assert(other.map.0@[i].position == self.map.0@[i].position);
        }
    }

    /// Calculates the hints: for every other player a question that splits
    /// their candidates evenly, where one is useful, then the tiles where
    /// a `No` gives away least of the user's own clue. Expensive; call it
    /// on request, not every frame. Hypothetical answers are undone.
    pub fn calculate_hints(&mut self)
        requires
            old(self).fresh(),
        ensures
            final(self).fresh(),
            crate::hints::same_state(final(self).tiles_view(), old(self).tiles_view()),
            final(self).players_view() == old(self).players_view(),
            final(self).user_view() == old(self).user_view(),
            final(self).inverted_view() == old(self).inverted_view(),
            final(self).clues_view() == old(self).clues_view(),
            final(self).known_view() == old(self).known_view(),
            final(self).highlights_view() == old(self).highlights_view(),
            final(self).deduced_view() == old(self).deduced_view(),
            final(self).hints_view() == expected_hints(
                old(self).tiles_view(),
                old(self).players_view(),
                old(self).user_view(),
                old(self).inverted_view(),
            ),
    {
        let ghost before = self.map.0@;
        self.hints = Vec::new();
        let mut k: usize = 0;
        while k < self.players.len()
            invariant
                crate::hints::same_state(self.map.0@, before),
                self.map.wf(),
                self.players == old(self).players,
                self.clues == old(self).clues,
                self.known_clues == old(self).known_clues,
                self.deduced_clues == old(self).deduced_clues,
                self.with_inverted == old(self).with_inverted,
                self.highlights == old(self).highlights,
                self.user == old(self).user,
                k <= self.players@.len(),
                self.hints@.map_values(|h: Hint| hint_view(h)) == ask_hints(
                    before,
                    self.players@.take(k as int),
                    self.user,
                    self.with_inverted,
                ),
            decreases self.players@.len() - k,
        {
            let id = self.players.as_slice()[k].id;
            let ghost prev = self.hints@;
            assert(self.players@.take(k as int + 1).drop_last() =~= self.players@.take(k as int));
            assert(self.players@.take(k as int + 1).last() == self.players@[k as int]);
            assert(self.map.0@.len() == self.map.0.len());
            proof {
                lemma_same_hints(self.map.0@, before, id, self.with_inverted);
            }
            if id != self.user {
                match self.map.best_question(id, self.with_inverted) {
                    Some(q) => {
                        self.hints.push(Hint::Ask { player: id, tiles: q.tiles, low: q.low, high: q.high });
                        assert(self.hints@.map_values(|h: Hint| hint_view(h)) =~= prev.map_values(
                            |h: Hint| hint_view(h),
                        ).push(hint_view(self.hints@.last())));
                    },
                    None => {},
                }
            }
            k += 1;
        }
        assert(self.players@.take(k as int) =~= self.players@);
        let ghost prev = self.hints@;
        assert(self.map.0@.len() == self.map.0.len());
        proof {
            lemma_same_hints(self.map.0@, before, self.user, self.with_inverted);
        }
        match self.map.quietest_tile(self.user, self.with_inverted) {
            Some(q) => {
                self.hints.push(Hint::Quiet { tiles: q.tiles, diff: q.diff });
                assert(self.hints@.map_values(|h: Hint| hint_view(h)) =~= prev.map_values(|h: Hint| hint_view(h)).push(
                    hint_view(self.hints@.last()),
                ));
            },
            None => {},
        }
        assert(self.hints_view() =~= expected_hints(before, self.players@, self.user, self.with_inverted));
        proof {
            old(self).lemma_fresh_kept(self);
        }
    }

    /// Highlights the tile at `hex`, or nothing where there is no tile.
    pub fn click(&mut self, hex: Hex)
        ensures
            final(self).highlights_view() == if exists|i: int|
                0 <= i < old(self).tiles_view().len() && old(self).tiles_view()[i].position == hex {
                seq![hex]
            } else {
                Seq::<Hex>::empty()
            },
            final(self).tiles_view() == old(self).tiles_view(),
            final(self).players_view() == old(self).players_view(),
            final(self).clues_view() == old(self).clues_view(),
            final(self).known_view() == old(self).known_view(),
            final(self).deduced_view() == old(self).deduced_view(),
            final(self).inverted_view() == old(self).inverted_view(),
            final(self).hints_view() == old(self).hints_view(),
            final(self).user_view() == old(self).user_view(),
            old(self).fresh() ==> final(self).fresh(),
    {
        let mut highlights: Vec<Hex> = Vec::new();
        if self.map.get(hex).is_some() {
            highlights.push(hex);
        }
        self.highlights = highlights;
        assert(self.highlights@ =~= if exists|i: int|
            0 <= i < old(self).tiles_view().len() && old(self).tiles_view()[i].position == hex {
            seq![hex]
        } else {
            Seq::<Hex>::empty()
        });
    }

    /// Refreshes the candidate lists and the overlay, and drops the hints.
    fn refresh(&mut self)
        requires
            old(self).map.wf(),
        ensures
            final(self).fresh(),
            same_layout(final(self).map.0@, old(self).map.0@),
            crate::hints::same_answers(final(self).map.0@, old(self).map.0@),
            final(self).players == old(self).players,
            final(self).clues == old(self).clues,
            final(self).known_clues == old(self).known_clues,
            final(self).with_inverted == old(self).with_inverted,
            final(self).highlights == old(self).highlights,
            final(self).user == old(self).user,
            final(self).hints@.len() == 0,
    {
        self.deduce_clues();
        self.update_map_from_clues();
        self.hints = Vec::new();
    }

    /// Records `answer` of `player` on the tile at `at`. Returns false,
    /// changing nothing, where there is no tile. Any change recomputes the
    /// candidate lists and the overlay and drops the hints.
    pub fn set_answer(&mut self, at: Hex, player: PlayerID, answer: Answer) -> (r: bool)
        requires
            old(self).fresh(),
        ensures
            final(self).fresh(),
            same_layout(final(self).tiles_view(), old(self).tiles_view()),
            r == exists|i: int| 0 <= i < old(self).tiles_view().len() && old(self).tiles_view()[i].position == at,
            r ==> exists|i: int|
                first_at(old(self).tiles_view(), i, at) && final(self).tiles_view()[i].answers@ == old(self).tiles_view()[i].answers@.insert(player.0, answer) && forall|j: int|
                    0 <= j < old(self).tiles_view().len() && j != i ==> (#[trigger] final(self).tiles_view()[j]).answers@ == old(self).tiles_view()[j].answers@,
            !r ==> crate::hints::same_answers(final(self).tiles_view(), old(self).tiles_view()),
            final(self).players_view() == old(self).players_view(),
            final(self).clues_view() == old(self).clues_view(),
            final(self).known_view() == old(self).known_view(),
            final(self).inverted_view() == old(self).inverted_view(),
            final(self).user_view() == old(self).user_view(),
            final(self).highlights_view() == old(self).highlights_view(),
            !crate::hints::same_answers(final(self).tiles_view(), old(self).tiles_view()) ==> final(
                self
            ).hints_view().len() == 0,
            crate::hints::same_answers(final(self).tiles_view(), old(self).tiles_view()) ==> final(
                self
            ).hints_view() == old(self).hints_view(),
    {
        let i = match self.map.index_of(at) {
            Some(i) => i,
            None => {
                return false;
            },
        };
        let prior = match self.map.0[i].answers.get(&player.0) {
            Some(a) => Some(*a),
            None => None,
        };
        let ghost before = *self;
        self.map.0[i].answers.insert(player.0, answer);
        let changed = match prior {
            Some(a) => a != answer,
            None => true,
        };
        if changed {
            assert(tiles_wf(self.map.0@)) by {
                assert(same_layout(self.map.0@, before.map.0@));
            }
            self.refresh();
        } else {
            assert(self.map.0@[i as int].answers@ =~= before.map.0@[i as int].answers@);
            proof {
                before.lemma_fresh_kept(self);
            }
        }
        true
    }

    /// Turns inverted clues on or off; a change recomputes the candidate
    /// lists and the overlay and drops the hints.
    pub fn set_with_inverted(&mut self, with_inverted: bool)
        requires
            old(self).fresh(),
        ensures
            final(self).fresh(),
            final(self).inverted_view() == with_inverted,
            crate::hints::same_answers(final(self).tiles_view(), old(self).tiles_view()),
            same_layout(final(self).tiles_view(), old(self).tiles_view()),
            final(self).players_view() == old(self).players_view(),
            final(self).user_view() == old(self).user_view(),
            with_inverted != old(self).inverted_view() ==> final(self).hints_view().len() == 0,
            with_inverted == old(self).inverted_view() ==> final(self).hints_view() == old(self).hints_view(),
    {
        if self.with_inverted != with_inverted {
            self.with_inverted = with_inverted;
            self.refresh();
        }
    }

    /// Sets the player using this tool; a change drops the hints.
    pub fn set_user(&mut self, user: PlayerID)
        requires
            old(self).fresh(),
        ensures
            final(self).fresh(),
            final(self).user_view() == user,
            final(self).tiles_view() == old(self).tiles_view(),
            final(self).players_view() == old(self).players_view(),
            final(self).inverted_view() == old(self).inverted_view(),
            user != old(self).user_view() ==> final(self).hints_view().len() == 0,
            user == old(self).user_view() ==> final(self).hints_view() == old(self).hints_view(),
    {
        if self.user != user {
            self.user = user;
            self.hints = Vec::new();
        }
    }

    /// Marks the clue of `player` as known or to be deduced. A player marked
    /// known for the first time starts with "within one space of desert".
    /// A change recomputes the overlay and drops the hints.
    pub fn set_known(&mut self, player: PlayerID, known: bool)
        requires
            old(self).fresh(),
        ensures
            final(self).fresh(),
            final(self).known_view() == old(self).known_view().insert(player.0, known),
            final(self).clues_view() == if old(self).clues_view().contains_key(player.0) {
                old(self).clues_view()
            } else {
                old(self).clues_view().insert(player.0, (Clue { kind: ClueKind::Terrain(Terrain::Desert), inverted: false }))
            },
            crate::hints::same_answers(final(self).tiles_view(), old(self).tiles_view()),
            same_layout(final(self).tiles_view(), old(self).tiles_view()),
            final(self).players_view() == old(self).players_view(),
            final(self).user_view() == old(self).user_view(),
            final(self).inverted_view() == old(self).inverted_view(),
            final(self).known_view() != old(self).known_view() || final(self).clues_view() != old(
                self
            ).clues_view() ==> final(self).hints_view().len() == 0,
            final(self).known_view() == old(self).known_view() && final(self).clues_view() == old(
                self
            ).clues_view() ==> final(self).hints_view() == old(self).hints_view(),
    {
        let has_clue = self.clues.contains_key(&player.0);
        let same_flag = match self.known_clues.get(&player.0) {
            Some(k) => *k == known,
            None => false,
        };
        if has_clue && same_flag {
            assert(self.known_clues@.insert(player.0, known) =~= self.known_clues@);
            return;
        }
        if !has_clue {
            self.clues.insert(player.0, Clue { kind: ClueKind::Terrain(Terrain::Desert), inverted: false });
        }
        self.known_clues.insert(player.0, known);
        self.update_map_from_clues();
        self.hints = Vec::new();
        assert(self.hints_view() =~= Seq::<(Option<PlayerID>, Seq<Hex>, int, int)>::empty());
    }

    /// Declares the clue of `player`. A change recomputes the overlay and
    /// drops the hints.
    pub fn set_clue(&mut self, player: PlayerID, clue: Clue)
        requires
            old(self).fresh(),
        ensures
            final(self).fresh(),
            final(self).clues_view() == old(self).clues_view().insert(player.0, clue),
            final(self).known_view() == old(self).known_view(),
            crate::hints::same_answers(final(self).tiles_view(), old(self).tiles_view()),
            same_layout(final(self).tiles_view(), old(self).tiles_view()),
            final(self).players_view() == old(self).players_view(),
            final(self).user_view() == old(self).user_view(),
            final(self).inverted_view() == old(self).inverted_view(),
            final(self).clues_view() != old(self).clues_view() ==> final(self).hints_view().len() == 0,
            final(self).clues_view() == old(self).clues_view() ==> final(self).hints_view() == old(
                self
            ).hints_view(),
    {
        let same = match self.clues.get(&player.0) {
            Some(c) => *c == clue,
            None => false,
        };
        if same {
            assert(self.clues@.insert(player.0, clue) =~= self.clues@);
            return;
        }
        self.clues.insert(player.0, clue);
        self.update_map_from_clues();
        self.hints = Vec::new();
        assert(self.hints_view() =~= Seq::<(Option<PlayerID>, Seq<Hex>, int, int)>::empty());
    }

    pub fn tiles(&self) -> (r: &[Tile])
        ensures
            r@ == self.tiles_view(),
    {
        self.map.0.as_slice()
    }

    pub fn players(&self) -> (r: &PlayerList)
        ensures
            r@ == self.players_view(),
    {
        &self.players
    }

    pub fn hints(&self) -> (r: &[Hint])
        ensures
            r@.map_values(|h: Hint| hint_view(h)) == self.hints_view(),
    {
        self.hints.as_slice()
    }

    pub fn highlights(&self) -> (r: &[Hex])
        ensures
            r@ == self.highlights_view(),
    {
        self.highlights.as_slice()
    }

    pub fn with_inverted(&self) -> (r: bool)
        ensures
            r == self.inverted_view(),
    {
        self.with_inverted
    }

    pub fn user(&self) -> (r: PlayerID)
        ensures
            r == self.user_view(),
    {
        self.user
    }

    /// The declared clue of `player`, if any.
    pub fn clue(&self, player: PlayerID) -> (r: Option<Clue>)
        ensures
            r == if self.clues_view().contains_key(player.0) {
                Some(self.clues_view()[player.0])
            } else {
                None
            },
    {
        match self.clues.get(&player.0) {
            Some(c) => Some(*c),
            None => None,
        }
    }

    /// Whether the clue of `player` is marked known.
    pub fn is_known(&self, player: PlayerID) -> (r: bool)
        ensures
            r == (self.known_view().contains_key(player.0) && self.known_view()[player.0]),
    {
        match self.known_clues.get(&player.0) {
            Some(k) => *k,
            None => false,
        }
    }

    /// The candidate clues of `player`; empty for a player not in the roster.
    pub fn deduced_clues(&self, player: PlayerID) -> (r: &[Clue])
        ensures
            self.deduced_view().contains_key(player.0) ==> r@ == self.deduced_view()[player.0]@,
            !self.deduced_view().contains_key(player.0) ==> r@.len() == 0,
            self.fresh() && (exists|k: int| 0 <= k < self.players_view().len() && (#[trigger] self.players_view()[k]).id == player)
                ==> r@ == candidates(self.tiles_view(), player, self.inverted_view()),
    {
        match self.deduced_clues.get(&player.0) {
            Some(v) => v.as_slice(),
            None => &[],
        }
    }
}

/// The decimal digits of `n`.
pub uninterp spec fn decimal_of(n: usize) -> Seq<char>;

/// Relies on `ToString::to_string` for `usize`: the decimal form of the
/// number, which depends on the number alone.
#[verifier::external_body]
fn decimal(n: usize) -> (r: String)
    ensures
        r@ == decimal_of(n),
{
    n.to_string()
}

/// The sentence of a question hint for the player named `name`; `low` and
/// `high` are the written counts, `same` whether the counts are equal.
pub open spec fn ask_sentence(name: Seq<char>, low: Seq<char>, high: Seq<char>, same: bool) -> Seq<char> {
    if same {
        "Ask "@ + name + " here to rule out "@ + low + " clues."@
    } else {
        "Ask "@ + name + " here to rule out "@ + low + " to "@ + high + " clues."@
    }
}

/// The sentence of a quiet-tile hint; `diff` is the written count,
/// `zero` whether it is nothing.
pub open spec fn quiet_sentence(diff: Seq<char>, zero: bool) -> Seq<char> {
    if zero {
        "Place a 'no' here to reveal no new information."@
    } else {
        "Place a 'no' here to rule out "@ + diff + " of your clues."@
    }
}

/// The sentence of `hint`, with `name` the name of the player it asks.
pub open spec fn hint_sentence(hint: Hint, name: Seq<char>) -> Seq<char> {
    match hint {
        Hint::Ask { low, high, .. } => ask_sentence(name, decimal_of(low), decimal_of(high), low == high),
        Hint::Quiet { diff, .. } => quiet_sentence(decimal_of(diff), diff == 0),
    }
}

/// Writes the sentence of a question hint from the written counts.
pub fn ask_text(name: &str, low: &str, high: &str, same: bool) -> (r: String)
    ensures
        r@ == ask_sentence(name@, low@, high@, same),
{
    let mut s = String::from_str("Ask ");
    s.append(name);
    s.append(" here to rule out ");
    s.append(low);
    if !same {
        s.append(" to ");
        s.append(high);
    }
    s.append(" clues.");
    s
}

/// Writes the sentence of a quiet-tile hint from the written count.
pub fn quiet_text(diff: &str, zero: bool) -> (r: String)
    ensures
        r@ == quiet_sentence(diff@, zero),
{
    if zero {
        String::from_str("Place a 'no' here to reveal no new information.")
    } else {
        let mut s = String::from_str("Place a 'no' here to rule out ");
        s.append(diff);
        s.append(" of your clues.");
        s
    }
}

impl Hint {
    /// The sentence shown for this hint; `name` is the name of the player
    /// a question hint asks (unused for quiet tiles).
    pub fn text(&self, name: &str) -> (r: String)
        ensures
            r@ == hint_sentence(*self, name@),
    {
        match self {
            Hint::Ask { low, high, .. } => {
                let l = decimal(*low);
                let h = decimal(*high);
                ask_text(name, l.as_str(), h.as_str(), *low == *high)
            },
            Hint::Quiet { diff, .. } => {
                let d = decimal(*diff);
                quiet_text(d.as_str(), *diff == 0)
            },
        }
    }

    /// The tiles this hint points at.
    pub fn tiles(&self) -> (r: &[Hex])
        ensures
            r@ == hint_view(*self).1,
    {
        match self {
            Hint::Ask { tiles, .. } => tiles.as_slice(),
            Hint::Quiet { tiles, .. } => tiles.as_slice(),
        }
    }
}

} // verus!
