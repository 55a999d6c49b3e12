//! The hint engine: which tile to question next, and which tile gives
//! away the least.

use crate::deduce::{
    candidates, candidates_under, consistent, consistent_clues, player_answers,
};
use crate::hex::Hex;
use crate::map::{lemma_layout_decides, lemma_layout_structures, same_layout, TileMap};
use crate::model::{Answer, Clue, PlayerID, Tile};
use itertools::Itertools;
use vstd::prelude::*;

verus! {

/// The two maps hold the same answers, tile by tile.
pub open spec fn same_answers(a: Seq<Tile>, b: Seq<Tile>) -> bool {
    &&& a.len() == b.len()
    &&& forall|i: int| 0 <= i < a.len() ==> (#[trigger] a[i]).answers@ == b[i].answers@
}

/// The two maps agree on layout, answers and exclusion marks.
pub open spec fn same_state(a: Seq<Tile>, b: Seq<Tile>) -> bool {
    &&& same_layout(a, b)
    &&& same_answers(a, b)
    &&& forall|i: int| 0 <= i < a.len() ==> (#[trigger] a[i]).small == b[i].small
}

/// How many candidate clues `player` would have if their answer on tile
/// `i` were `answer`, all other answers as they are.
pub open spec fn count_with(tiles: Seq<Tile>, player: PlayerID, with_inverted: bool, i: int, answer: Answer) -> int {
    candidates_under(tiles, player_answers(tiles, player).update(i, answer), with_inverted).len() as int
}

/// The filter gives the same clues under two answer sets that judge every
/// clue alike.
proof fn lemma_same_verdicts(
    clues: Seq<Clue>,
    t1: Seq<Tile>,
    a1: Seq<Answer>,
    t2: Seq<Tile>,
    a2: Seq<Answer>,
)
    requires
        forall|c: Clue| consistent(t1, a1, c) == consistent(t2, a2, c),
    ensures
        consistent_clues(clues, t1, a1) == consistent_clues(clues, t2, a2),
    decreases clues.len(),
{
    if clues.len() > 0 {
        lemma_same_verdicts(clues.drop_last(), t1, a1, t2, a2);
    }
}

/// Candidates of a map whose answers were changed on one tile only are
/// those of the unchanged map under the changed answer.
proof fn lemma_changed_answer(before: Seq<Tile>, after: Seq<Tile>, player: PlayerID, with_inverted: bool, i: int)
    requires
        same_layout(before, after),
        0 <= i < before.len(),
        forall|j: int|
            0 <= j < before.len() && j != i ==> (#[trigger] after[j]).answer_of(player) == before[j].answer_of(
                player,
            ),
    ensures
        candidates(after, player, with_inverted) == candidates_under(
            before,
            player_answers(before, player).update(i, after[i].answer_of(player)),
            with_inverted,
        ),
{
    lemma_layout_structures(before, after);
    let changed = player_answers(before, player).update(i, after[i].answer_of(player));
    assert(player_answers(after, player) =~= changed);
    assert forall|c: Clue| consistent(after, changed, c) == consistent(before, changed, c) by {
        assert forall|j: int| 0 <= j < before.len() implies #[trigger] after[j].position == before[j].position by {}
        if consistent(after, changed, c) {
            assert forall|j: int| 0 <= j < before.len() implies crate::deduce::agrees(
                #[trigger] changed[j],
                crate::map::clue_holds(before, c, before[j].position),
            ) by {
                lemma_layout_decides(before, after, c, before[j].position);
            }
        }
        if consistent(before, changed, c) {
            assert forall|j: int| 0 <= j < after.len() implies crate::deduce::agrees(
                #[trigger] changed[j],
                crate::map::clue_holds(after, c, after[j].position),
            ) by {
                lemma_layout_decides(before, after, c, before[j].position);
            }
        }
    }
    lemma_same_verdicts(
        crate::catalog::catalog(
            crate::map::present_colors(before),
            crate::map::present_kinds(before),
            with_inverted,
        ),
        after,
        changed,
        before,
        changed,
    );
}

/// Two maps in the same state give every player the same candidates,
/// now and under any one changed answer.
pub proof fn lemma_same_state_counts(a: Seq<Tile>, b: Seq<Tile>, player: PlayerID, with_inverted: bool)
    requires
        same_layout(a, b),
        same_answers(a, b),
    ensures
        player_answers(a, player) == player_answers(b, player),
        candidates(a, player, with_inverted) == candidates(b, player, with_inverted),
        forall|i: int, answer: Answer|
            0 <= i < a.len() ==> #[trigger] count_with(a, player, with_inverted, i, answer) == count_with(
                b,
                player,
                with_inverted,
                i,
                answer,
            ),
{
    assert(player_answers(a, player) =~= player_answers(b, player));
    let pa = player_answers(a, player);
    assert forall|i: int, answer: Answer| 0 <= i < a.len() implies #[trigger] count_with(
        a,
        player,
        with_inverted,
        i,
        answer,
    ) == count_with(b, player, with_inverted, i, answer) by {
        lemma_same_layout_under(a, b, pa.update(i, answer), with_inverted);
    }
    lemma_same_layout_under(a, b, pa, with_inverted);
}

/// The filter depends on the layout and the answers alone.
proof fn lemma_same_layout_under(a: Seq<Tile>, b: Seq<Tile>, answers: Seq<Answer>, with_inverted: bool)
    requires
        same_layout(a, b),
    ensures
        candidates_under(a, answers, with_inverted) == candidates_under(b, answers, with_inverted),
{
    lemma_layout_structures(a, b);
    assert forall|c: Clue| consistent(a, answers, c) == consistent(b, answers, c) by {
        assert forall|j: int| 0 <= j < a.len() implies #[trigger] b[j].position == a[j].position by {}
        assert forall|j: int| 0 <= j < a.len() implies crate::map::clue_holds(a, c, a[j].position)
            == #[trigger] crate::map::clue_holds(b, c, b[j].position) by {
            lemma_layout_decides(a, b, c, a[j].position);
        }
    }
    lemma_same_verdicts(
        crate::catalog::catalog(crate::map::present_colors(a), crate::map::present_kinds(a), with_inverted),
        a,
        answers,
        b,
        answers,
    );
}

/// Two maps of the same layout judge every clue alike everywhere.
pub proof fn lemma_layout_same_verdicts(a: Seq<Tile>, b: Seq<Tile>)
    requires
        same_layout(a, b),
    ensures
        forall|c: Clue, p: Hex| crate::map::clue_holds(a, c, p) == #[trigger] crate::map::clue_holds(b, c, p),
{
    assert forall|c: Clue, p: Hex| crate::map::clue_holds(a, c, p) == #[trigger] crate::map::clue_holds(b, c, p) by {
        lemma_layout_decides(a, b, c, p);
    }
}

pub open spec fn abs_diff(a: int, b: int) -> int {
    if a >= b {
        a - b
    } else {
        b - a
    }
}

/// Indices below `n` of the tiles `player` has not answered, in order.
pub open spec fn open_prefix(tiles: Seq<Tile>, player: PlayerID, n: int) -> Seq<int>
    decreases n,
{
    if n <= 0 {
        seq![]
    } else {
        let r = open_prefix(tiles, player, n - 1);
        if tiles[n - 1].answer_of(player) == Answer::Unknown {
            r.push(n - 1)
        } else {
            r
        }
    }
}

/// Indices of the tiles `player` has not answered, in map order.
pub open spec fn open_tiles(tiles: Seq<Tile>, player: PlayerID) -> Seq<int> {
    open_prefix(tiles, player, tiles.len() as int)
}

/// How many candidate clues of `player` an answer `answer` on tile `i`
/// would rule out (or, were that possible, add).
pub open spec fn gain(tiles: Seq<Tile>, player: PlayerID, with_inverted: bool, i: int, answer: Answer) -> int {
    abs_diff(
        candidates(tiles, player, with_inverted).len() as int,
        count_with(tiles, player, with_inverted, i, answer),
    )
}

/// How unevenly a question on tile `i` splits the candidates of `player`.
pub open spec fn balance(tiles: Seq<Tile>, player: PlayerID, with_inverted: bool, i: int) -> int {
    abs_diff(gain(tiles, player, with_inverted, i, Answer::Yes), gain(tiles, player, with_inverted, i, Answer::No))
}

/// The smallest element of `s` (0 for an empty sequence).
pub open spec fn seq_min(s: Seq<usize>) -> int
    decreases s.len(),
{
    if s.len() == 0 {
        0
    } else if s.len() == 1 {
        s[0] as int
    } else {
        let m = seq_min(s.drop_last());
        if (s.last() as int) < m {
            s.last() as int
        } else {
            m
        }
    }
}

/// Positions below `n` at which `s` holds `v`, in increasing order.
pub open spec fn positions_of(s: Seq<usize>, v: int, n: int) -> Seq<usize>
    decreases n,
{
    if n <= 0 {
        seq![]
    } else {
        let r = positions_of(s, v, n - 1);
        if s[n - 1] == v {
            r.push((n - 1) as usize)
        } else {
            r
        }
    }
}

/// Positions of all the smallest elements of `s`, in increasing order.
pub open spec fn min_set(s: Seq<usize>) -> Seq<usize> {
    positions_of(s, seq_min(s), s.len() as int)
}

/// Relies on `itertools::Itertools::min_set_by_key`: every element with
/// the least key, in input order.
#[verifier::external_body]
fn least_positions(keys: &Vec<usize>) -> (r: Vec<usize>)
    ensures
        r@ == min_set(keys@),
{
    keys.iter().enumerate().min_set_by_key(|p| *p.1).into_iter().map(|p| p.0).collect()
}

/// The balance of each open tile of `player`, in map order.
pub open spec fn balances(tiles: Seq<Tile>, player: PlayerID, with_inverted: bool) -> Seq<usize> {
    open_tiles(tiles, player).map_values(|i: int| balance(tiles, player, with_inverted, i) as usize)
}

/// What a `No` on each open tile of `player` would rule out, in map order.
pub open spec fn no_gains(tiles: Seq<Tile>, player: PlayerID, with_inverted: bool) -> Seq<usize> {
    open_tiles(tiles, player).map_values(|i: int| gain(tiles, player, with_inverted, i, Answer::No) as usize)
}

/// The positions of the open tiles picked out by `picks` (indices into
/// the open tiles).
pub open spec fn picked_positions(tiles: Seq<Tile>, player: PlayerID, picks: Seq<usize>) -> Seq<Hex> {
    picks.map_values(|k: usize| tiles[open_tiles(tiles, player)[k as int]].position)
}

proof fn lemma_open_prefix_len(tiles: Seq<Tile>, player: PlayerID, n: int)
    requires
        0 <= n <= tiles.len(),
    ensures
        open_prefix(tiles, player, n).len() <= n,
        forall|k: int|
            0 <= k < open_prefix(tiles, player, n).len() ==> 0 <= #[trigger] open_prefix(tiles, player, n)[k]
                < n && tiles[open_prefix(tiles, player, n)[k]].answer_of(player) == Answer::Unknown,
    decreases n,
{
    if n > 0 {
        lemma_open_prefix_len(tiles, player, n - 1);
    }
}

/// The least element occurs in a non-empty sequence, and the positions
/// of `min_set` are in range and hold it.
proof fn lemma_min_set_bounds(s: Seq<usize>)
    requires
        s.len() <= usize::MAX,
    ensures
        s.len() > 0 ==> min_set(s).len() > 0,
        forall|k: int|
            0 <= k < min_set(s).len() ==> (#[trigger] min_set(s)[k]) < s.len() && s[min_set(s)[k] as int]
                == seq_min(s),
{
    lemma_min_occurs(s);
    lemma_positions_of(s, seq_min(s), s.len() as int);
}

proof fn lemma_min_occurs(s: Seq<usize>)
    ensures
        s.len() > 0 ==> exists|k: int| 0 <= k < s.len() && s[k] == seq_min(s),
    decreases s.len(),
{
    if s.len() > 1 {
        lemma_min_occurs(s.drop_last());
        if !((s.last() as int) < seq_min(s.drop_last())) {
            let k = choose|k: int| 0 <= k < s.drop_last().len() && s.drop_last()[k] == seq_min(s.drop_last());
            assert(s[k] == seq_min(s));
        } else {
            assert(s[s.len() - 1] == seq_min(s));
        }
    } else if s.len() == 1 {
        assert(s[0] == seq_min(s));
    }
}

proof fn lemma_positions_of(s: Seq<usize>, v: int, n: int)
    requires
        0 <= n <= s.len(),
        s.len() <= usize::MAX,
    ensures
        (exists|k: int| 0 <= k < n && s[k] == v) ==> positions_of(s, v, n).len() > 0,
        forall|k: int|
            0 <= k < positions_of(s, v, n).len() ==> (#[trigger] positions_of(s, v, n)[k]) < n && s[positions_of(
                s,
                v,
                n,
            )[k] as int] == v,
    decreases n,
{
    if n > 0 {
        lemma_positions_of(s, v, n - 1);
        if exists|k: int| 0 <= k < n && s[k] == v {
            let k = choose|k: int| 0 <= k < n && s[k] == v;
            if k < n - 1 {
                assert(exists|k: int| 0 <= k < n - 1 && s[k] == v);
            }
        }
    }
}

/// `low` and `high` are the smaller and the larger gain of a question on
/// tile `i`.
pub open spec fn gains_ordered(tiles: Seq<Tile>, player: PlayerID, with_inverted: bool, i: int, low: int, high: int) -> bool {
    let yes = gain(tiles, player, with_inverted, i, Answer::Yes);
    let no = gain(tiles, player, with_inverted, i, Answer::No);
    &&& low == if yes <= no { yes } else { no }
    &&& high == if yes <= no { no } else { yes }
}

/// The question to put to `player`: the positions of the open tiles of
/// least balance, in map order, with the smaller and the larger gain on the
/// first of them. None when fewer than two candidates are left or every
/// tile is answered.
pub open spec fn question_spec(tiles: Seq<Tile>, player: PlayerID, with_inverted: bool) -> Option<
    (Seq<Hex>, int, int),
> {
    if candidates(tiles, player, with_inverted).len() < 2 || open_tiles(tiles, player).len() == 0 {
        None
    } else {
        let best = min_set(balances(tiles, player, with_inverted));
        let first = open_tiles(tiles, player)[best[0] as int];
        let yes = gain(tiles, player, with_inverted, first, Answer::Yes);
        let no = gain(tiles, player, with_inverted, first, Answer::No);
        Some(
            (
                picked_positions(tiles, player, best),
                if yes <= no {
                    yes
                } else {
                    no
                },
                if yes <= no {
                    no
                } else {
                    yes
                },
            ),
        )
    }
}

/// The tiles where a `No` from `player` rules out the fewest of their
/// candidates, in map order, with that number. None when every tile is
/// answered.
pub open spec fn quiet_spec(tiles: Seq<Tile>, player: PlayerID, with_inverted: bool) -> Option<(Seq<Hex>, int)> {
    if open_tiles(tiles, player).len() == 0 {
        None
    } else {
        let gains = no_gains(tiles, player, with_inverted);
        Some((picked_positions(tiles, player, min_set(gains)), seq_min(gains)))
    }
}

proof fn lemma_same_answers_open(a: Seq<Tile>, b: Seq<Tile>, player: PlayerID, n: int)
    requires
        same_answers(a, b),
        0 <= n <= a.len(),
    ensures
        open_prefix(a, player, n) == open_prefix(b, player, n),
    decreases n,
{
    if n > 0 {
        lemma_same_answers_open(a, b, player, n - 1);
        assert(a[n - 1].answers@ == b[n - 1].answers@);
    }
}

proof fn lemma_same_picks(a: Seq<Tile>, b: Seq<Tile>, player: PlayerID, picks: Seq<usize>)
    requires
        same_layout(a, b),
        open_tiles(a, player) == open_tiles(b, player),
        forall|k: int| 0 <= k < picks.len() ==> (#[trigger] picks[k]) < open_tiles(a, player).len(),
        forall|k: int|
            0 <= k < open_tiles(a, player).len() ==> 0 <= #[trigger] open_tiles(a, player)[k] < a.len(),
    ensures
        picked_positions(a, player, picks) == picked_positions(b, player, picks),
{
    let open = open_tiles(a, player);
    assert forall|k: int| 0 <= k < picks.len() implies picked_positions(a, player, picks)[k]
        == #[trigger] picked_positions(b, player, picks)[k] by {
        let j = open[picks[k] as int];
        assert(a[j].position == b[j].position);
    }
    assert(picked_positions(a, player, picks) =~= picked_positions(b, player, picks));
}

/// The suggested question and quiet tiles depend on the layout and the
/// answers alone.
pub proof fn lemma_same_hints(a: Seq<Tile>, b: Seq<Tile>, player: PlayerID, with_inverted: bool)
    requires
        same_layout(a, b),
        same_answers(a, b),
        a.len() <= usize::MAX,
    ensures
        question_spec(a, player, with_inverted) == question_spec(b, player, with_inverted),
        quiet_spec(a, player, with_inverted) == quiet_spec(b, player, with_inverted),
{
    lemma_same_state_counts(a, b, player, with_inverted);
    lemma_same_answers_open(a, b, player, a.len() as int);
    let open = open_tiles(a, player);
    lemma_open_prefix_len(a, player, a.len() as int);
    assert(balances(a, player, with_inverted) =~= balances(b, player, with_inverted));
    assert(no_gains(a, player, with_inverted) =~= no_gains(b, player, with_inverted));
    let bal = balances(a, player, with_inverted);
    let gains = no_gains(a, player, with_inverted);
    lemma_min_set_bounds(bal);
    lemma_min_set_bounds(gains);
    lemma_same_picks(a, b, player, min_set(bal));
    lemma_same_picks(a, b, player, min_set(gains));
}

/// On a tile with no answer, a clue survives a `Yes` exactly when it holds
/// there and a `No` exactly when it does not.
proof fn lemma_split_by_answer(clues: Seq<Clue>, tiles: Seq<Tile>, answers: Seq<Answer>, i: int)
    requires
        0 <= i < tiles.len(),
        answers.len() == tiles.len(),
        answers[i] == Answer::Unknown,
    ensures
        consistent_clues(clues, tiles, answers.update(i, Answer::Yes)).len() + consistent_clues(
            clues,
            tiles,
            answers.update(i, Answer::No),
        ).len() == consistent_clues(clues, tiles, answers).len(),
    decreases clues.len(),
{
    if clues.len() > 0 {
        lemma_split_by_answer(clues.drop_last(), tiles, answers, i);
        let c = clues.last();
        let holds = crate::map::clue_holds(tiles, c, tiles[i].position);
        let yes = answers.update(i, Answer::Yes);
        let no = answers.update(i, Answer::No);
        assert(consistent(tiles, yes, c) == (consistent(tiles, answers, c) && holds)) by {
            if consistent(tiles, answers, c) && holds {
                assert forall|j: int| 0 <= j < tiles.len() implies crate::deduce::agrees(
                    #[trigger] yes[j],
                    crate::map::clue_holds(tiles, c, tiles[j].position),
                ) by {
                    if j != i {
                        assert(yes[j] == answers[j]);
                    }
                }
            }
            if consistent(tiles, yes, c) {
                assert(crate::deduce::agrees(yes[i], holds));
                assert forall|j: int| 0 <= j < tiles.len() implies crate::deduce::agrees(
                    #[trigger] answers[j],
                    crate::map::clue_holds(tiles, c, tiles[j].position),
                ) by {
                    if j != i {
                        assert(yes[j] == answers[j]);
                    }
                }
            }
        }
        assert(consistent(tiles, no, c) == (consistent(tiles, answers, c) && !holds)) by {
            if consistent(tiles, answers, c) && !holds {
                assert forall|j: int| 0 <= j < tiles.len() implies crate::deduce::agrees(
                    #[trigger] no[j],
                    crate::map::clue_holds(tiles, c, tiles[j].position),
                ) by {
                    if j != i {
                        assert(no[j] == answers[j]);
                    }
                }
            }
            if consistent(tiles, no, c) {
                assert(crate::deduce::agrees(no[i], holds));
                assert forall|j: int| 0 <= j < tiles.len() implies crate::deduce::agrees(
                    #[trigger] answers[j],
                    crate::map::clue_holds(tiles, c, tiles[j].position),
                ) by {
                    if j != i {
                        assert(no[j] == answers[j]);
                    }
                }
            }
        }
    }
}

/// A question on a tile the player has not answered splits their
/// candidates in two: the clues ruled out by a `Yes` and those ruled out
/// by a `No` together are all of them.
pub proof fn lemma_gains_sum(tiles: Seq<Tile>, player: PlayerID, with_inverted: bool, i: int)
    requires
        0 <= i < tiles.len(),
        tiles[i].answer_of(player) == Answer::Unknown,
    ensures
        gain(tiles, player, with_inverted, i, Answer::Yes) + gain(tiles, player, with_inverted, i, Answer::No)
            == candidates(tiles, player, with_inverted).len(),
{
    lemma_split_by_answer(
        crate::catalog::catalog(crate::map::present_colors(tiles), crate::map::present_kinds(tiles), with_inverted),
        tiles,
        player_answers(tiles, player),
        i,
    );
}

/// Every tile a suggested question names has the reported gains: on each
/// of them the smaller and the larger of the two gains are `low` and
/// `high`, and these add up to the number of candidates.
pub proof fn lemma_question_sound(tiles: Seq<Tile>, player: PlayerID, with_inverted: bool)
    requires
        tiles.len() <= usize::MAX,
        candidates(tiles, player, with_inverted).len() <= usize::MAX,
        question_spec(tiles, player, with_inverted) is Some,
    ensures
        ({
            let q = question_spec(tiles, player, with_inverted)->Some_0;
            let best = min_set(balances(tiles, player, with_inverted));
            &&& q.1 + q.2 == candidates(tiles, player, with_inverted).len()
            &&& forall|k: int|
                0 <= k < best.len() ==> gains_ordered(
                    tiles,
                    player,
                    with_inverted,
                    open_tiles(tiles, player)[#[trigger] best[k] as int],
                    q.1,
                    q.2,
                )
        }),
{
    let open = open_tiles(tiles, player);
    let bal = balances(tiles, player, with_inverted);
    let best = min_set(bal);
    let n = candidates(tiles, player, with_inverted).len() as int;
    lemma_open_prefix_len(tiles, player, tiles.len() as int);
    lemma_min_set_bounds(bal);
    let first = open[best[0] as int];
    lemma_gains_sum(tiles, player, with_inverted, first);
    assert forall|k: int| 0 <= k < best.len() implies gains_ordered(
        tiles,
        player,
        with_inverted,
        open[#[trigger] best[k] as int],
        question_spec(tiles, player, with_inverted)->Some_0.1,
        question_spec(tiles, player, with_inverted)->Some_0.2,
    ) by {
        let i = open[best[k] as int];
        lemma_gains_sum(tiles, player, with_inverted, i);
        assert(bal[best[k] as int] == bal[best[0] as int]);
        let gy = gain(tiles, player, with_inverted, i, Answer::Yes);
        let gn = gain(tiles, player, with_inverted, i, Answer::No);
        let fy = gain(tiles, player, with_inverted, first, Answer::Yes);
        let fn_ = gain(tiles, player, with_inverted, first, Answer::No);
        assert(0 <= abs_diff(gy, gn) <= n);
        assert(0 <= abs_diff(fy, fn_) <= n);
        assert(abs_diff(gy, gn) == abs_diff(fy, fn_));
    }
}

/// A suggested question: ask on any of `tiles` to rule out between `low`
/// and `high` candidate clues.
#[derive(Debug, Clone)]
pub struct Question {
    pub tiles: Vec<Hex>,
    pub low: usize,
    pub high: usize,
}

/// The tiles on which a `No` rules out the fewest (`diff`) of one's own
/// candidate clues.
#[derive(Debug, Clone)]
pub struct QuietTile {
    pub tiles: Vec<Hex>,
    pub diff: usize,
}

fn distance_between_counts(a: usize, b: usize) -> (r: usize)
    ensures
        r == abs_diff(a as int, b as int),
{
    if a >= b {
        a - b
    } else {
        b - a
    }
}

impl TileMap {
    /// Counts the candidate clues of `player` as if their answer on tile
    /// `i` were `answer`. The answer is set for the count and put back
    /// before returning, so the map ends as it began.
    fn count_with_answer(&mut self, i: usize, player: PlayerID, with_inverted: bool, answer: Answer) -> (r: usize)
        requires
            old(self).wf(),
            i < old(self).0@.len(),
        ensures
            same_state(final(self).0@, old(self).0@),
            r == count_with(old(self).0@, player, with_inverted, i as int, answer),
    {
        let ghost before = self.0@;
        let prior = match self.0[i].answers.get(&player.0) {
            Some(a) => Some(*a),
            None => None,
        };
        self.0[i].answers.insert(player.0, answer);
        assert(same_layout(before, self.0@));
        assert(self.0@[i as int].answer_of(player) == answer);
        proof {
            lemma_changed_answer(before, self.0@, player, with_inverted, i as int);
        }
        let count = self.clues_for_player(player, with_inverted).len();
        match prior {
            Some(a) => {
                self.0[i].answers.insert(player.0, a);
            },
            None => {
                self.0[i].answers.remove(&player.0);
            },
        }
        assert(self.0@[i as int].answers@ =~= before[i as int].answers@);
        count
    }

    /// Picks the tiles where a question to `player` splits their remaining
    /// candidate clues most evenly, whichever way they answer. For each
    /// tile the player has not answered, both answers are tried in turn
    /// and undone; the map ends as it began. Returns `None` when the player
    /// has fewer than two candidates left or has answered on every tile.
    #[verifier::loop_isolation(false)]
    pub fn best_question(&mut self, player: PlayerID, with_inverted: bool) -> (r: Option<Question>)
        requires
            old(self).wf(),
        ensures
            same_state(final(self).0@, old(self).0@),
            match r {
                Some(q) => question_spec(old(self).0@, player, with_inverted) == Some(
                    (q.tiles@, q.low as int, q.high as int),
                ),
                None => question_spec(old(self).0@, player, with_inverted) is None,
            },
    {
        let ghost before = self.0@;
        let now = self.clues_for_player(player, with_inverted).len();
        if now < 2 {
            proof {
                lemma_open_prefix_len(before, player, before.len() as int);
            }
            return None;
        }
        let mut positions: Vec<Hex> = Vec::new();
        let mut keys: Vec<usize> = Vec::new();
        let mut lows: Vec<usize> = Vec::new();
        let mut highs: Vec<usize> = Vec::new();
        let mut i: usize = 0;
        while i < self.0.len()
            invariant
                same_state(self.0@, before),
                self.wf(),
                i <= before.len(),
                now == candidates(before, player, with_inverted).len(),
                positions@ == open_prefix(before, player, i as int).map_values(|j: int| before[j].position),
                keys@ == open_prefix(before, player, i as int).map_values(
                    |j: int| balance(before, player, with_inverted, j) as usize,
                ),
                lows@.len() == keys@.len(),
                highs@.len() == keys@.len(),
                forall|k: int|
                    0 <= k < keys@.len() ==> gains_ordered(
                        before,
                        player,
                        with_inverted,
                        open_prefix(before, player, i as int)[k],
                        #[trigger] lows@[k] as int,
                        highs@[k] as int,
                    ),
            decreases before.len() - i,
        {
            let ghost prev = open_prefix(before, player, i as int);
            let ghost lows0 = lows@;
            let ghost highs0 = highs@;
            proof {
                lemma_same_state_counts(self.0@, before, player, with_inverted);
            }
            if self.0[i].answer(player) == Answer::Unknown {
                let yes = self.count_with_answer(i, player, with_inverted, Answer::Yes);
                proof {
                    lemma_same_state_counts(self.0@, before, player, with_inverted);
                }
                let no = self.count_with_answer(i, player, with_inverted, Answer::No);
                let gain_yes = distance_between_counts(now, yes);
                let gain_no = distance_between_counts(now, no);
                positions.push(self.0[i].position);
                keys.push(distance_between_counts(gain_yes, gain_no));
                if gain_yes <= gain_no {
                    lows.push(gain_yes);
                    highs.push(gain_no);
                } else {
                    lows.push(gain_no);
                    highs.push(gain_yes);
                }
                assert(open_prefix(before, player, i as int + 1) == prev.push(i as int));
            } else {
                assert(open_prefix(before, player, i as int + 1) == prev);
            }
            i += 1;
            assert forall|k: int| 0 <= k < keys@.len() implies gains_ordered(
                before,
                player,
                with_inverted,
                open_prefix(before, player, i as int)[k],
                #[trigger] lows@[k] as int,
                highs@[k] as int,
            ) by {
                if k < lows0.len() {
                    assert(lows@[k] == lows0[k]);
                    assert(highs@[k] == highs0[k]);
                    assert(open_prefix(before, player, i as int)[k] == prev[k]);
                }
            }
            assert(positions@ =~= open_prefix(before, player, i as int).map_values(|j: int| before[j].position));
            assert(keys@ =~= open_prefix(before, player, i as int).map_values(
                |j: int| balance(before, player, with_inverted, j) as usize,
            ));
        }
        let best = least_positions(&keys);
        assert(keys@.len() == keys.len());
        proof {
            lemma_min_set_bounds(keys@);
        }
        if best.len() == 0 {
            return None;
        }
        let mut tiles: Vec<Hex> = Vec::new();
        let mut k: usize = 0;
        while k < best.len()
            invariant
                k <= best@.len(),
                tiles@ == best@.take(k as int).map_values(|p: usize| positions@[p as int]),
            decreases best@.len() - k,
        {
            tiles.push(positions[best[k]]);
            k += 1;
            assert(tiles@ =~= best@.take(k as int).map_values(|p: usize| positions@[p as int]));
        }
        assert(tiles@ =~= picked_positions(before, player, best@));
        Some(Question { tiles, low: lows[best[0]], high: highs[best[0]] })
    }

    /// Picks the tiles where a `No` from `player` rules out the fewest of
    /// their own candidate clues; `diff` is that number, 0 when such an
    /// answer reveals nothing. Each tile the player has not answered is
    /// tried with `No` and undone; the map ends as it began. Returns `None`
    /// when the player has answered on every tile.
    #[verifier::loop_isolation(false)]
    pub fn quietest_tile(&mut self, player: PlayerID, with_inverted: bool) -> (r: Option<QuietTile>)
        requires
            old(self).wf(),
        ensures
            same_state(final(self).0@, old(self).0@),
            match r {
                Some(q) => quiet_spec(old(self).0@, player, with_inverted) == Some((q.tiles@, q.diff as int)),
                None => quiet_spec(old(self).0@, player, with_inverted) is None,
            },
    {
        let ghost before = self.0@;
        let now = self.clues_for_player(player, with_inverted).len();
        let mut positions: Vec<Hex> = Vec::new();
        let mut keys: Vec<usize> = Vec::new();
        let mut i: usize = 0;
        while i < self.0.len()
            invariant
                same_state(self.0@, before),
                self.wf(),
                i <= before.len(),
                now == candidates(before, player, with_inverted).len(),
                positions@ == open_prefix(before, player, i as int).map_values(|j: int| before[j].position),
                keys@ == open_prefix(before, player, i as int).map_values(
                    |j: int| gain(before, player, with_inverted, j, Answer::No) as usize,
                ),
            decreases before.len() - i,
        {
            let ghost prev = open_prefix(before, player, i as int);
            proof {
                lemma_same_state_counts(self.0@, before, player, with_inverted);
            }
            if self.0[i].answer(player) == Answer::Unknown {
                let no = self.count_with_answer(i, player, with_inverted, Answer::No);
                positions.push(self.0[i].position);
                keys.push(distance_between_counts(now, no));
                assert(open_prefix(before, player, i as int + 1) == prev.push(i as int));
            } else {
                assert(open_prefix(before, player, i as int + 1) == prev);
            }
            i += 1;
            assert(positions@ =~= open_prefix(before, player, i as int).map_values(|j: int| before[j].position));
            assert(keys@ =~= open_prefix(before, player, i as int).map_values(
                |j: int| gain(before, player, with_inverted, j, Answer::No) as usize,
            ));
        }
        let best = least_positions(&keys);
        assert(keys@.len() == keys.len());
        proof {
            lemma_min_set_bounds(keys@);
        }
        if best.len() == 0 {
            return None;
        }
        let mut tiles: Vec<Hex> = Vec::new();
        let mut k: usize = 0;
        while k < best.len()
            invariant
                k <= best@.len(),
                tiles@ == best@.take(k as int).map_values(|p: usize| positions@[p as int]),
            decreases best@.len() - k,
        {
            tiles.push(positions[best[k]]);
            k += 1;
            assert(tiles@ =~= best@.take(k as int).map_values(|p: usize| positions@[p as int]));
        }
        assert(tiles@ =~= picked_positions(before, player, best@));
        Some(QuietTile { tiles, diff: keys[best[0]] })
    }
}

} // verus!
