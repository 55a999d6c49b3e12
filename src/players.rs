//! The roster of players.

use crate::model::PlayerID;
use itertools::Itertools;
use crate::describe::player_color_label;
use vstd::prelude::*;
use vstd::string::*;

verus! {

#[derive(Debug, Clone, Copy, PartialEq, Eq, Hash, Structural)]
pub enum PlayerColor {
    Red,
    Purple,
    Orange,
    Green,
    Blue,
}

/// Every player color, in declaration order.
pub open spec fn color_list() -> Seq<PlayerColor> {
    seq![PlayerColor::Red, PlayerColor::Purple, PlayerColor::Orange, PlayerColor::Green, PlayerColor::Blue]
}

#[derive(Debug, Clone)]
pub struct Player {
    pub id: PlayerID,
    pub name: String,
    pub color: PlayerColor,
}

/// `i` is the first index of `players` of a player with `id`.
pub open spec fn first_with_id(players: Seq<Player>, i: int, id: PlayerID) -> bool {
    &&& 0 <= i < players.len()
    &&& players[i].id == id
    &&& forall|j: int| 0 <= j < i ==> players[j].id != id
}

/// `players` without the players with `id`, order kept.
pub open spec fn without_id(players: Seq<Player>, id: PlayerID) -> Seq<Player>
    decreases players.len(),
{
    if players.len() == 0 {
        seq![]
    } else {
        let rest = without_id(players.drop_last(), id);
        if players.last().id == id {
            rest
        } else {
            rest.push(players.last())
        }
    }
}

/// The largest player number in `players`, 0 for none.
pub open spec fn max_number(players: Seq<Player>) -> int
    decreases players.len(),
{
    if players.len() == 0 {
        0
    } else {
        let m = max_number(players.drop_last());
        if players.last().id.0 > m {
            players.last().id.0 as int
        } else {
            m
        }
    }
}

/// Some player of `players` has `color`.
pub open spec fn color_taken(players: Seq<Player>, color: PlayerColor) -> bool {
    exists|i: int| 0 <= i < players.len() && (#[trigger] players[i]).color == color
}

/// The first color, in declaration order, that no player has; red when
/// every color is taken.
pub open spec fn free_color(players: Seq<Player>) -> PlayerColor {
    if exists|k: int| 0 <= k < 5 && !color_taken(players, #[trigger] color_list()[k]) {
        let k = choose|k: int|
            0 <= k < 5 && !color_taken(players, #[trigger] color_list()[k]) && forall|m: int|
                0 <= m < k ==> color_taken(players, #[trigger] color_list()[m]);
        color_list()[k]
    } else {
        PlayerColor::Red
    }
}

/// Why a roster cannot start a round.
#[derive(Debug, Clone, Copy, PartialEq, Eq, Structural)]
pub enum RosterProblem {
    /// A round takes 3 to 5 players.
    PlayerCount,
    /// Two players share a color.
    SharedColor,
    /// A player has no name.
    EmptyName,
    /// Two players share a name.
    SharedName,
}

pub open spec fn colors_distinct(players: Seq<Player>) -> bool {
    forall|i: int, j: int| 0 <= i < j < players.len() ==> (#[trigger] players[i]).color != (#[trigger] players[j]).color
}

pub open spec fn names_distinct(players: Seq<Player>) -> bool {
    forall|i: int, j: int| 0 <= i < j < players.len() ==> (#[trigger] players[i]).name@ != (#[trigger] players[j]).name@
}

/// The first problem, in this order, that keeps `players` from starting
/// a round: their number, a shared color, an empty name, a shared name.
pub open spec fn roster_problem(players: Seq<Player>) -> Option<RosterProblem> {
    if players.len() < 3 || players.len() > 5 {
        Some(RosterProblem::PlayerCount)
    } else if !colors_distinct(players) {
        Some(RosterProblem::SharedColor)
    } else if exists|i: int| 0 <= i < players.len() && (#[trigger] players[i]).name@.len() == 0 {
        Some(RosterProblem::EmptyName)
    } else if !names_distinct(players) {
        Some(RosterProblem::SharedName)
    } else {
        None
    }
}

/// No two of `texts` are equal.
pub open spec fn texts_distinct(texts: Seq<String>) -> bool {
    forall|i: int, j: int| 0 <= i < j < texts.len() ==> (#[trigger] texts[i])@ != (#[trigger] texts[j])@
}

/// Relies on `itertools::Itertools::all_unique`: true iff no value occurs
/// twice (strings compare by their characters).
#[verifier::external_body]
fn texts_unique(texts: &Vec<String>) -> (r: bool)
    ensures
        r == texts_distinct(texts@),
{
    texts.iter().all_unique()
}

/// Distinct colors have distinct names.
proof fn lemma_color_labels_differ(a: PlayerColor, b: PlayerColor)
    requires
        a != b,
    ensures
        player_color_label(a) != player_color_label(b),
{
    reveal_strlit("Red");
    reveal_strlit("Purple");
    reveal_strlit("Orange");
    reveal_strlit("Green");
    reveal_strlit("Blue");
    assert(player_color_label(a)[0] != player_color_label(b)[0] || player_color_label(a).len()
        != player_color_label(b).len());
}

/// The players of a round, in the order they were added.
#[derive(Debug, Clone)]
pub struct PlayerList(Vec<Player>);

impl View for PlayerList {
    type V = Seq<Player>;

    closed spec fn view(&self) -> Seq<Player> {
        self.0@
    }
}

impl Default for PlayerList {
    fn default() -> (r: Self)
        ensures
            r@ == Seq::<Player>::empty(),
    {
        PlayerList(Vec::new())
    }
}

impl PlayerList {
    /// The player with `id`. Passing an id that is not in the list is a
    /// programming error.
    pub fn get(&self, id: PlayerID) -> (r: &Player)
        requires
            exists|i: int| 0 <= i < self@.len() && (#[trigger] self@[i]).id == id,
        ensures
            exists|i: int| first_with_id(self@, i, id) && *r == self@[i],
    {
        let mut i: usize = 0;
        while i < self.0.len()
            invariant
                i <= self@.len(),
                self@ == self.0@,
                forall|j: int| 0 <= j < i ==> self@[j].id != id,
            decreases self@.len() - i,
        {
            if self.0[i].id == id {
                return &self.0[i];
            }
            i += 1;
        }
        proof {
            let k = choose|k: int| 0 <= k < self@.len() && (#[trigger] self@[k]).id == id;
            assert(self@[k].id != id);
        }
        &self.0[0]
    }

    /// Removes every player with `id`.
    pub fn remove(&mut self, id: PlayerID)
        ensures
            final(self)@ == without_id(old(self)@, id),
    {
        let ghost start = self.0@;
        assert(self.0@.len() == self.0.len());
        let mut i: usize = 0;
        let mut j: usize = 0;
        while i < self.0.len()
            invariant
                start.len() <= usize::MAX,
                j <= start.len(),
                i <= self.0@.len(),
                i == without_id(start.take(j as int), id).len(),
                self.0@ == without_id(start.take(j as int), id) + start.skip(j as int),
                self.0@.len() == i + (start.len() - j),
            decreases self.0@.len() - i,
        {
            assert(start.take(j as int + 1).drop_last() =~= start.take(j as int));
            assert(self.0@[i as int] == start[j as int]);
            if self.0[i].id == id {
                self.0.remove(i);
                assert(self.0@ =~= without_id(start.take(j as int + 1), id) + start.skip(j as int + 1));
            } else {
                i += 1;
                assert(self.0@ =~= without_id(start.take(j as int + 1), id) + start.skip(j as int + 1));
            }
            j += 1;
        }
        assert(start.take(j as int) =~= start);
        assert(self.0@ =~= without_id(start, id));
    }

    /// The players, in order.
    pub fn as_slice(&self) -> (r: &[Player])
        ensures
            r@ == self@,
    {
        self.0.as_slice()
    }

    /// Iterates over the players, in order.
    pub fn iter(&self) -> (r: std::slice::Iter<'_, Player>)
        ensures
            vstd::std_specs::iter::IteratorSpec::remaining(&r) == self@.as_ref(),
    {
        self.0.as_slice().iter()
    }

    /// The player at `index`, for editing.
    pub fn player_mut(&mut self, index: usize) -> (r: &mut Player)
        requires
            index < old(self)@.len(),
        ensures
            *r == old(self)@[index as int],
            final(self)@ == old(self)@.update(index as int, *final(r)),
    {
        &mut self.0[index]
    }

    pub fn len(&self) -> (r: usize)
        ensures
            r == self@.len(),
    {
        self.0.len()
    }

    /// Adds a player named "Some Player" whose number is one more than the
    /// largest in use, with the first color that no player has yet (red
    /// when all are taken).
    pub fn push_new(&mut self)
        requires
            max_number(old(self)@) < usize::MAX,
        ensures
            final(self)@.len() == old(self)@.len() + 1,
            final(self)@.take(old(self)@.len() as int) == old(self)@,
            final(self)@.last().id.0 == max_number(old(self)@) + 1,
            final(self)@.last().color == free_color(old(self)@),
            final(self)@.last().name@ == "Some Player"@,
    {
        let mut max: usize = 0;
        let mut i: usize = 0;
        while i < self.0.len()
            invariant
                i <= self.0@.len(),
                max == max_number(self.0@.take(i as int)),
            decreases self.0@.len() - i,
        {
            assert(self.0@.take(i as int + 1).drop_last() =~= self.0@.take(i as int));
            if self.0[i].id.0 > max {
                max = self.0[i].id.0;
            }
            i += 1;
        }
        assert(self.0@.take(i as int) =~= self.0@);
        let color = self.first_free_color();
        let player = Player { id: PlayerID(max + 1), name: String::from_str("Some Player"), color };
        let ghost before = self.0@;
        self.0.push(player);
        assert(self.0@.take(before.len() as int) =~= before);
    }

    fn color_taken(&self, color: PlayerColor) -> (r: bool)
        ensures
            r == color_taken(self@, color),
    {
        let mut i: usize = 0;
        while i < self.0.len()
            invariant
                i <= self.0@.len(),
                forall|j: int| 0 <= j < i ==> self.0@[j].color != color,
            decreases self.0@.len() - i,
        {
            if self.0[i].color == color {
                return true;
            }
            i += 1;
        }
        false
    }

    fn first_free_color(&self) -> (r: PlayerColor)
        ensures
            r == free_color(self@),
    {
        let colors = [PlayerColor::Red, PlayerColor::Purple, PlayerColor::Orange, PlayerColor::Green, PlayerColor::Blue];
        assert(colors@ =~= color_list());
        let mut k: usize = 0;
        while k < 5
            invariant
                k <= 5,
                colors@ == color_list(),
                forall|m: int| 0 <= m < k ==> color_taken(self@, #[trigger] color_list()[m]),
            decreases 5 - k,
        {
            if !self.color_taken(colors[k]) {
                assert(!color_taken(self@, color_list()[k as int]));
                return colors[k];
            }
            k += 1;
        }
        PlayerColor::Red
    }

    /// Why this roster cannot start a round yet; `None` when it can.
    #[verifier::loop_isolation(false)]
    pub fn problem(&self) -> (r: Option<RosterProblem>)
        ensures
            r == roster_problem(self@),
    {
        let n = self.0.len();
        if n < 3 || n > 5 {
            return Some(RosterProblem::PlayerCount);
        }
        let mut labels: Vec<String> = Vec::new();
        let mut i: usize = 0;
        while i < n
            invariant
                n == self.0@.len(),
                i <= n,
                labels@.len() == i,
                forall|j: int| 0 <= j < i ==> (#[trigger] labels@[j])@ == player_color_label(self@[j].color),
            decreases n - i,
        {
            labels.push(String::from_str(self.0[i].color.name()));
            i += 1;
        }
        if !texts_unique(&labels) {
            proof {
                let (a, b) = choose|a: int, b: int|
                    0 <= a < b < labels@.len() && (#[trigger] labels@[a])@ == (#[trigger] labels@[b])@;
                if self@[a].color != self@[b].color {
                    lemma_color_labels_differ(self@[a].color, self@[b].color);
                }
            }
            return Some(RosterProblem::SharedColor);
        }
        assert(colors_distinct(self@)) by {
            assert forall|a: int, b: int| 0 <= a < b < self@.len() implies (#[trigger] self@[a]).color != (#[trigger] self@[b]).color by {
                assert(labels@[a]@ != labels@[b]@);
            }
        }
        let mut i: usize = 0;
        while i < n
            invariant
                n == self.0@.len(),
                i <= n,
                forall|j: int| 0 <= j < i ==> (#[trigger] self@[j]).name@.len() != 0,
            decreases n - i,
        {
            if self.0[i].name.as_str().is_empty() {
                assert(self@[i as int].name@.len() == 0);
                return Some(RosterProblem::EmptyName);
            }
            i += 1;
        }
        let mut names: Vec<String> = Vec::new();
        let mut i: usize = 0;
        while i < n
            invariant
                n == self.0@.len(),
                i <= n,
                names@.len() == i,
                forall|j: int| 0 <= j < i ==> (#[trigger] names@[j])@ == self@[j].name@,
            decreases n - i,
        {
            names.push(self.0[i].name.clone());
            i += 1;
        }
        if !texts_unique(&names) {
            proof {
                let (a, b) = choose|a: int, b: int|
                    0 <= a < b < names@.len() && (#[trigger] names@[a])@ == (#[trigger] names@[b])@;
                assert(self@[a].name@ == self@[b].name@);
            }
            return Some(RosterProblem::SharedName);
        }
        assert(names_distinct(self@)) by {
            assert forall|a: int, b: int| 0 <= a < b < self@.len() implies (#[trigger] self@[a]).name@ != (#[trigger] self@[b]).name@ by {
                assert(names@[a]@ != names@[b]@);
            }
        }
        None
    }
}

} // verus!
