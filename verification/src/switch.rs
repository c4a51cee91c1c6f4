//! Per-level switch scheduler.
//!
//! A small randomized event-scheduling state machine: it lazily generates a
//! sparse schedule of (player, timestamp) switch events, appending each to
//! an append-only history. A query for a timestamp earlier than the last
//! recorded event replays that event unchanged, so concurrent observers who
//! ask at slightly different times converge on the same schedule.

use vstd::prelude::*;

use rand::Rng;

use crate::data::SwitchData;

verus! {

/// Smallest delay between two switch events, in milliseconds of the
/// gameplay clock.
pub const MIN_SWITCH_DELAY: u64 = 2000;

/// One past the largest delay between two switch events, in milliseconds.
pub const MAX_SWITCH_DELAY: u64 = 5000;

/// Mathematical state of a [`SwitchManager`].
pub ghost struct SwitchView {
    pub players: Seq<i32>,
    pub history: Seq<SwitchData>,
    pub last_death_ts: u64,
}

impl SwitchView {
    /// History timestamps are non-decreasing.
    pub open spec fn wf(self) -> bool {
        forall|i: int, j: int|
            0 <= i <= j < self.history.len()
                ==> self.history[i].timestamp <= self.history[j].timestamp
    }
}

/// `a + d`, saturating at the top of the `u64` range.
pub open spec fn sat_add(a: u64, d: u64) -> u64 {
    if a + d > u64::MAX {
        u64::MAX
    } else {
        (a + d) as u64
    }
}

/// The timestamp a fresh event's delay is measured from: the last recorded
/// event's, or the clock origin for an empty history.
pub open spec fn start_of(history: Seq<SwitchData>) -> u64 {
    if history.len() > 0 {
        history.last().timestamp
    } else {
        0u64
    }
}

/// The event an already-generated schedule owes to a query at `t`:
/// the last recorded event, whenever `t` lies strictly before it.
pub open spec fn replay_result(history: Seq<SwitchData>, t: u64) -> Option<SwitchData> {
    if history.len() > 0 && t < history.last().timestamp {
        Some(history.last())
    } else {
        None
    }
}

/// Full relation between the scheduler state before and after
/// `get_next_switch(t)` returned `r`.
pub open spec fn next_switch_post(pre: SwitchView, post: SwitchView, t: u64, r: SwitchData) -> bool {
    &&& post.players == pre.players
    &&& post.last_death_ts == pre.last_death_ts
    // no eligible players: a zero sentinel event, nothing recorded
    &&& pre.players.len() == 0 ==> {
        &&& r == (SwitchData { player: 0, timestamp: 0 })
        &&& post.history == pre.history
    }
    // idempotent replay of a late or duplicate query
    &&& pre.players.len() > 0 && replay_result(pre.history, t) is Some ==> {
        &&& r == pre.history.last()
        &&& post.history == pre.history
    }
    // a new event is generated and recorded
    &&& pre.players.len() > 0 && replay_result(pre.history, t) is None ==> {
        &&& post.history == pre.history.push(r)
        &&& pre.players.contains(r.player)
        &&& exists|d: u64|
            MIN_SWITCH_DELAY <= d < MAX_SWITCH_DELAY
                && r.timestamp == #[trigger] sat_add(start_of(pre.history), d)
        // no immediate repeat, whenever any eligible entry differs from the
        // previous event's player
        &&& pre.history.len() > 0 && (exists|j: int|
            0 <= j < pre.players.len() && pre.players[j] != pre.history.last().player)
            ==> r.player != pre.history.last().player
    }
}

/// Convergence law for late queries: two queries whose timestamps both
/// lie strictly before the last recorded event's return that identical
/// event, and `get_next_switch` leaves the state unchanged for them — so
/// observers polling at slightly different times agree on the schedule.
pub proof fn lemma_replay_convergence(history: Seq<SwitchData>, t1: u64, t2: u64)
    requires
        history.len() > 0,
        t1 <= t2,
        t2 < history.last().timestamp,
    ensures
        replay_result(history, t1) == replay_result(history, t2),
        replay_result(history, t1) == Some(history.last()),
{
}

/// Per-level scheduler state: the eligible players (a copy of the level's
/// membership, refreshed by the owning registry), the append-only event
/// history, and the externally-consumed last-death timestamp.
pub struct SwitchManager {
    players_: Vec<i32>,
    history: Vec<SwitchData>,
    pub last_death_ts: u64,
}

impl View for SwitchManager {
    type V = SwitchView;

    closed spec fn view(&self) -> SwitchView {
        SwitchView {
            players: self.players_@,
            history: self.history@,
            last_death_ts: self.last_death_ts,
        }
    }
}

impl SwitchManager {
    /// History timestamps are non-decreasing.
    pub open spec fn wf(self) -> bool {
        self@.wf()
    }

    pub fn new() -> (r: Self)
        ensures
            r@.players == Seq::<i32>::empty(),
            r@.history == Seq::<SwitchData>::empty(),
            r@.last_death_ts == 0u64,
            r.wf(),
    {
        SwitchManager { players_: Vec::new(), history: Vec::new(), last_death_ts: 0 }
    }

    /// Forget the generated schedule (level reset / death condition
    /// signalled externally).
    pub fn reset(&mut self)
        ensures
            final(self)@.history == Seq::<SwitchData>::empty(),
            final(self)@.players == old(self)@.players,
            final(self)@.last_death_ts == old(self)@.last_death_ts,
            final(self).wf(),
    {
        self.history.clear();
    }

    /// The currently-eligible players.
    pub fn players(&self) -> (r: &Vec<i32>)
        ensures
            r@ == self@.players,
    {
        &self.players_
    }

    /// Replace the eligible players with a fresh copy of the level's
    /// membership.
    pub fn set_players(&mut self, players: Vec<i32>)
        ensures
            final(self)@.players == players@,
            final(self)@.history == old(self)@.history,
            final(self)@.last_death_ts == old(self)@.last_death_ts,
            old(self).wf() ==> final(self).wf(),
    {
        self.players_ = players;
    }

    /// The recorded event history, oldest first.
    pub fn history(&self) -> (r: &Vec<SwitchData>)
        ensures
            r@ == self@.history,
    {
        &self.history
    }

    /// Answer a query of the gameplay clock at `timestamp`: replay the last
    /// event for a query it still covers, otherwise generate, record and
    /// return a fresh event whose player is drawn from the eligible players
    /// — never the immediately preceding event's player while at least two
    /// players are eligible.
    pub fn get_next_switch(&mut self, timestamp: u64) -> (r: SwitchData)
        requires
            old(self).wf(),
        ensures
            final(self).wf(),
            next_switch_post(old(self)@, final(self)@, timestamp, r),
    {
        if self.players_.is_empty() {
            return SwitchData { player: 0, timestamp: 0 };
        }

        let mut start_ts: u64 = 0;
        let mut have_last = false;
        let mut last_player: i32 = 0;

        if self.history.len() > 0 {
            let last = self.history[self.history.len() - 1];
            if timestamp < last.timestamp {
                return last;
            }
            start_ts = last.timestamp;
            have_last = true;
            last_player = last.player;
        }

        let delay = rand_delay();
        let next_ts = if start_ts > u64::MAX - delay {
            u64::MAX
        } else {
            start_ts + delay
        };
        proof {
            assert(next_ts == sat_add(start_ts, delay));
        }

        // draw the next player, excluding the previous event's player
        // whenever that still leaves a choice
        let next_player: i32;
        if have_last {
            let mut candidates: Vec<i32> = Vec::new();
            let mut i: usize = 0;
            while i < self.players_.len()
                invariant
                    i <= self.players_@.len(),
                    forall|j: int| 0 <= j < candidates@.len()
                        ==> self.players_@.contains(#[trigger] candidates@[j])
                            && candidates@[j] != last_player,
                    forall|j: int| 0 <= j < i && self.players_@[j] != last_player
                        ==> candidates@.contains(#[trigger] self.players_@[j]),
                decreases self.players_@.len() - i,
            {
                let ghost pre = candidates@;
                let p = self.players_[i];
                if p != last_player {
                    candidates.push(p);
                    proof {
                        assert forall|x: i32| pre.contains(x) implies candidates@.contains(x) by {
                            let l = choose|l: int| 0 <= l < pre.len() && pre[l] == x;
                            assert(candidates@[l] == x);
                        }
                        assert(candidates@[pre.len() as int] == p);
                        assert(self.players_@[i as int] == p);
                        assert(self.players_@.contains(p));
                    }
                }
                i = i + 1;
            }
            if candidates.is_empty() {
                // every eligible entry equals the previous player; repetition
                // is unavoidable
                proof {
                    assert forall|j: int| 0 <= j < self.players_@.len()
                        implies self.players_@[j] == last_player by {
                        if self.players_@[j] != last_player {
                            assert(candidates@.contains(self.players_@[j]));
                        }
                    }
                }
                next_player = last_player;
                proof {
                    assert(self.players_@[0] == last_player);
                    assert(self.players_@.contains(next_player));
                }
            } else {
                let idx = rand_below(candidates.len());
                next_player = candidates[idx];
                proof {
                    assert(self.players_@.contains(next_player));
                    assert(next_player != last_player);
                }
            }
        } else {
            let idx = rand_below(self.players_.len());
            next_player = self.players_[idx];
            proof {
                assert(self.players_@[idx as int] == next_player);
                assert(self.players_@.contains(next_player));
            }
        }

        let data = SwitchData { player: next_player, timestamp: next_ts };
        proof {
            assert(start_of(old(self)@.history) == start_ts);
            assert(MIN_SWITCH_DELAY <= delay < MAX_SWITCH_DELAY
                && data.timestamp == sat_add(start_of(old(self)@.history), delay));
            assert(replay_result(old(self)@.history, timestamp) is None);
            assert(old(self)@.players.contains(data.player));
            if old(self)@.history.len() > 0 && (exists|j: int|
                0 <= j < old(self)@.players.len()
                    && old(self)@.players[j] != old(self)@.history.last().player) {
                assert(data.player != old(self)@.history.last().player);
            }
        }
        let ghost pre_hist = self.history@;
        self.history.push(data);
        proof {
            assert(self.history@ == pre_hist.push(data));
            assert forall|a: int, b: int| 0 <= a <= b < self.history@.len()
                implies self.history@[a].timestamp <= self.history@[b].timestamp by {
                if b < pre_hist.len() {
                } else {
                    assert(self.history@[b] == data);
                    if a < pre_hist.len() {
                        if pre_hist.len() > 0 {
                            assert(pre_hist[a].timestamp <= pre_hist[pre_hist.len() - 1].timestamp);
                        }
                    }
                }
            }
            let pre2 = old(self)@;
            let post2 = self@;
            let g = pre2.players.len() > 0 && replay_result(pre2.history, timestamp) is None;
            assert(g ==> exists|d: u64|
                MIN_SWITCH_DELAY <= d < MAX_SWITCH_DELAY
                    && data.timestamp == #[trigger] sat_add(start_of(pre2.history), d));
            assert(g ==> (pre2.history.len() > 0 && (exists|j: int|
                0 <= j < pre2.players.len() && pre2.players[j] != pre2.history.last().player)
                ==> data.player != pre2.history.last().player));
            assert(next_switch_post(old(self)@, self@, timestamp, data));
        }
        data
    }
}

impl Clone for SwitchManager {
    fn clone(&self) -> (r: Self)
        ensures
            r@ == self@,
    {
        SwitchManager {
            players_: crate::data::copy_vec(&self.players_),
            history: crate::data::copy_vec(&self.history),
            last_death_ts: self.last_death_ts,
        }
    }
}

/// Relies on rand's `Rng::gen_range` over `low..high`: the result is
/// uniformly drawn from the half-open range, which here is never empty.
#[verifier::external_body]
fn rand_delay() -> (r: u64)
    ensures
        MIN_SWITCH_DELAY <= r < MAX_SWITCH_DELAY,
{
    rand::thread_rng().gen_range(MIN_SWITCH_DELAY..MAX_SWITCH_DELAY)
}

/// Relies on rand's `Rng::gen_range` over `0..n`: the result is uniformly
/// drawn below `n`; the range is non-empty by the precondition.
#[verifier::external_body]
fn rand_below(n: usize) -> (r: usize)
    requires
        n > 0,
    ensures
        r < n,
{
    rand::thread_rng().gen_range(0..n)
}

} // verus!
