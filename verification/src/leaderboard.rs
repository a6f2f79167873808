//! The maze variant's finish-time leaderboard: entries kept sorted by
//! elapsed milliseconds, fastest first, and the split of a millisecond
//! count into the seconds and milliseconds the timer display shows.

use vstd::prelude::*;

verus! {

/// One leaderboard row: who finished, and in how many milliseconds.
#[derive(Clone, Debug)]
pub struct LeaderEntry {
    pub name: String,
    pub millis: u64,
}

/// Entries ordered fastest first.
pub open spec fn sorted_by_millis(s: Seq<LeaderEntry>) -> bool {
    forall|i: int, j: int| 0 <= i < j < s.len() ==> s[i].millis <= s[j].millis
}

/// Where a new time slots in: the first index whose entry is slower,
/// so equal times keep their arrival order.
pub open spec fn spec_insert_pos(s: Seq<LeaderEntry>, m: u64, k: int) -> int
    decreases s.len() - k,
{
    if k < 0 || k >= s.len() {
        s.len() as int
    } else if s[k].millis > m {
        k
    } else {
        spec_insert_pos(s, m, k + 1)
    }
}

/// Record a finish on the board, keeping it sorted fastest first;
/// equal times stay in arrival order.
pub fn record(board: &mut Vec<LeaderEntry>, entry: LeaderEntry)
    requires
        sorted_by_millis(old(board)@),
    ensures
        final(board)@ == old(board)@.insert(
            spec_insert_pos(old(board)@, entry.millis, 0),
            entry,
        ),
        final(board)@.len() == old(board)@.len() + 1,
        sorted_by_millis(final(board)@),
{
    let m = entry.millis;
    let mut pos: usize = 0;
    while pos < board.len() && board[pos].millis <= m
        invariant
            sorted_by_millis(board@),
            board@ == old(board)@,
            pos <= board@.len(),
            m == entry.millis,
            spec_insert_pos(board@, m, 0) == spec_insert_pos(board@, m, pos as int),
            forall|k: int| 0 <= k < pos ==> board@[k].millis <= m,
        decreases board@.len() - pos,
    {
        pos = pos + 1;
    }
    proof {
        assert(spec_insert_pos(board@, m, pos as int) == pos);
        let s0 = board@;
        let p = pos as int;
        assert forall|k: int| p <= k < s0.len() implies s0[k].millis > m by {
            if p < k {
                assert(s0[p].millis <= s0[k].millis);
            }
        }
        assert forall|i: int, j: int|
            0 <= i < j < s0.insert(p, entry).len() implies s0.insert(p, entry)[i].millis
            <= s0.insert(p, entry)[j].millis by {
            let t = s0.insert(p, entry);
            if j < p {
                assert(t[i] == s0[i] && t[j] == s0[j]);
            } else if i > p {
                assert(t[i] == s0[i - 1] && t[j] == s0[j - 1]);
            } else if i == p {
                assert(t[i] == entry && t[j] == s0[j - 1]);
            } else if j == p {
                assert(t[i] == s0[i] && t[j] == entry);
            } else {
                assert(t[i] == s0[i] && t[j] == s0[j - 1]);
            }
        }
    }
    board.insert(pos, entry);
}

/// Split elapsed milliseconds into whole seconds and the millisecond
/// remainder, as the timer display shows them.
pub fn timer_parts(ms: u64) -> (r: (u64, u64))
    ensures
        r.0 == ms / 1000,
        r.1 == ms % 1000,
        r.1 < 1000,
        r.0 * 1000 + r.1 == ms,
{
    proof {
        vstd::arithmetic::div_mod::lemma_fundamental_div_mod(ms as int, 1000);
    }
    (ms / 1000, ms % 1000)
}

} // verus!
