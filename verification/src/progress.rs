//! Progress snapshots and the guarantees the engine gives for the stream
//! of snapshots it reports over one operation.

use vstd::prelude::*;
use crate::digits::{dec_rep, append_dec};

verus! {

/// An immutable report of an operation's state at one instant.
pub struct ProgressInfo {
    /// Bytes processed so far.
    pub current_bytes: u64,
    /// Total bytes of the whole operation.
    pub total_bytes: u64,
    /// The part being processed, counted from one.
    pub current_part: usize,
    /// How many parts the whole operation covers.
    pub total_parts: usize,
    /// A short human-readable status text.
    pub message: String,
}

/// The completion percentage of a snapshot, rounded down; zero when the
/// total is zero.
pub open spec fn percentage_spec(p: ProgressInfo) -> int {
    if p.total_bytes == 0 {
        0
    } else {
        (p.current_bytes * 100) / (p.total_bytes as int)
    }
}

impl ProgressInfo {
    /// The completion percentage in whole percent, rounded down; zero when
    /// the total is zero.
    pub fn percentage(&self) -> (r: u64)
        requires
            self.current_bytes <= self.total_bytes,
        ensures
            r == percentage_spec(*self),
            r <= 100,
    {
        if self.total_bytes == 0 {
            0
        } else {
            let v = (self.current_bytes as u128) * 100 / (self.total_bytes as u128);
            proof {
                vstd::arithmetic::div_mod::lemma_multiply_divide_le(
                    self.current_bytes * 100,
                    self.total_bytes as int,
                    100,
                );
            }
            v as u64
        }
    }
}

/// Every reported byte count is at least the one reported just before it.
pub open spec fn events_monotone(ev: Seq<ProgressInfo>) -> bool {
    forall|k: int|
        0 <= k && k + 1 < ev.len() ==> (#[trigger] ev[k]).current_bytes <= ev[
            k + 1
        ].current_bytes
}

/// What the engine guarantees of the snapshot stream of one operation over
/// `total` bytes in `nparts` parts: there is at least the terminal event;
/// byte counts never decrease and never pass the total; every snapshot
/// carries the same totals; and the last snapshot reports the operation
/// complete.
pub open spec fn events_wf(ev: Seq<ProgressInfo>, total: int, nparts: int) -> bool {
    &&& ev.len() >= 1
    &&& events_monotone(ev)
    &&& (forall|k: int|
        0 <= k < ev.len() ==> {
            &&& (#[trigger] ev[k]).total_bytes == total
            &&& ev[k].current_bytes <= total
            &&& ev[k].total_parts == nparts
            &&& ev[k].current_part <= nparts
        })
    &&& ev.last().current_bytes == total
    &&& ev.last().current_part == nparts
}

/// Appending a snapshot that reports at least as many bytes as the last
/// one keeps the stream monotone.
pub proof fn lemma_events_monotone_push(ev: Seq<ProgressInfo>, e: ProgressInfo)
    requires
        events_monotone(ev),
        ev.len() >= 1 ==> ev.last().current_bytes <= e.current_bytes,
    ensures
        events_monotone(ev.push(e)),
{
    let ev2 = ev.push(e);
    assert forall|k: int| 0 <= k && k + 1 < ev2.len() implies (#[trigger] ev2[k]).current_bytes
        <= ev2[k + 1].current_bytes by {
        if k + 1 < ev.len() {
            assert(ev2[k] == ev[k]);
            assert(ev2[k + 1] == ev[k + 1]);
        } else {
            assert(k == ev.len() - 1);
            assert(ev2[k] == ev.last());
            assert(ev2[k + 1] == e);
        }
    }
}

/// The status text reported while part `p` of `n` is being written.
pub open spec fn split_message_spec(p: int, n: int) -> Seq<char> {
    "Splitting part "@ + dec_rep(p) + "/"@ + dec_rep(n)
}

/// The status text reported while part `p` of `n` is being read back.
pub open spec fn join_message_spec(p: int, n: int) -> Seq<char> {
    "Joining part "@ + dec_rep(p) + "/"@ + dec_rep(n)
}

/// Builds the status text for part `p` of `n` of a split.
pub fn split_message(p: u64, n: u64) -> (r: String)
    ensures
        r@ == split_message_spec(p as int, n as int),
{
    let mut s = "Splitting part ".to_owned();
    append_dec(&mut s, p);
    s.append("/");
    append_dec(&mut s, n);
    proof {
        assert(s@ =~= split_message_spec(p as int, n as int));
    }
    s
}

/// Builds the status text for part `p` of `n` of a join.
pub fn join_message(p: u64, n: u64) -> (r: String)
    ensures
        r@ == join_message_spec(p as int, n as int),
{
    let mut s = "Joining part ".to_owned();
    append_dec(&mut s, p);
    s.append("/");
    append_dec(&mut s, n);
    proof {
        assert(s@ =~= join_message_spec(p as int, n as int));
    }
    s
}

} // verus!
