use vstd::prelude::*;

use crate::cell::OwnedCells;

verus! {

/// One deposit of a frame with latest-biased eviction: when the buffer is
/// already at capacity `max`, the oldest frame (index 0) leaves first, so
/// the new frame is never the one dropped and the length never exceeds
/// `max`.
pub open spec fn deposit_model(s: Seq<OwnedCells>, max: int, f: OwnedCells) -> Seq<OwnedCells> {
    if s.len() < max {
        s.push(f)
    } else {
        s.skip(1).push(f)
    }
}

/// One operation on the relay buffer, for stating how whole histories of
/// interleaved calls behave.
pub enum BufferOp {
    Deposit(OwnedCells),
    Drain,
}

/// The frames deposited over a history of operations, in deposit order.
pub open spec fn deposits_of(ops: Seq<BufferOp>) -> Seq<OwnedCells>
    decreases ops.len(),
{
    if ops.len() == 0 {
        Seq::empty()
    } else {
        let rest = deposits_of(ops.drop_last());
        match ops.last() {
            BufferOp::Deposit(f) => rest.push(f),
            BufferOp::Drain => rest,
        }
    }
}

/// The buffer contents after a history of operations, starting empty:
/// each `Deposit` follows `deposit_model`, each `Drain` removes the oldest
/// frame if there is one.
pub open spec fn run_frames(ops: Seq<BufferOp>, max: int) -> Seq<OwnedCells>
    decreases ops.len(),
{
    if ops.len() == 0 {
        Seq::empty()
    } else {
        let prev = run_frames(ops.drop_last(), max);
        match ops.last() {
            BufferOp::Deposit(f) => deposit_model(prev, max, f),
            BufferOp::Drain => if prev.len() > 0 {
                prev.skip(1)
            } else {
                prev
            },
        }
    }
}

/// The frames a history of operations hands out, in drain order.
pub open spec fn run_outputs(ops: Seq<BufferOp>, max: int) -> Seq<OwnedCells>
    decreases ops.len(),
{
    if ops.len() == 0 {
        Seq::empty()
    } else {
        let prev_out = run_outputs(ops.drop_last(), max);
        let prev = run_frames(ops.drop_last(), max);
        match ops.last() {
            BufferOp::Deposit(f) => prev_out,
            BufferOp::Drain => if prev.len() > 0 {
                prev_out.push(prev[0])
            } else {
                prev_out
            },
        }
    }
}

/// For each successful drain of a history, the position within
/// `deposits_of` of the frame it returned.
pub open spec fn run_drain_indices(ops: Seq<BufferOp>, max: int) -> Seq<int>
    decreases ops.len(),
{
    if ops.len() == 0 {
        Seq::empty()
    } else {
        let prev_idx = run_drain_indices(ops.drop_last(), max);
        let prev = run_frames(ops.drop_last(), max);
        match ops.last() {
            BufferOp::Deposit(f) => prev_idx,
            BufferOp::Drain => if prev.len() > 0 {
                prev_idx.push(deposits_of(ops.drop_last()).len() - prev.len())
            } else {
                prev_idx
            },
        }
    }
}

/// Drain ordering: over any history of interleaved deposits and drains on
/// an initially empty buffer of capacity `max`, the buffer length never
/// exceeds `max`, the buffer always holds a suffix of the deposited frames
/// in deposit order, and the drained frames are deposited frames taken at
/// strictly increasing deposit positions — no reordering, no duplication,
/// the skipped positions being exactly the evicted frames.
pub proof fn lemma_relay_run(ops: Seq<BufferOp>, max: int)
    requires
        1 <= max,
    ensures
        run_frames(ops, max).len() <= max,
        run_frames(ops, max).len() <= deposits_of(ops).len(),
        run_frames(ops, max) == deposits_of(ops).skip(
            deposits_of(ops).len() - run_frames(ops, max).len(),
        ),
        run_outputs(ops, max).len() == run_drain_indices(ops, max).len(),
        forall|i: int|
            0 <= i < run_drain_indices(ops, max).len() ==> 0 <= #[trigger] run_drain_indices(
                ops,
                max,
            )[i] && run_drain_indices(ops, max)[i] < deposits_of(ops).len() - run_frames(
                ops,
                max,
            ).len() && run_outputs(ops, max)[i] == deposits_of(ops)[run_drain_indices(ops, max)[i]],
        forall|i: int, j: int|
            0 <= i < j < run_drain_indices(ops, max).len() ==> #[trigger] run_drain_indices(
                ops,
                max,
            )[i] < #[trigger] run_drain_indices(ops, max)[j],
    decreases ops.len(),
{
    if ops.len() == 0 {
    } else {
        let pre = ops.drop_last();
        lemma_relay_run(pre, max);
        let dep = deposits_of(pre);
        let frames = run_frames(pre, max);
        let k = dep.len() - frames.len();
        match ops.last() {
            BufferOp::Deposit(f) => {
                assert(deposits_of(ops) == dep.push(f));
                if frames.len() < max {
                    assert(run_frames(ops, max) =~= dep.push(f).skip(k));
                } else {
                    assert(run_frames(ops, max) =~= dep.push(f).skip(k + 1));
                }
                assert forall|i: int| 0 <= i < run_drain_indices(ops, max).len() implies 0
                    <= #[trigger] run_drain_indices(ops, max)[i] && run_drain_indices(ops, max)[i]
                    < deposits_of(ops).len() - run_frames(ops, max).len() && run_outputs(ops, max)[i]
                    == deposits_of(ops)[run_drain_indices(ops, max)[i]] by {
                    assert(run_drain_indices(ops, max)[i] == run_drain_indices(pre, max)[i]);
                    assert(run_drain_indices(pre, max)[i] < k);
                    assert(deposits_of(ops)[run_drain_indices(ops, max)[i]] == dep[run_drain_indices(
                        pre,
                        max,
                    )[i]]);
                }
            },
            BufferOp::Drain => {
                if frames.len() > 0 {
                    assert(run_frames(ops, max) =~= dep.skip(k + 1));
                    assert(frames[0] == dep[k]);
                    assert forall|i: int| 0 <= i < run_drain_indices(ops, max).len() implies 0
                        <= #[trigger] run_drain_indices(ops, max)[i] && run_drain_indices(
                        ops,
                        max,
                    )[i] < deposits_of(ops).len() - run_frames(ops, max).len() && run_outputs(
                        ops,
                        max,
                    )[i] == deposits_of(ops)[run_drain_indices(ops, max)[i]] by {
                        if i < run_drain_indices(pre, max).len() {
                            assert(run_drain_indices(ops, max)[i] == run_drain_indices(pre, max)[i]);
                        } else {
                            assert(run_drain_indices(ops, max)[i] == k);
                            assert(run_outputs(ops, max)[i] == frames[0]);
                        }
                    }
                }
            },
        }
    }
}

/// Eviction bound: over any history of deposits alone on an initially
/// empty buffer of capacity `max`, the buffer length never exceeds `max`,
/// and after `max + k` deposits (`k >= 0`) the buffer holds exactly the
/// last `max` deposited frames in deposit order.
pub proof fn lemma_eviction_bound(ops: Seq<BufferOp>, max: int)
    requires
        1 <= max,
        forall|i: int| 0 <= i < ops.len() ==> ops[i] is Deposit,
    ensures
        run_frames(ops, max).len() <= max,
        deposits_of(ops).len() <= max ==> run_frames(ops, max) == deposits_of(ops),
        deposits_of(ops).len() > max ==> run_frames(ops, max) == deposits_of(ops).skip(
            deposits_of(ops).len() - max,
        ),
    decreases ops.len(),
{
    lemma_relay_run(ops, max);
    if ops.len() == 0 {
        assert(run_frames(ops, max) =~= deposits_of(ops));
    } else {
        let pre = ops.drop_last();
        assert(forall|i: int| 0 <= i < pre.len() ==> pre[i] == ops[i]);
        lemma_eviction_bound(pre, max);
        assert(ops[ops.len() - 1] is Deposit);
        let dep = deposits_of(pre);
        let frames = run_frames(pre, max);
        if dep.len() <= max {
            if frames.len() < max {
                assert(run_frames(ops, max) =~= deposits_of(ops));
            }
        }
    }
}

/// ordered sequence of frames, oldest first, of at most `max` entries.
/// Deposits enter at the newest end; drains leave from the oldest end;
/// under overflow the oldest entry is evicted to make room.
pub struct Holder {
    frames: Vec<OwnedCells>,
    max: usize,
}

impl Holder {
    /// The buffered frames, oldest first.
    pub closed spec fn frames_seq(&self) -> Seq<OwnedCells> {
        self.frames@
    }

    /// The capacity bound `MAX`, fixed at construction.
    pub closed spec fn cap(&self) -> int {
        self.max as int
    }

    pub open spec fn wf(&self) -> bool {
        &&& 1 <= self.cap()
        &&& self.frames_seq().len() <= self.cap()
    }

    /// An empty buffer of capacity `max`.
    pub fn new(max: usize) -> (h: Holder)
        requires
            1 <= max,
        ensures
            h.wf(),
            h.cap() == max,
            h.frames_seq() == Seq::<OwnedCells>::empty(),
    {
        Holder { frames: Vec::new(), max }
    }

    pub fn len(&self) -> (n: usize)
        ensures
            n == self.frames_seq().len(),
    {
        self.frames.len()
    }

    pub fn capacity(&self) -> (n: usize)
        ensures
            n == self.cap(),
    {
        self.max
    }

    /// Insert `frame` at the newest end. If the buffer is at capacity the
    /// single oldest frame is evicted first, so the length stays at the
    /// capacity and the new frame is always kept.
    pub fn deposit(&mut self, frame: OwnedCells)
        requires
            old(self).wf(),
        ensures
            final(self).wf(),
            final(self).cap() == old(self).cap(),
            final(self).frames_seq() == deposit_model(
                old(self).frames_seq(),
                old(self).cap(),
                frame,
            ),
    {
        if self.frames.len() == self.max {
            let _evicted = self.frames.remove(0);
            proof {
                assert(self.frames@ =~= old(self).frames@.skip(1));
            }
        }
        self.frames.push(frame);
    }

    /// Remove and return the oldest frame, or return nothing when the
    /// buffer is empty — an empty drain is a no-op, not an error, and
    /// leaves the length at 0.
    pub fn drain_one(&mut self) -> (drained: Option<OwnedCells>)
        requires
            old(self).wf(),
        ensures
            final(self).wf(),
            final(self).cap() == old(self).cap(),
            old(self).frames_seq().len() == 0 ==> drained is None && final(self).frames_seq()
                == old(self).frames_seq(),
            old(self).frames_seq().len() > 0 ==> drained == Some(old(self).frames_seq()[0])
                && final(self).frames_seq() == old(self).frames_seq().skip(1),
    {
        if self.frames.len() == 0 {
            None
        } else {
            let front = self.frames.remove(0);
            proof {
                assert(self.frames@ =~= old(self).frames@.skip(1));
            }
            Some(front)
        }
    }
}

} // verus!
