//! What holds of every run of the writer, whatever the sink answers.

use crate::align::lemma_round_down;
use crate::model::{
    lemma_acknowledge, lemma_begin_write, lemma_close, lemma_geometry, Phase, Step, WriterView,
};
use vstd::prelude::*;

verus! {

impl WriterView {
    /// Whether the sink can give `count` as its answer to the request of
    /// this phase: the full buffer leaves whole, and otherwise the sink
    /// takes no more than it was offered.
    pub open spec fn admits(self, count: usize) -> bool {
        match self.phase {
            Phase::Staged { .. } => count == self.capacity,
            _ => count <= self.requested().len(),
        }
    }

    /// Whether the sink can give `counts`, one after the other, as its
    /// answers to the requests of the operation in progress.
    pub open spec fn admits_all(self, counts: Seq<usize>) -> bool
        decreases counts.len(),
    {
        if !self.requested_of_sink() || counts.len() == 0 {
            true
        } else {
            self.admits(counts[0]) && self.acknowledge(counts[0]).0.admits_all(counts.skip(1))
        }
    }

    /// The state after the sink has answered the requests of the operation
    /// in progress with `counts`, one after the other, as far as the
    /// operation asks.
    pub open spec fn run(self, counts: Seq<usize>) -> WriterView
        decreases counts.len(),
    {
        if !self.requested_of_sink() || counts.len() == 0 {
            self
        } else {
            self.acknowledge(counts[0]).0.run(counts.skip(1))
        }
    }

    /// The state in which a flush asks the sink for the staged tail, or,
    /// with nothing staged, for the flags to be restored: every call on
    /// the handle so far succeeded, and the handle reported `flags` as its
    /// mode.
    pub open spec fn relaxed(self, flags: i32) -> WriterView {
        self.begin_flush().0.mode_answer(flags).0.mode_answer(0).0
    }

    /// The state after a flush in which every call on the handle
    /// succeeded, the handle reported `flags` as its mode, and the sink
    /// answered the requests for the staged tail with `counts`. The flush
    /// has come to its end where this state is idle.
    pub open spec fn flushed(self, flags: i32, counts: Seq<usize>) -> WriterView {
        let drained = self.relaxed(flags).run(counts);
        if drained.phase is Restoring {
            drained.mode_answer(0).0
        } else {
            drained
        }
    }
}

/// Acceptance: a write that is done has accepted the whole input, at its
/// start and after any answer of the sink.
pub proof fn lemma_acceptance(v: WriterView, buf: Seq<u8>, count: usize)
    requires
        v.wf(),
        buf.len() <= usize::MAX,
    ensures
        v.phase is Idle ==> (v.begin_write(buf).1 is Written ==> v.begin_write(buf).1
            == Step::Written(buf.len() as usize)),
        v.on_aligned_path() ==> (v.acknowledge(count).1 is Written ==> v.acknowledge(count).1
            == Step::Written(v.input.len() as usize)),
        v.phase is Idle ==> v.begin_write(buf).0.accepted == v.accepted + buf,
        v.on_aligned_path() ==> v.acknowledge(count).0.accepted == v.accepted,
{
}

/// Alignment: every request along the aligned path is a positive whole
/// number of blocks.
pub proof fn lemma_aligned_requests(v: WriterView)
    requires
        v.wf(),
        v.on_aligned_path(),
    ensures
        v.requested().len() > 0,
        v.requested().len() % v.block_size == 0,
{
    lemma_geometry(v.block_size, v.capacity);
    match v.phase {
        Phase::Direct { pos, .. } => {
            lemma_round_down((v.input.len() - pos) as nat, v.block_size);
        },
        _ => {},
    }
}

/// Whatever the sink answers to the requests of a write or of a flush, the
/// invariant holds, the writer answers for the same bytes as before, and
/// what the sink has taken only grows. A write goes on or ends idle; the
/// tail of a flush goes on or ends with the flags to restore.
pub proof fn lemma_run(v: WriterView, counts: Seq<usize>)
    requires
        v.wf(),
        v.admits_all(counts),
    ensures
        v.run(counts).wf(),
        v.run(counts).accepted == v.accepted,
        v.issued.is_prefix_of(v.run(counts).issued),
        !v.requested_of_sink() ==> v.run(counts) == v,
        v.on_aligned_path() ==> v.run(counts).on_aligned_path() || v.run(counts).phase is Idle,
        v.phase is Draining ==> v.run(counts).phase is Draining || v.run(counts).phase
            is Restoring,
    decreases counts.len(),
{
    if v.requested_of_sink() && counts.len() > 0 {
        lemma_acknowledge_admitted(v, counts[0]);
        let next = v.acknowledge(counts[0]).0;
        lemma_run(next, counts.skip(1));
    }
}

/// One answer of the sink: the invariant holds, the writer answers for the
/// same bytes, the sink has taken the bytes it said it took, and the
/// operation goes on or has come to its next stage.
pub proof fn lemma_acknowledge_admitted(v: WriterView, count: usize)
    requires
        v.wf(),
        v.requested_of_sink(),
        v.admits(count),
    ensures
        v.acknowledge(count).0.wf(),
        v.acknowledge(count).0.accepted == v.accepted,
        v.acknowledge(count).0.issued == v.issued + v.requested().take(count as int),
        v.on_aligned_path() ==> v.acknowledge(count).0.on_aligned_path() || v.acknowledge(
            count,
        ).0.phase is Idle,
        v.phase is Draining ==> v.acknowledge(count).0.phase is Draining || v.acknowledge(
            count,
        ).0.phase is Restoring,
        v.acknowledge(count).0.phase is Restoring ==> v.acknowledge(count).0.staged
            == Seq::<u8>::empty(),
{
    lemma_geometry(v.block_size, v.capacity);
    match v.phase {
        Phase::Direct { pos, .. } => {
            lemma_round_down((v.input.len() - pos) as nat, v.block_size);
        },
        _ => {
            if count == v.requested().len() {
                assert(v.requested().take(count as int) =~= v.requested());
            }
        },
    }
    lemma_acknowledge(v, count);
}

/// The tail of a flush that has come to restoring the flags has left
/// nothing staged.
pub proof fn lemma_drained(v: WriterView, counts: Seq<usize>)
    requires
        v.wf(),
        v.phase is Draining,
        v.admits_all(counts),
    ensures
        v.run(counts).phase is Restoring ==> v.run(counts).staged == Seq::<u8>::empty(),
    decreases counts.len(),
{
    if counts.len() > 0 {
        lemma_acknowledge_admitted(v, counts[0]);
        let next = v.acknowledge(counts[0]).0;
        if next.phase is Draining {
            lemma_drained(next, counts.skip(1));
        }
    }
}

/// Whatever the sink takes of the staged tail at each request, a flush in
/// which every call on the handle succeeds keeps the invariant and the
/// bytes that the writer answers for. Where it has come to its end, nothing
/// is staged and the sink has taken exactly the bytes that the writer
/// answers for.
pub proof fn lemma_flush_delivers(v: WriterView, flags: i32, counts: Seq<usize>)
    requires
        v.wf(),
        v.phase is Idle,
        v.relaxed(flags).admits_all(counts),
    ensures
        v.flushed(flags, counts).wf(),
        v.flushed(flags, counts).accepted == v.accepted,
        v.issued.is_prefix_of(v.flushed(flags, counts).issued),
        v.flushed(flags, counts).phase is Idle || v.flushed(flags, counts).phase is Draining,
        v.flushed(flags, counts).phase is Idle ==> {
            &&& v.flushed(flags, counts).settled()
            &&& v.flushed(flags, counts).issued == v.accepted
        },
{
    let relaxed = v.relaxed(flags);
    lemma_run(relaxed, counts);
    let drained = relaxed.run(counts);
    if relaxed.phase is Draining {
        lemma_drained(relaxed, counts);
    }
    if drained.phase is Restoring {
        assert(drained.staged.len() == 0);
        assert(drained.issued + drained.staged =~= drained.issued);
    }
}

/// Round trip: after a write that has run to its end and a flush that has
/// run to its end, whatever the sink took at each request on the way, the
/// sink has taken what the writer answered for before, followed by the
/// input, and nothing else; the writer can then be closed.
pub proof fn lemma_round_trip(
    v: WriterView,
    buf: Seq<u8>,
    counts: Seq<usize>,
    flags: i32,
    tail: Seq<usize>,
)
    requires
        v.wf(),
        v.phase is Idle,
        buf.len() <= usize::MAX,
        v.begin_write(buf).0.admits_all(counts),
        !v.begin_write(buf).0.run(counts).on_aligned_path(),
        v.begin_write(buf).0.run(counts).relaxed(flags).admits_all(tail),
        v.begin_write(buf).0.run(counts).flushed(flags, tail).phase is Idle,
    ensures
        ({
            let written = v.begin_write(buf).0.run(counts);
            let end = written.flushed(flags, tail);
            &&& written.wf()
            &&& written.phase is Idle
            &&& written.accepted == v.accepted + buf
            &&& end.wf()
            &&& end.settled()
            &&& end.issued == v.accepted + buf
        }),
{
    lemma_written(v, buf, counts);
    lemma_flush_delivers(v.begin_write(buf).0.run(counts), flags, tail);
}

/// A write that has run to its end, whatever the sink took at each request
/// on the way, leaves the writer idle, and the writer then answers for what
/// it answered for before, followed by the input.
pub proof fn lemma_written(v: WriterView, buf: Seq<u8>, counts: Seq<usize>)
    requires
        v.wf(),
        v.phase is Idle,
        buf.len() <= usize::MAX,
        v.begin_write(buf).0.admits_all(counts),
        !v.begin_write(buf).0.run(counts).on_aligned_path(),
    ensures
        v.begin_write(buf).0.run(counts).wf(),
        v.begin_write(buf).0.run(counts).phase is Idle,
        v.begin_write(buf).0.run(counts).accepted == v.accepted + buf,
{
    lemma_begin_write(v, buf);
    lemma_run(v.begin_write(buf).0, counts);
}

/// One call of a session: the input of a write, and the answers of the sink
/// to the requests of that write.
pub ghost struct WriteCall {
    pub buf: Seq<u8>,
    pub counts: Seq<usize>,
}

/// The inputs of the calls, one behind the other.
pub open spec fn inputs(calls: Seq<WriteCall>) -> Seq<u8>
    decreases calls.len(),
{
    if calls.len() == 0 {
        Seq::empty()
    } else {
        inputs(calls.drop_last()) + calls.last().buf
    }
}

impl WriterView {
    /// The state after the writes of `calls`, one after the other.
    pub open spec fn session(self, calls: Seq<WriteCall>) -> WriterView
        decreases calls.len(),
    {
        if calls.len() == 0 {
            self
        } else {
            self.session(calls.drop_last()).begin_write(calls.last().buf).0.run(
                calls.last().counts,
            )
        }
    }

    /// Whether each write of `calls` gets answers that the sink can give,
    /// and runs to its end with them.
    pub open spec fn completes(self, calls: Seq<WriteCall>) -> bool
        decreases calls.len(),
    {
        if calls.len() == 0 {
            true
        } else {
            let before = self.session(calls.drop_last());
            let started = before.begin_write(calls.last().buf).0;
            &&& self.completes(calls.drop_last())
            &&& calls.last().buf.len() <= usize::MAX
            &&& started.admits_all(calls.last().counts)
            &&& !started.run(calls.last().counts).on_aligned_path()
        }
    }
}

/// Any number of writes that have run to their ends, whatever the sink
/// took at each request on the way, leave the writer idle, and the writer
/// then answers for what it answered for before, followed by the inputs in
/// the order of the calls.
pub proof fn lemma_session(v: WriterView, calls: Seq<WriteCall>)
    requires
        v.wf(),
        v.phase is Idle,
        v.completes(calls),
    ensures
        v.session(calls).wf(),
        v.session(calls).phase is Idle,
        v.session(calls).accepted == v.accepted + inputs(calls),
    decreases calls.len(),
{
    if calls.len() == 0 {
        assert(v.accepted + inputs(calls) =~= v.accepted);
    } else {
        let before = v.session(calls.drop_last());
        lemma_session(v, calls.drop_last());
        lemma_written(before, calls.last().buf, calls.last().counts);
        assert((v.accepted + inputs(calls.drop_last())) + calls.last().buf =~= v.accepted + inputs(
            calls,
        ));
    }
}

/// Round trip over a session: after any number of writes that have run to
/// their ends and a final flush that has run to its end, whatever the sink
/// took at each request on the way, the sink has taken what the writer
/// answered for before, followed by the inputs in the order of the calls,
/// with nothing left out and nothing twice; the writer can then be closed,
/// and closing adds nothing.
pub proof fn lemma_session_round_trip(
    v: WriterView,
    calls: Seq<WriteCall>,
    flags: i32,
    tail: Seq<usize>,
)
    requires
        v.wf(),
        v.phase is Idle,
        v.completes(calls),
        v.session(calls).relaxed(flags).admits_all(tail),
        v.session(calls).flushed(flags, tail).phase is Idle,
    ensures
        ({
            let end = v.session(calls).flushed(flags, tail);
            &&& end.wf()
            &&& end.settled()
            &&& end.issued == v.accepted + inputs(calls)
            &&& end.close().issued == v.accepted + inputs(calls)
        }),
{
    lemma_session(v, calls);
    lemma_flush_delivers(v.session(calls), flags, tail);
}

/// Flush idempotence: a flush that follows a flush which has run to its end
/// asks the sink for no write and changes nothing.
pub proof fn lemma_flush_twice(
    v: WriterView,
    flags: i32,
    tail: Seq<usize>,
    again: i32,
    counts: Seq<usize>,
)
    requires
        v.wf(),
        v.phase is Idle,
        v.relaxed(flags).admits_all(tail),
        v.flushed(flags, tail).phase is Idle,
    ensures
        ({
            let once = v.flushed(flags, tail);
            &&& once.begin_flush().0.mode_answer(again).0.mode_answer(0).1 == Step::SetMode(again)
            &&& once.flushed(again, counts) == once
        }),
{
    lemma_flush_delivers(v, flags, tail);
    let once = v.flushed(flags, tail);
    lemma_run(once.relaxed(again), counts);
}

/// Small writes: an input that, with what is staged, stays below one block
/// is staged whole, with no request to the sink; the flush that follows and
/// runs to its end hands the sink exactly the staged bytes.
pub proof fn lemma_small_write(v: WriterView, buf: Seq<u8>, flags: i32, tail: Seq<usize>)
    requires
        v.wf(),
        v.phase is Idle,
        v.staged.len() + buf.len() < v.block_size,
        v.begin_write(buf).0.relaxed(flags).admits_all(tail),
        v.begin_write(buf).0.flushed(flags, tail).phase is Idle,
    ensures
        ({
            let (w, step) = v.begin_write(buf);
            &&& step == Step::Written(buf.len() as usize)
            &&& w.phase is Idle
            &&& w.staged == v.staged + buf
            &&& w.issued == v.issued
            &&& w.flushed(flags, tail).issued == v.issued + (v.staged + buf)
        }),
{
    lemma_geometry(v.block_size, v.capacity);
    lemma_begin_write(v, buf);
    let (w, step) = v.begin_write(buf);
    if v.staged.len() == 0 {
        assert(v.staged =~= Seq::<u8>::empty());
        assert(buf.skip(0) =~= buf);
        assert(w.staged =~= v.staged + buf);
    }
    lemma_flush_delivers(w, flags, tail);
    assert(v.issued + (v.staged + buf) =~= (v.issued + v.staged) + buf);
}

/// Boundary exactness: an input of exactly the capacity, with nothing
/// staged, goes to the sink as one request of that length, and once the
/// sink has taken it nothing is staged.
pub proof fn lemma_exact_capacity(v: WriterView, buf: Seq<u8>)
    requires
        v.wf(),
        v.phase is Idle,
        v.staged.len() == 0,
        buf.len() == v.capacity,
    ensures
        ({
            let (w, step) = v.begin_write(buf);
            let (end, last) = w.acknowledge(buf.len() as usize);
            &&& step == Step::Issue
            &&& w.phase == Phase::Direct { pos: 0, len: buf.len() as usize }
            &&& w.requested() == buf
            &&& last == Step::Written(buf.len() as usize)
            &&& end.phase is Idle
            &&& end.staged == Seq::<u8>::empty()
            &&& end.issued == v.issued + buf
        }),
{
    lemma_geometry(v.block_size, v.capacity);
    lemma_round_down(v.capacity, v.block_size);
    let (w, step) = v.begin_write(buf);
    assert(w.requested() =~= buf);
    assert(buf.take(buf.len() as int) =~= buf);
    let (end, last) = w.acknowledge(buf.len() as usize);
    assert(end.staged =~= Seq::<u8>::empty());
}

/// A refused tail: where the sink refuses the staged tail, nothing is lost
/// and the next step restores the flags that the flush found; the answer to
/// that ends the flush with an error and leaves the tail staged.
pub proof fn lemma_tail_refused(v: WriterView, code: i32, rc: i32, os_code: i32)
    requires
        v.wf(),
        v.phase is Draining,
    ensures
        ({
            let (w, step) = v.tail_refused(code);
            &&& w.wf()
            &&& step == Step::SetMode(v.phase->Draining_flags)
            &&& w.staged == v.staged
            &&& w.issued == v.issued
            &&& w.accepted == v.accepted
            &&& w.asked_of_mode()
            &&& w.mode_failure(rc, os_code) is Some
            &&& w.abandon().wf()
            &&& w.abandon() == (WriterView { phase: Phase::Idle, ..v })
        }),
{
}

/// Disposal: a writer hands its handle out for closing only when the sink
/// has taken every byte the writer answers for. With bytes staged, or an
/// operation in progress, it is not settled, and the bytes reach the sink
/// by a flush that runs to its end.
pub proof fn lemma_disposal(v: WriterView, flags: i32, tail: Seq<usize>)
    requires
        v.wf(),
        v.phase is Idle,
        v.relaxed(flags).admits_all(tail),
        v.flushed(flags, tail).phase is Idle,
    ensures
        v.settled() ==> v.close().issued == v.accepted,
        v.staged.len() > 0 ==> !v.settled(),
        v.flushed(flags, tail).settled(),
        v.flushed(flags, tail).close().issued == v.issued + v.staged,
        v.flushed(flags, tail).close().accepted == v.accepted,
{
    lemma_close(v);
    lemma_flush_delivers(v, flags, tail);
}

} // verus!
