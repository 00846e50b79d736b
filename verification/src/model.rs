//! The writer as a mathematical object: what it holds, what it asks of the
//! sink, and how each answer of the sink moves it on.

use crate::align::{lemma_round_down, round_down, valid_geometry};
use vstd::prelude::*;

verus! {

/// Where the writer stands between two calls.
#[derive(Clone, Copy, Debug, PartialEq, Eq, Structural)]
pub enum Phase {
    /// No operation is in progress.
    Idle,
    /// A write has filled the staging buffer and waits for the sink to take
    /// it; the input resumes at `resume`.
    Staged { resume: usize },
    /// A write waits for the sink to take `len` bytes of the input, starting
    /// at `pos`.
    Direct { pos: usize, len: usize },
    /// A flush waits for the handle's mode flags.
    Querying,
    /// A flush waits for the alignment constraint to be switched off;
    /// `flags` are the flags to restore.
    Relaxing { flags: i32 },
    /// A flush waits for the sink to take the staged bytes.
    Draining { flags: i32 },
    /// A flush waits for the handle's flags to be restored.
    Restoring,
    /// A flush whose write of the staged bytes failed with the error `code`
    /// waits for the handle's flags to be restored.
    Recovering { code: i32 },
    /// The writer has been closed.
    Closed,
}

/// What the caller has to do next.
#[derive(Clone, Copy, Debug, PartialEq, Eq, Structural)]
pub enum Step {
    /// Hand the requested bytes to the sink's write operation and report
    /// its result.
    Issue,
    /// Read the handle's mode flags and report them.
    GetMode,
    /// Set the handle's mode flags to this value and report the result.
    SetMode(i32),
    /// The write is complete: this many bytes of the input were accepted.
    Written(usize),
    /// The flush is complete.
    Flushed,
}

/// The writer's state as plain mathematical values.
pub ghost struct WriterView {
    /// The alignment unit of the sink.
    pub block_size: nat,
    /// The length of the staging buffer.
    pub capacity: nat,
    /// The bytes that wait in the staging buffer.
    pub staged: Seq<u8>,
    /// The operation in progress.
    pub phase: Phase,
    /// The input of the write in progress; empty when none is.
    pub input: Seq<u8>,
    /// Every byte the writer answers for: the inputs of the writes so far,
    /// in order. Of a write that failed it holds only what had reached the
    /// sink, and a writer that was discarded answers for no more than the
    /// sink has taken.
    pub accepted: Seq<u8>,
    /// Every byte the sink has taken, in order.
    pub issued: Seq<u8>,
    /// The handle of the sink.
    pub descriptor: i32,
    /// The flag that asks the handle for alignment-constrained writes.
    pub direct_flag: i32,
}

impl WriterView {
    /// The bytes the writer answers for and the sink has not taken yet.
    pub open spec fn unsent(self) -> Seq<u8> {
        match self.phase {
            Phase::Staged { .. } => self.staged + self.input,
            Phase::Direct { pos, .. } => self.input.skip(pos as int),
            _ => self.staged,
        }
    }

    /// The bytes that the sink is asked to take in this phase.
    pub open spec fn requested(self) -> Seq<u8> {
        match self.phase {
            Phase::Staged { resume } => self.staged + self.input.take(resume as int),
            Phase::Direct { pos, len } => self.input.subrange(pos as int, pos + len),
            Phase::Draining { .. } => self.staged,
            _ => Seq::empty(),
        }
    }

    /// Whether the writer waits for the sink's answer to a request.
    pub open spec fn requested_of_sink(self) -> bool {
        self.phase is Staged || self.phase is Direct || self.phase is Draining
    }

    /// Whether the writer waits for the handle's answer about its mode.
    pub open spec fn asked_of_mode(self) -> bool {
        self.phase is Querying || self.phase is Relaxing || self.phase is Restoring
            || self.phase is Recovering
    }

    /// Whether the writer waits for the sink's answer to a request, and a
    /// slice of `len` bytes can be the input that the request is made of:
    /// during a write, the input of that write has this length.
    pub open spec fn awaits(self, len: nat) -> bool {
        &&& self.requested_of_sink()
        &&& self.on_aligned_path() ==> len == self.input.len()
    }

    /// Whether the request of this phase goes down the aligned path.
    pub open spec fn on_aligned_path(self) -> bool {
        self.phase is Staged || self.phase is Direct
    }

    /// The invariant of the writer: a valid geometry, fewer staged bytes
    /// than the buffer holds, a request that fits the input, and no byte
    /// lost or doubled between what was accepted and what was issued.
    pub open spec fn wf(self) -> bool {
        &&& valid_geometry(self.block_size, self.capacity)
        &&& self.capacity <= usize::MAX
        &&& self.input.len() <= usize::MAX
        &&& self.staged.len() < self.capacity
        &&& match self.phase {
            Phase::Staged { resume } => {
                &&& 0 < self.staged.len()
                &&& self.staged.len() + resume == self.capacity
                &&& resume <= self.input.len()
            },
            Phase::Direct { pos, len } => {
                &&& self.staged.len() == 0
                &&& pos + self.block_size <= self.input.len()
                &&& len == round_down((self.input.len() - pos) as nat, self.block_size)
            },
            Phase::Draining { .. } => {
                &&& 0 < self.staged.len()
                &&& self.input == Seq::<u8>::empty()
            },
            _ => self.input == Seq::<u8>::empty(),
        }
        &&& self.issued + self.unsent() == self.accepted
    }

    /// The state in which an operation leaves the writer when it gives up:
    /// nothing is in progress, and the writer answers for no more than what
    /// the sink has taken and what is staged.
    pub open spec fn abandon(self) -> WriterView {
        WriterView {
            phase: Phase::Idle,
            input: Seq::empty(),
            accepted: self.issued + self.staged,
            ..self
        }
    }

    /// Goes on with the input from `pos`, with nothing staged: while a whole
    /// block is left, the largest run of whole blocks is requested from the
    /// sink; what is shorter than a block is staged, and the write is done.
    pub open spec fn advance(self, pos: usize) -> (WriterView, Step) {
        let rest = (self.input.len() - pos) as nat;
        if rest >= self.block_size {
            let len = round_down(rest, self.block_size) as usize;
            (
                WriterView { phase: Phase::Direct { pos, len }, staged: Seq::empty(), ..self },
                Step::Issue,
            )
        } else {
            (
                WriterView {
                    phase: Phase::Idle,
                    staged: self.input.skip(pos as int),
                    input: Seq::empty(),
                    ..self
                },
                Step::Written(self.input.len() as usize),
            )
        }
    }

    /// The start of a write of `buf` by an idle writer. Staged bytes are
    /// topped up first: if everything still fits below the capacity the
    /// write is done without the sink, else the full buffer is requested.
    /// With nothing staged the input is taken up from its start.
    pub open spec fn begin_write(self, buf: Seq<u8>) -> (WriterView, Step) {
        let taken = WriterView { input: buf, accepted: self.accepted + buf, ..self };
        if self.staged.len() == 0 {
            taken.advance(0)
        } else if self.staged.len() + buf.len() < self.capacity {
            (
                WriterView { staged: self.staged + buf, accepted: self.accepted + buf, ..self },
                Step::Written(buf.len() as usize),
            )
        } else {
            (
                WriterView {
                    phase: Phase::Staged { resume: (self.capacity - self.staged.len()) as usize },
                    ..taken
                },
                Step::Issue,
            )
        }
    }

    /// The sink took `count` bytes of the request. The full buffer only
    /// leaves whole; of a run of blocks the sink may take less, and the
    /// input goes on behind what it took; of the staged tail it may take
    /// less too, and then the rest stays staged and is requested again.
    pub open spec fn acknowledge(self, count: usize) -> (WriterView, Step) {
        match self.phase {
            Phase::Staged { resume } => WriterView {
                issued: self.issued + self.requested(),
                staged: Seq::empty(),
                ..self
            }.advance(resume),
            Phase::Direct { pos, .. } => WriterView {
                issued: self.issued + self.requested().take(count as int),
                ..self
            }.advance((pos + count) as usize),
            Phase::Draining { flags } => if count < self.staged.len() {
                (
                    WriterView {
                        staged: self.staged.skip(count as int),
                        issued: self.issued + self.staged.take(count as int),
                        ..self
                    },
                    Step::Issue,
                )
            } else {
                (
                    WriterView {
                        phase: Phase::Restoring,
                        staged: Seq::empty(),
                        issued: self.issued + self.staged,
                        ..self
                    },
                    Step::SetMode(flags),
                )
            },
            _ => (self, Step::Issue),
        }
    }

    /// The start of a flush by an idle writer.
    pub open spec fn begin_flush(self) -> (WriterView, Step) {
        (WriterView { phase: Phase::Querying, ..self }, Step::GetMode)
    }

    /// The handle answered a question about its mode, or a change of it,
    /// with `value`: the flags are kept and the alignment constraint taken
    /// out of them; then the staged bytes are requested, if there are any;
    /// then the flags are restored; then the flush is done.
    pub open spec fn mode_answer(self, value: i32) -> (WriterView, Step) {
        match self.phase {
            Phase::Querying => (
                WriterView { phase: Phase::Relaxing { flags: value }, ..self },
                Step::SetMode(value & !self.direct_flag),
            ),
            Phase::Relaxing { flags } => if self.staged.len() > 0 {
                (WriterView { phase: Phase::Draining { flags }, ..self }, Step::Issue)
            } else {
                (WriterView { phase: Phase::Restoring, ..self }, Step::SetMode(flags))
            },
            Phase::Restoring => (WriterView { phase: Phase::Idle, ..self }, Step::Flushed),
            _ => (self, Step::Flushed),
        }
    }

    /// The sink refused the staged tail with the error `code`: nothing is
    /// lost, and the flags are restored before the flush ends with that
    /// error.
    pub open spec fn tail_refused(self, code: i32) -> (WriterView, Step) {
        match self.phase {
            Phase::Draining { flags } => (
                WriterView { phase: Phase::Recovering { code }, ..self },
                Step::SetMode(flags),
            ),
            _ => (self, Step::Issue),
        }
    }

    /// The error with which an answer of the handle about its mode ends the
    /// flush, if it does: `os_code` where the call failed, which its result
    /// -1 says; else the error of the write that the flush recovers from.
    pub open spec fn mode_failure(self, rc: i32, os_code: i32) -> Option<i32> {
        if rc == -1 {
            Some(os_code)
        } else {
            match self.phase {
                Phase::Recovering { code } => Some(code),
                _ => None,
            }
        }
    }

    /// Whether the writer can be closed: nothing is in progress and
    /// nothing is staged, so the sink has taken every byte that the writer
    /// answers for.
    pub open spec fn settled(self) -> bool {
        self.phase is Idle && self.staged.len() == 0
    }

    /// The state after a settled writer was closed.
    pub open spec fn close(self) -> WriterView {
        WriterView { phase: Phase::Closed, ..self }
    }

    /// The state after the writer was closed without regard to what it
    /// held: the staged bytes and the rest of an input in progress are
    /// lost, and the writer answers only for what the sink has taken.
    pub open spec fn discard(self) -> WriterView {
        WriterView {
            phase: Phase::Closed,
            staged: Seq::empty(),
            input: Seq::empty(),
            accepted: self.issued,
            ..self
        }
    }
}

/// Going on with the input keeps the invariant, and what it requests is a
/// positive whole number of blocks.
pub proof fn lemma_advance(v: WriterView, pos: usize)
    requires
        valid_geometry(v.block_size, v.capacity),
        v.capacity <= usize::MAX,
        v.input.len() <= usize::MAX,
        pos <= v.input.len(),
        v.staged.len() == 0,
        v.issued + v.input.skip(pos as int) == v.accepted,
    ensures
        v.advance(pos).0.wf(),
        v.advance(pos).1 == Step::Issue <==> v.input.len() - pos >= v.block_size,
        v.advance(pos).1 != Step::Issue ==> v.advance(pos).1 == Step::Written(
            v.input.len() as usize,
        ),
{
    lemma_geometry(v.block_size, v.capacity);
    lemma_round_down((v.input.len() - pos) as nat, v.block_size);
}

/// In a valid geometry the block size is positive.
pub proof fn lemma_geometry(block_size: nat, capacity: nat)
    requires
        valid_geometry(block_size, capacity),
    ensures
        0 < block_size <= capacity,
{
    reveal(vstd::arithmetic::power2::is_pow2);
}

/// The start of a write keeps the invariant.
pub proof fn lemma_begin_write(v: WriterView, buf: Seq<u8>)
    requires
        v.wf(),
        v.phase is Idle,
        buf.len() <= usize::MAX,
    ensures
        v.begin_write(buf).0.wf(),
{
    let taken = WriterView { input: buf, accepted: v.accepted + buf, ..v };
    if v.staged.len() == 0 {
        assert(v.staged =~= Seq::<u8>::empty());
        assert(buf.skip(0) =~= buf);
        assert(v.issued + v.staged =~= v.issued);
        lemma_advance(taken, 0);
    } else {
        assert(v.issued + (v.staged + buf) =~= (v.issued + v.staged) + buf);
    }
}

/// An answer of the sink to a request keeps the invariant.
pub proof fn lemma_acknowledge(v: WriterView, count: usize)
    requires
        v.wf(),
        v.phase is Staged || v.phase is Direct || v.phase is Draining,
        v.phase is Direct ==> count <= v.requested().len(),
    ensures
        v.acknowledge(count).0.wf(),
{
    lemma_geometry(v.block_size, v.capacity);
    match v.phase {
        Phase::Staged { resume } => {
            let next = WriterView {
                issued: v.issued + v.requested(),
                staged: Seq::empty(),
                ..v
            };
            assert(next.issued + v.input.skip(resume as int) =~= v.issued + (v.staged + v.input));
            lemma_advance(next, resume);
        },
        Phase::Direct { pos, .. } => {
            lemma_round_down((v.input.len() - pos) as nat, v.block_size);
            let next = WriterView { issued: v.issued + v.requested().take(count as int), ..v };
            assert(next.issued + v.input.skip(pos + count) =~= v.issued + v.input.skip(
                pos as int,
            ));
            lemma_advance(next, (pos + count) as usize);
        },
        _ => {
            let next = v.acknowledge(count).0;
            if count < v.staged.len() {
                assert((v.issued + v.staged.take(count as int)) + v.staged.skip(count as int)
                    =~= v.issued + v.staged);
            }
            assert(next.issued + next.staged =~= next.accepted);
        },
    }
}

/// Giving up keeps the invariant, and changes nothing where no operation
/// was in progress.
pub proof fn lemma_abandon(v: WriterView)
    requires
        v.wf(),
    ensures
        v.abandon().wf(),
        v.phase is Idle ==> v.abandon() == v,
{
}

/// Closing keeps the invariant. A settled writer is closed with every byte
/// it answers for in the sink; a discarded one has lost what it still held.
pub proof fn lemma_close(v: WriterView)
    requires
        v.wf(),
    ensures
        v.discard().wf(),
        v.discard().issued == v.issued,
        v.settled() ==> v.close().wf() && v.close().issued == v.accepted && v.discard()
            == v.close(),
{
    assert(v.issued + Seq::<u8>::empty() =~= v.issued);
    if v.settled() {
        assert(v.staged =~= Seq::<u8>::empty());
        assert(v.issued + v.staged =~= v.issued);
    }
}

} // verus!
