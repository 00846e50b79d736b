//! The writer itself: a staging buffer in front of a sink that only takes
//! whole blocks.

use crate::align::{check_geometry, floor_to_block, lemma_round_down, valid_geometry};
use crate::error::WriterError;
use crate::flags::OpenFlags;
use crate::laws::lemma_aligned_requests;
use crate::model::{
    lemma_abandon, lemma_acknowledge, lemma_advance, lemma_begin_write, lemma_close,
    lemma_geometry, Phase, Step, WriterView,
};
use vstd::prelude::*;

verus! {

/// Copies `src` into `dst`, starting at index `at`.
fn copy_in(dst: &mut Vec<u8>, at: usize, src: &[u8])
    requires
        at + src@.len() <= old(dst)@.len(),
    ensures
        final(dst)@ == old(dst)@.take(at as int) + src@ + old(dst)@.skip(at + src@.len()),
        final(dst)@.len() == old(dst)@.len(),
{
    let total: usize = dst.len();
    let mut i: usize = 0;
    while i < src.len()
        invariant
            i <= src@.len(),
            at + src@.len() <= dst@.len(),
            dst@.len() == total,
            total == old(dst)@.len(),
            dst@ == old(dst)@.take(at as int) + src@.take(i as int) + old(dst)@.skip(at + i),
        decreases src@.len() - i,
    {
        let byte: u8 = src[i];
        dst[at + i] = byte;
        i = i + 1;
        assert(dst@ =~= old(dst)@.take(at as int) + src@.take(i as int) + old(dst)@.skip(at + i));
    }
    assert(src@.take(i as int) =~= src@);
}

/// Moves the bytes of `buf` from `from` up to `end` to its front.
fn shift_down(buf: &mut Vec<u8>, from: usize, end: usize)
    requires
        from <= end <= old(buf)@.len(),
    ensures
        final(buf)@.len() == old(buf)@.len(),
        final(buf)@.take(end - from) == old(buf)@.subrange(from as int, end as int),
{
    let count: usize = end - from;
    let mut i: usize = 0;
    while i < count
        invariant
            i <= count,
            count == end - from,
            end <= buf@.len(),
            buf@.len() == old(buf)@.len(),
            forall|j: int| 0 <= j < i ==> buf@[j] == old(buf)@[j + from],
            forall|j: int| i <= j < buf@.len() ==> buf@[j] == old(buf)@[j],
        decreases count - i,
    {
        let byte: u8 = buf[i + from];
        buf[i] = byte;
        i = i + 1;
    }
    assert(buf@.take(end - from) =~= old(buf)@.subrange(from as int, end as int));
}

/// A buffered writer in front of a handle that takes only whole blocks.
///
/// The writer never touches the handle. Each operation says what the caller
/// has to do with the handle next, and goes on when the caller reports the
/// result.
pub struct DirectIO {
    file_descriptor: i32,
    direct_flag: i32,
    block_size: usize,
    buf: Vec<u8>,
    n: usize,
    phase: Phase,
    total: usize,
    input: Ghost<Seq<u8>>,
    accepted: Ghost<Seq<u8>>,
    issued: Ghost<Seq<u8>>,
}

impl View for DirectIO {
    type V = WriterView;

    closed spec fn view(&self) -> WriterView {
        WriterView {
            block_size: self.block_size as nat,
            capacity: self.buf@.len(),
            staged: self.buf@.take(self.n as int),
            phase: self.phase,
            input: self.input@,
            accepted: self.accepted@,
            issued: self.issued@,
            descriptor: self.file_descriptor,
            direct_flag: self.direct_flag,
        }
    }
}

impl DirectIO {
    /// What holds of the representation: the count of staged bytes lies
    /// within the buffer, a full buffer that waits for the sink holds
    /// exactly what is requested, and during a write the length of its
    /// input is kept.
    pub closed spec fn inv(&self) -> bool {
        &&& self.n <= self.buf@.len()
        &&& self.phase is Staged ==> self.buf@ == self@.requested()
        &&& self@.on_aligned_path() ==> self.total == self.input@.len()
    }

    /// The writer's invariant.
    pub open spec fn wf(&self) -> bool {
        self.inv() && self@.wf()
    }

    /// Builds the writer for the handle that an open call returned. `fd` is
    /// that call's result, `os_code` the error code that goes with its
    /// failure, and `flags` the flags that the handle was opened with.
    pub fn open(
        fd: i32,
        os_code: i32,
        block_size: usize,
        capacity: usize,
        flags: OpenFlags,
    ) -> (r: Result<DirectIO, WriterError>)
        ensures
            match r {
                Ok(w) => {
                    &&& valid_geometry(block_size as nat, capacity as nat)
                    &&& fd != -1
                    &&& w.wf()
                    &&& w@ == (WriterView {
                        block_size: block_size as nat,
                        capacity: capacity as nat,
                        staged: Seq::empty(),
                        phase: Phase::Idle,
                        input: Seq::empty(),
                        accepted: Seq::empty(),
                        issued: Seq::empty(),
                        descriptor: fd,
                        direct_flag: flags.direct,
                    })
                },
                Err(e) => if !valid_geometry(block_size as nat, capacity as nat) {
                    e == WriterError::InvalidGeometry
                } else {
                    fd == -1 && e == WriterError::IoError(os_code)
                },
            },
    {
        if !check_geometry(block_size, capacity) {
            return Err(WriterError::InvalidGeometry);
        }
        if fd == -1 {
            return Err(WriterError::IoError(os_code));
        }
        proof {
            lemma_geometry(block_size as nat, capacity as nat);
        }
        let buf: Vec<u8> = vec![0u8; capacity];
        let w = DirectIO {
            file_descriptor: fd,
            direct_flag: flags.direct,
            block_size,
            buf,
            n: 0,
            phase: Phase::Idle,
            total: 0,
            input: Ghost(Seq::empty()),
            accepted: Ghost(Seq::empty()),
            issued: Ghost(Seq::empty()),
        };
        assert(w@.staged =~= Seq::<u8>::empty());
        assert(w@.issued + w@.staged =~= w@.accepted);
        Ok(w)
    }

    /// Goes on with the input of the write in progress from `pos`, with
    /// nothing staged.
    fn advance(&mut self, buf: &[u8], pos: usize) -> (step: Step)
        requires
            old(self).n == 0,
            old(self).input@ == buf@,
            old(self).total == buf@.len(),
            pos <= buf@.len(),
            valid_geometry(old(self)@.block_size, old(self)@.capacity),
            old(self).issued@ + buf@.skip(pos as int) == old(self).accepted@,
        ensures
            final(self).wf(),
            (final(self)@, step) == old(self)@.advance(pos),
    {
        let rest: usize = buf.len() - pos;
        proof {
            assert(self.buf@.len() == self.buf.len());
            lemma_geometry(self@.block_size, self@.capacity);
            assert(self@.staged =~= Seq::<u8>::empty());
            lemma_advance(self@, pos);
        }
        if rest >= self.block_size {
            let len: usize = floor_to_block(rest, self.block_size);
            self.phase = Phase::Direct { pos, len };
            assert(self@.staged =~= Seq::<u8>::empty());
            Step::Issue
        } else {
            let tail = &buf[pos..buf.len()];
            copy_in(&mut self.buf, 0, tail);
            self.n = rest;
            self.phase = Phase::Idle;
            self.input = Ghost(Seq::empty());
            assert(self@.staged =~= buf@.skip(pos as int));
            Step::Written(buf.len())
        }
    }

    /// Starts a write of `buf`. Where the answer is `Step::Issue`, the
    /// caller hands the bytes of `request` to the sink and reports the
    /// result with `write_direct`, with the same `buf`: a slice of another
    /// length is refused there as out of turn.
    pub fn write(&mut self, buf: &[u8]) -> (r: Result<Step, WriterError>)
        requires
            old(self).wf(),
        ensures
            final(self).wf(),
            match r {
                Ok(step) => {
                    &&& old(self)@.phase is Idle
                    &&& (final(self)@, step) == old(self)@.begin_write(buf@)
                },
                Err(e) => {
                    &&& !(old(self)@.phase is Idle)
                    &&& final(self)@ == old(self)@
                    &&& e == if old(self)@.phase is Closed {
                        WriterError::ClosedHandle
                    } else {
                        WriterError::OutOfTurn
                    }
                },
            },
    {
        match self.phase {
            Phase::Idle => {},
            Phase::Closed => {
                return Err(WriterError::ClosedHandle);
            },
            _ => {
                return Err(WriterError::OutOfTurn);
            },
        }
        let capacity: usize = self.buf.len();
        proof {
            assert(buf@.len() == buf.len());
            lemma_begin_write(self@, buf@);
        }
        if self.n == 0 {
            self.total = buf.len();
            self.input = Ghost(buf@);
            self.accepted = Ghost(self.accepted@ + buf@);
            proof {
                assert(old(self)@.staged =~= Seq::<u8>::empty());
                assert(old(self)@.issued + old(self)@.staged =~= old(self)@.issued);
                assert(buf@.skip(0) =~= buf@);
            }
            let step = self.advance(buf, 0);
            Ok(step)
        } else if buf.len() < capacity - self.n {
            copy_in(&mut self.buf, self.n, buf);
            self.n = self.n + buf.len();
            self.accepted = Ghost(self.accepted@ + buf@);
            assert(self@.staged =~= old(self)@.staged + buf@);
            Ok(Step::Written(buf.len()))
        } else {
            let resume: usize = capacity - self.n;
            let head = &buf[0..resume];
            copy_in(&mut self.buf, self.n, head);
            self.phase = Phase::Staged { resume };
            self.total = buf.len();
            self.input = Ghost(buf@);
            self.accepted = Ghost(self.accepted@ + buf@);
            assert(self@.staged =~= old(self)@.staged);
            assert(self.buf@ =~= self@.staged + buf@.take(resume as int));
            Ok(Step::Issue)
        }
    }

    /// Gives the operation in progress up.
    fn abandon(&mut self)
        requires
            old(self).wf(),
        ensures
            final(self).wf(),
            final(self)@ == old(self)@.abandon(),
    {
        proof {
            lemma_abandon(self@);
        }
        self.phase = Phase::Idle;
        self.input = Ghost(Seq::empty());
        self.accepted = Ghost(self.issued@ + self@.staged);
    }

    /// The bytes that the caller has to hand to the sink in this phase.
    /// During a write `buf` is the input of that write. Where no request
    /// waits for the sink, or `buf` has not the length of that input, the
    /// call is out of turn.
    pub fn request<'a>(&'a self, buf: &'a [u8]) -> (r: Result<&'a [u8], WriterError>)
        requires
            self.wf(),
            self@.on_aligned_path() && buf@.len() == self@.input.len() ==> buf@ == self@.input,
        ensures
            match r {
                Ok(bytes) => {
                    &&& self@.awaits(buf@.len())
                    &&& bytes@ == self@.requested()
                    &&& bytes@.len() > 0
                    &&& self@.on_aligned_path() ==> bytes@.len() % self@.block_size == 0
                },
                Err(e) => {
                    &&& !self@.awaits(buf@.len())
                    &&& e == if self@.phase is Closed {
                        WriterError::ClosedHandle
                    } else {
                        WriterError::OutOfTurn
                    }
                },
            },
    {
        proof {
            if self@.on_aligned_path() {
                lemma_aligned_requests(self@);
            }
        }
        match self.phase {
            Phase::Staged { .. } => {
                if buf.len() != self.total {
                    return Err(WriterError::OutOfTurn);
                }
                Ok(self.buf.as_slice())
            },
            Phase::Direct { pos, len } => {
                if buf.len() != self.total {
                    return Err(WriterError::OutOfTurn);
                }
                proof {
                    lemma_geometry(self@.block_size, self@.capacity);
                    lemma_round_down((buf@.len() - pos) as nat, self@.block_size);
                }
                Ok(&buf[pos..pos + len])
            },
            Phase::Draining { .. } => {
                let staging = self.buf.as_slice();
                Ok(&staging[0..self.n])
            },
            Phase::Closed => Err(WriterError::ClosedHandle),
            _ => Err(WriterError::OutOfTurn),
        }
    }

    /// Takes the result of the sink's write operation on the bytes of
    /// `request`: `rt` is the number of bytes the sink took, or negative
    /// where it failed, and `os_code` the error code that goes with a
    /// failure. During a write `buf` is the input of that write.
    ///
    /// A failure along the aligned path ends the write. What the sink took
    /// before stays taken: of the failed write the writer answers only for
    /// that. A failure on the staged tail loses nothing: the flags are
    /// restored first, and the flush ends with the error after that.
    pub fn write_direct(&mut self, buf: &[u8], rt: isize, os_code: i32) -> (r: Result<
        Step,
        WriterError,
    >)
        requires
            old(self).wf(),
            old(self)@.on_aligned_path() && buf@.len() == old(self)@.input.len() ==> buf@ == old(
                self,
            )@.input,
            old(self)@.phase is Staged && rt >= 0 ==> rt == old(self)@.capacity,
            old(self)@.phase is Direct ==> rt <= old(self)@.requested().len(),
        ensures
            final(self).wf(),
            match r {
                Ok(step) => {
                    &&& old(self)@.awaits(buf@.len())
                    &&& rt >= 0 || old(self)@.phase is Draining
                    &&& (final(self)@, step) == if rt >= 0 {
                        old(self)@.acknowledge(rt as usize)
                    } else {
                        old(self)@.tail_refused(os_code)
                    }
                },
                Err(e) => if old(self)@.phase is Closed {
                    e == WriterError::ClosedHandle && final(self)@ == old(self)@
                } else if !old(self)@.awaits(buf@.len()) {
                    e == WriterError::OutOfTurn && final(self)@ == old(self)@
                } else {
                    &&& rt < 0
                    &&& old(self)@.on_aligned_path()
                    &&& e == WriterError::IoError(os_code)
                    &&& final(self)@ == old(self)@.abandon()
                },
            },
    {
        match self.phase {
            Phase::Closed => {
                return Err(WriterError::ClosedHandle);
            },
            Phase::Staged { .. } | Phase::Direct { .. } => {
                if buf.len() != self.total {
                    return Err(WriterError::OutOfTurn);
                }
            },
            Phase::Draining { .. } => {},
            _ => {
                return Err(WriterError::OutOfTurn);
            },
        }
        if rt < 0 {
            match self.phase {
                Phase::Draining { flags } => {
                    self.phase = Phase::Recovering { code: os_code };
                    return Ok(Step::SetMode(flags));
                },
                _ => {
                    self.abandon();
                    return Err(WriterError::IoError(os_code));
                },
            }
        }
        let count: usize = rt as usize;
        proof {
            lemma_acknowledge(self@, count);
        }
        match self.phase {
            Phase::Staged { resume } => {
                self.issued = Ghost(self.issued@ + self.buf@);
                self.n = 0;
                proof {
                    assert(self.issued@ + buf@.skip(resume as int) =~= old(self)@.issued + (
                    old(self)@.staged + buf@));
                }
                Ok(self.advance(buf, resume))
            },
            Phase::Direct { pos, .. } => {
                proof {
                    lemma_geometry(self@.block_size, self@.capacity);
                    lemma_round_down((buf@.len() - pos) as nat, self@.block_size);
                }
                self.issued = Ghost(self.issued@ + self@.requested().take(count as int));
                proof {
                    assert(self.issued@ + buf@.skip(pos + count) =~= old(self)@.issued + buf@.skip(
                        pos as int,
                    ));
                }
                Ok(self.advance(buf, pos + count))
            },
            Phase::Draining { flags } => {
                if count < self.n {
                    shift_down(&mut self.buf, count, self.n);
                    self.issued = Ghost(self.issued@ + old(self)@.staged.take(count as int));
                    self.n = self.n - count;
                    assert(self@.staged =~= old(self)@.staged.skip(count as int));
                    Ok(Step::Issue)
                } else {
                    self.issued = Ghost(self.issued@ + self@.staged);
                    self.n = 0;
                    self.phase = Phase::Restoring;
                    assert(self@.staged =~= Seq::<u8>::empty());
                    Ok(Step::SetMode(flags))
                }
            },
            _ => Err(WriterError::OutOfTurn),
        }
    }

    /// Starts a flush: the staged bytes go out through the handle with its
    /// alignment constraint switched off for the time. The caller performs
    /// each step and reports the result, a change or a reading of the mode
    /// with `flush_next`, a write with `write_direct`.
    pub fn flush(&mut self) -> (r: Result<Step, WriterError>)
        requires
            old(self).wf(),
        ensures
            final(self).wf(),
            match r {
                Ok(step) => {
                    &&& old(self)@.phase is Idle
                    &&& (final(self)@, step) == old(self)@.begin_flush()
                },
                Err(e) => {
                    &&& !(old(self)@.phase is Idle)
                    &&& final(self)@ == old(self)@
                    &&& e == if old(self)@.phase is Closed {
                        WriterError::ClosedHandle
                    } else {
                        WriterError::OutOfTurn
                    }
                },
            },
    {
        match self.phase {
            Phase::Idle => {
                self.phase = Phase::Querying;
                Ok(Step::GetMode)
            },
            Phase::Closed => Err(WriterError::ClosedHandle),
            _ => Err(WriterError::OutOfTurn),
        }
    }

    /// Takes the handle's answer to a reading or a change of its mode: `rc`
    /// is the call's result, -1 where it failed, and `os_code` the error
    /// code that goes with a failure. A failure ends the flush; so does the
    /// answer that follows a failed write of the staged tail, with the
    /// error of that write.
    pub fn flush_next(&mut self, rc: i32, os_code: i32) -> (r: Result<Step, WriterError>)
        requires
            old(self).wf(),
        ensures
            final(self).wf(),
            match r {
                Ok(step) => {
                    &&& old(self)@.asked_of_mode()
                    &&& old(self)@.mode_failure(rc, os_code) is None
                    &&& (final(self)@, step) == old(self)@.mode_answer(rc)
                },
                Err(e) => if old(self)@.phase is Closed {
                    e == WriterError::ClosedHandle && final(self)@ == old(self)@
                } else if !old(self)@.asked_of_mode() {
                    e == WriterError::OutOfTurn && final(self)@ == old(self)@
                } else {
                    &&& old(self)@.mode_failure(rc, os_code) == Some(e->IoError_0)
                    &&& e is IoError
                    &&& final(self)@ == old(self)@.abandon()
                },
            },
    {
        match self.phase {
            Phase::Closed => {
                return Err(WriterError::ClosedHandle);
            },
            Phase::Querying | Phase::Relaxing { .. } | Phase::Restoring | Phase::Recovering {
                ..
            } => {},
            _ => {
                return Err(WriterError::OutOfTurn);
            },
        }
        if rc == -1 {
            self.abandon();
            return Err(WriterError::IoError(os_code));
        }
        match self.phase {
            Phase::Recovering { code } => {
                self.abandon();
                Err(WriterError::IoError(code))
            },
            Phase::Querying => {
                self.phase = Phase::Relaxing { flags: rc };
                Ok(Step::SetMode(rc & !self.direct_flag))
            },
            Phase::Relaxing { flags } => {
                if self.n > 0 {
                    self.phase = Phase::Draining { flags };
                    Ok(Step::Issue)
                } else {
                    self.phase = Phase::Restoring;
                    Ok(Step::SetMode(flags))
                }
            },
            _ => {
                self.phase = Phase::Idle;
                Ok(Step::Flushed)
            },
        }
    }

    /// Closes the writer and hands out the handle, which the caller has to
    /// close. Only a writer that has delivered everything can be closed:
    /// with bytes staged the answer is `Unflushed`, and the caller has to
    /// flush first. A closed writer cannot be closed again.
    pub fn close(&mut self) -> (r: Result<i32, WriterError>)
        requires
            old(self).wf(),
        ensures
            final(self).wf(),
            match r {
                Ok(fd) => {
                    &&& old(self)@.settled()
                    &&& fd == old(self)@.descriptor
                    &&& final(self)@ == old(self)@.close()
                    &&& final(self)@.issued == old(self)@.accepted
                },
                Err(e) => {
                    &&& !old(self)@.settled()
                    &&& final(self)@ == old(self)@
                    &&& e == if old(self)@.phase is Closed {
                        WriterError::ClosedHandle
                    } else if old(self)@.phase is Idle {
                        WriterError::Unflushed
                    } else {
                        WriterError::OutOfTurn
                    }
                },
            },
    {
        proof {
            lemma_close(self@);
        }
        match self.phase {
            Phase::Closed => Err(WriterError::ClosedHandle),
            Phase::Idle => {
                if self.n == 0 {
                    self.phase = Phase::Closed;
                    Ok(self.file_descriptor)
                } else {
                    Err(WriterError::Unflushed)
                }
            },
            _ => Err(WriterError::OutOfTurn),
        }
    }

    /// Closes the writer whatever it holds and hands out the handle, which
    /// the caller has to close. The staged bytes and the rest of an input
    /// in progress are lost: this is for a handle that a flush has failed
    /// on. A closed writer cannot be closed again.
    pub fn discard(&mut self) -> (r: Result<i32, WriterError>)
        requires
            old(self).wf(),
        ensures
            final(self).wf(),
            match r {
                Ok(fd) => {
                    &&& !(old(self)@.phase is Closed)
                    &&& fd == old(self)@.descriptor
                    &&& final(self)@ == old(self)@.discard()
                },
                Err(e) => {
                    &&& old(self)@.phase is Closed
                    &&& e == WriterError::ClosedHandle
                    &&& final(self)@ == old(self)@
                },
            },
    {
        proof {
            lemma_close(self@);
        }
        match self.phase {
            Phase::Closed => Err(WriterError::ClosedHandle),
            _ => {
                self.n = 0;
                self.phase = Phase::Closed;
                self.input = Ghost(Seq::empty());
                self.accepted = Ghost(self.issued@);
                assert(self@.staged =~= Seq::<u8>::empty());
                Ok(self.file_descriptor)
            },
        }
    }

    /// The flags of the open call: for writing only, created where the file
    /// is missing, emptied where it exists, and with the alignment
    /// constraint on.
    pub fn open_flags(flags: OpenFlags) -> (joined: i32)
        ensures
            joined == flags.direct | flags.write_only | flags.create | flags.truncate,
    {
        flags.direct | flags.write_only | flags.create | flags.truncate
    }

    /// The permission bits with which the sink is created.
    pub fn open_mode() -> (mode: i32)
        ensures
            mode == 0o644,
    {
        0o644
    }

    /// Reads the result of closing the handle: anything but zero is a
    /// failure with the error code `os_code`.
    pub fn close_result(rc: i32, os_code: i32) -> (r: Result<(), WriterError>)
        ensures
            r == if rc == 0 {
                Ok::<(), WriterError>(())
            } else {
                Err::<(), WriterError>(WriterError::IoError(os_code))
            },
    {
        if rc == 0 {
            Ok(())
        } else {
            Err(WriterError::IoError(os_code))
        }
    }

    /// The number of bytes that wait in the staging buffer.
    pub fn pending_len(&self) -> (n: usize)
        requires
            self.wf(),
        ensures
            n == self@.staged.len(),
    {
        self.n
    }

    /// The length of the staging buffer.
    pub fn capacity(&self) -> (n: usize)
        ensures
            n == self@.capacity,
    {
        self.buf.len()
    }

    /// The alignment unit of the sink.
    pub fn block_size(&self) -> (n: usize)
        ensures
            n == self@.block_size,
    {
        self.block_size
    }

    /// The handle of the sink.
    pub fn descriptor(&self) -> (fd: i32)
        ensures
            fd == self@.descriptor,
    {
        self.file_descriptor
    }

    /// Where the writer stands.
    pub fn phase(&self) -> (p: Phase)
        ensures
            p == self@.phase,
    {
        self.phase
    }
}

} // verus!
