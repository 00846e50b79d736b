use directio::error::WriterError;
use directio::file::DirectIO;
use directio::flags::OpenFlags;
use directio::model::{Phase, Step};

/// A sink in memory that records every call made on it.
struct Sink {
    data: Vec<u8>,
    aligned: Vec<usize>,
    tails: Vec<usize>,
    flags: i32,
    mode_calls: Vec<i32>,
    /// The most bytes that one call takes.
    limit: usize,
    /// The number of write calls after which every write fails.
    fail_after: usize,
    calls: usize,
}

const FLAGS: i32 = 0o100001 | libc::O_DIRECT;

fn sink() -> Sink {
    Sink {
        data: Vec::new(),
        aligned: Vec::new(),
        tails: Vec::new(),
        flags: FLAGS,
        mode_calls: Vec::new(),
        limit: usize::MAX,
        fail_after: usize::MAX,
        calls: 0,
    }
}

fn take(sink: &mut Sink, bytes: &[u8], tail: bool) -> isize {
    if sink.calls >= sink.fail_after {
        return -1;
    }
    sink.calls += 1;
    if tail {
        sink.tails.push(bytes.len());
    } else {
        sink.aligned.push(bytes.len());
    }
    let n = bytes.len().min(sink.limit);
    sink.data.extend_from_slice(&bytes[..n]);
    n as isize
}

fn writer(block_size: usize, capacity: usize) -> DirectIO {
    DirectIO::open(3, 0, block_size, capacity, OpenFlags::platform()).unwrap()
}

/// Runs one write to its end against the sink.
fn write_all(w: &mut DirectIO, sink: &mut Sink, buf: &[u8]) -> Result<usize, WriterError> {
    let mut step = w.write(buf)?;
    loop {
        match step {
            Step::Issue => {
                let rt = take(sink, w.request(buf).unwrap(), false);
                step = w.write_direct(buf, rt, 5)?;
            }
            Step::Written(n) => return Ok(n),
            other => panic!("a write asked for {:?}", other),
        }
    }
}

/// Runs one flush to its end against the sink.
fn flush_all(w: &mut DirectIO, sink: &mut Sink) -> Result<(), WriterError> {
    let mut step = w.flush()?;
    loop {
        match step {
            Step::GetMode => step = w.flush_next(sink.flags, 0)?,
            Step::SetMode(flags) => {
                sink.flags = flags;
                sink.mode_calls.push(flags);
                step = w.flush_next(0, 0)?;
            }
            Step::Issue => {
                assert_eq!(sink.flags & libc::O_DIRECT, 0);
                let rt = take(sink, w.request(&[]).unwrap(), true);
                step = w.write_direct(&[], rt, 5)?;
            }
            Step::Flushed => return Ok(()),
            other => panic!("a flush asked for {:?}", other),
        }
    }
}

fn pattern(len: usize, seed: usize) -> Vec<u8> {
    (0..len).map(|i| ((i * 7 + seed * 13) % 251) as u8).collect()
}

#[test]
fn develop_file() {
    const N: usize = 512;

    let mut s = sink();
    let mut dio = writer(N, N);
    let data = [4; 623];
    let y = write_all(&mut dio, &mut s, &data).unwrap();
    flush_all(&mut dio, &mut s).unwrap();
    assert_eq!(data.len(), y);
    assert_eq!(s.data, data.to_vec());
}

#[test]
fn mixed_write_then_flush() {
    let mut s = sink();
    let mut w = writer(512, 1024);
    let data = [4u8; 623];
    assert_eq!(write_all(&mut w, &mut s, &data), Ok(623));
    assert_eq!(w.pending_len(), 111);
    flush_all(&mut w, &mut s).unwrap();
    assert_eq!(s.data.len(), 623);
    assert_eq!(s.data, data.to_vec());
    assert_eq!(s.tails, vec![111]);
    assert_eq!(s.aligned, vec![512]);
    assert!(!s.aligned.contains(&1024));
    assert_eq!(w.pending_len(), 0);
}

#[test]
fn straddling_writes() {
    let mut s = sink();
    let mut w = writer(512, 1024);
    let a = pattern(900, 1);
    let b = pattern(900, 2);
    assert_eq!(write_all(&mut w, &mut s, &a), Ok(900));
    assert_eq!(w.pending_len(), 388);
    assert_eq!(write_all(&mut w, &mut s, &b), Ok(900));
    assert_eq!(w.pending_len(), 264);
    flush_all(&mut w, &mut s).unwrap();
    assert_eq!(s.data.len(), 1800);
    assert_eq!(s.data, [a, b].concat());
    assert_eq!(s.aligned, vec![512, 1024]);
    assert_eq!(s.tails, vec![264]);
}

#[test]
fn full_buffer_request_is_staged_bytes_then_input() {
    let mut w = writer(512, 1024);
    let mut s = sink();
    let a = pattern(300, 3);
    let b = pattern(800, 4);
    assert_eq!(write_all(&mut w, &mut s, &a), Ok(300));
    assert_eq!(w.write(&b), Ok(Step::Issue));
    assert_eq!(w.phase(), Phase::Staged { resume: 724 });
    let mut full = a.clone();
    full.extend_from_slice(&b[..724]);
    assert_eq!(w.request(&b).unwrap(), &full[..]);
    assert_eq!(w.write_direct(&b, 1024, 0), Ok(Step::Written(800)));
    assert_eq!(w.pending_len(), 76);
    assert_eq!(w.phase(), Phase::Idle);
}

#[test]
fn top_up_below_capacity_needs_no_sink() {
    let mut w = writer(512, 1024);
    let mut s = sink();
    assert_eq!(write_all(&mut w, &mut s, &pattern(100, 0)), Ok(100));
    // 100 + 900 = 1000 < 1024: buffered whole, though more than a block.
    assert_eq!(w.write(&pattern(900, 1)), Ok(Step::Written(900)));
    assert_eq!(w.pending_len(), 1000);
    assert!(s.aligned.is_empty());
    // 1000 + 24 reaches the capacity: the full buffer leaves.
    assert_eq!(w.write(&pattern(24, 2)), Ok(Step::Issue));
    assert_eq!(w.request(&pattern(24, 2)).unwrap().len(), 1024);
}

#[test]
fn round_trip_of_many_writes() {
    let mut s = sink();
    let mut w = writer(512, 1024);
    let mut all = Vec::new();
    let lengths = [0usize, 1, 511, 512, 513, 1023, 1024, 1025, 3000, 7, 4096, 100, 100, 900];
    for (i, len) in lengths.iter().enumerate() {
        let data = pattern(*len, i);
        assert_eq!(write_all(&mut w, &mut s, &data), Ok(*len));
        assert!(w.pending_len() < w.capacity());
        all.extend_from_slice(&data);
    }
    flush_all(&mut w, &mut s).unwrap();
    assert_eq!(s.data, all);
    assert!(s.aligned.iter().all(|n| *n > 0 && n % 512 == 0));
    assert_eq!(w.close(), Ok(3));
}

#[test]
fn round_trip_with_a_sink_that_takes_less() {
    let mut s = sink();
    s.limit = 700;
    let mut w = writer(512, 512);
    let mut all = Vec::new();
    for (i, len) in [5000usize, 3, 1500, 512].iter().enumerate() {
        let data = pattern(*len, i);
        assert_eq!(write_all(&mut w, &mut s, &data), Ok(*len));
        all.extend_from_slice(&data);
    }
    flush_all(&mut w, &mut s).unwrap();
    assert_eq!(s.data, all);
    assert!(s.aligned.iter().all(|n| n % 512 == 0));
}

#[test]
fn every_write_accepts_its_whole_input() {
    for len in [0usize, 1, 100, 511, 512, 1024, 2047, 2048, 10_000] {
        let mut s = sink();
        let mut w = writer(512, 1024);
        write_all(&mut w, &mut s, &[9u8; 77]).unwrap();
        assert_eq!(write_all(&mut w, &mut s, &vec![1u8; len]), Ok(len));
    }
}

#[test]
fn empty_write_is_a_no_op() {
    let mut s = sink();
    let mut w = writer(512, 1024);
    assert_eq!(w.write(&[]), Ok(Step::Written(0)));
    assert_eq!(w.pending_len(), 0);
    write_all(&mut w, &mut s, &[1, 2, 3]).unwrap();
    assert_eq!(w.write(&[]), Ok(Step::Written(0)));
    assert_eq!(w.pending_len(), 3);
    assert!(s.data.is_empty());
}

#[test]
fn flush_twice_writes_nothing_more() {
    let mut s = sink();
    let mut w = writer(512, 1024);
    write_all(&mut w, &mut s, &pattern(700, 0)).unwrap();
    flush_all(&mut w, &mut s).unwrap();
    let after_first = s.data.clone();
    let calls = s.calls;
    flush_all(&mut w, &mut s).unwrap();
    assert_eq!(s.data, after_first);
    assert_eq!(s.calls, calls);
    assert_eq!(s.tails, vec![188]);
    assert_eq!(s.flags, FLAGS);
}

#[test]
fn small_writes_stay_off_the_aligned_path() {
    let mut s = sink();
    let mut w = writer(512, 1024);
    let a = pattern(200, 0);
    let b = pattern(311, 1);
    assert_eq!(write_all(&mut w, &mut s, &a), Ok(200));
    assert_eq!(write_all(&mut w, &mut s, &b), Ok(311));
    assert!(s.data.is_empty());
    flush_all(&mut w, &mut s).unwrap();
    assert!(s.aligned.is_empty());
    assert_eq!(s.tails, vec![511]);
    assert_eq!(s.data, [a, b].concat());
}

#[test]
fn exactly_the_capacity_is_one_aligned_write() {
    let mut s = sink();
    let mut w = writer(512, 1024);
    let data = pattern(1024, 0);
    assert_eq!(w.write(&data), Ok(Step::Issue));
    assert_eq!(w.phase(), Phase::Direct { pos: 0, len: 1024 });
    assert_eq!(w.request(&data).unwrap(), &data[..]);
    assert_eq!(w.write_direct(&data, 1024, 0), Ok(Step::Written(1024)));
    assert_eq!(w.pending_len(), 0);
    let mut w = writer(512, 1024);
    assert_eq!(write_all(&mut w, &mut s, &data), Ok(1024));
    assert_eq!(s.aligned, vec![1024]);
    assert_eq!(w.pending_len(), 0);
}

#[test]
fn direct_request_is_rounded_down_to_blocks() {
    let mut w = writer(512, 1024);
    let data = pattern(1700, 0);
    assert_eq!(w.write(&data), Ok(Step::Issue));
    assert_eq!(w.phase(), Phase::Direct { pos: 0, len: 1536 });
    // the sink takes 100 bytes only: the rest is asked for again, rounded anew
    assert_eq!(w.write_direct(&data, 100, 0), Ok(Step::Issue));
    assert_eq!(w.phase(), Phase::Direct { pos: 100, len: 1536 });
    assert_eq!(w.request(&data).unwrap(), &data[100..1636]);
    assert_eq!(w.write_direct(&data, 1536, 0), Ok(Step::Written(1700)));
    assert_eq!(w.pending_len(), 64);
}

#[test]
fn flush_steps_relax_and_restore_the_mode() {
    let mut w = writer(512, 1024);
    let mut s = sink();
    write_all(&mut w, &mut s, &[7u8; 10]).unwrap();
    assert_eq!(w.flush(), Ok(Step::GetMode));
    assert_eq!(w.phase(), Phase::Querying);
    assert_eq!(w.flush_next(FLAGS, 0), Ok(Step::SetMode(FLAGS & !libc::O_DIRECT)));
    assert_eq!(w.phase(), Phase::Relaxing { flags: FLAGS });
    assert_eq!(w.flush_next(0, 0), Ok(Step::Issue));
    assert_eq!(w.request(&[]).unwrap(), &[7u8; 10][..]);
    assert_eq!(w.write_direct(&[], 10, 0), Ok(Step::SetMode(FLAGS)));
    assert_eq!(w.pending_len(), 0);
    assert_eq!(w.flush_next(0, 0), Ok(Step::Flushed));
    assert_eq!(w.phase(), Phase::Idle);
}

#[test]
fn flush_with_nothing_staged_skips_the_write() {
    let mut w = writer(512, 1024);
    assert_eq!(w.flush(), Ok(Step::GetMode));
    assert_eq!(w.flush_next(FLAGS, 0), Ok(Step::SetMode(FLAGS & !libc::O_DIRECT)));
    assert_eq!(w.flush_next(0, 0), Ok(Step::SetMode(FLAGS)));
    assert_eq!(w.flush_next(0, 0), Ok(Step::Flushed));
}

#[test]
fn short_tail_write_is_asked_again() {
    let mut w = writer(512, 1024);
    let mut s = sink();
    let data = pattern(10, 0);
    write_all(&mut w, &mut s, &data).unwrap();
    s.limit = 4;
    flush_all(&mut w, &mut s).unwrap();
    assert_eq!(s.data, data);
    assert_eq!(s.tails, vec![10, 6, 2]);
    assert_eq!(w.pending_len(), 0);
    assert_eq!(s.flags, FLAGS);
}

#[test]
fn short_tail_write_keeps_the_rest_staged() {
    let mut w = writer(512, 1024);
    let mut s = sink();
    let data = pattern(10, 0);
    write_all(&mut w, &mut s, &data).unwrap();
    assert_eq!(w.flush(), Ok(Step::GetMode));
    w.flush_next(FLAGS, 0).unwrap();
    assert_eq!(w.flush_next(0, 0), Ok(Step::Issue));
    assert_eq!(w.write_direct(&[], 4, 0), Ok(Step::Issue));
    assert_eq!(w.phase(), Phase::Draining { flags: FLAGS });
    assert_eq!(w.pending_len(), 6);
    assert_eq!(w.request(&[]).unwrap(), &data[4..]);
    assert_eq!(w.write_direct(&[], 0, 0), Ok(Step::Issue));
    assert_eq!(w.request(&[]).unwrap(), &data[4..]);
    assert_eq!(w.write_direct(&[], 6, 0), Ok(Step::SetMode(FLAGS)));
    assert_eq!(w.pending_len(), 0);
    assert_eq!(w.flush_next(0, 0), Ok(Step::Flushed));
    assert_eq!(w.close(), Ok(3));
}

#[test]
fn failed_tail_write_after_a_short_one_keeps_the_rest() {
    let mut w = writer(512, 1024);
    let mut s = sink();
    let data = pattern(10, 0);
    write_all(&mut w, &mut s, &data).unwrap();
    s.limit = 4;
    s.fail_after = 1;
    assert_eq!(flush_all(&mut w, &mut s), Err(WriterError::IoError(5)));
    assert_eq!(s.data, data[..4].to_vec());
    assert_eq!(s.flags, FLAGS);
    assert_eq!(w.pending_len(), 6);
    assert_eq!(w.phase(), Phase::Idle);
    s.limit = usize::MAX;
    s.fail_after = usize::MAX;
    flush_all(&mut w, &mut s).unwrap();
    assert_eq!(s.data, data);
}

#[test]
fn open_rejects_a_bad_geometry() {
    let f = OpenFlags::platform();
    assert_eq!(DirectIO::open(3, 0, 500, 1000, f).err(), Some(WriterError::InvalidGeometry));
    assert_eq!(DirectIO::open(3, 0, 0, 1024, f).err(), Some(WriterError::InvalidGeometry));
    assert_eq!(DirectIO::open(3, 0, 512, 256, f).err(), Some(WriterError::InvalidGeometry));
    assert_eq!(DirectIO::open(3, 0, 512, 768, f).err(), Some(WriterError::InvalidGeometry));
    assert_eq!(DirectIO::open(-1, 2, 512, 768, f).err(), Some(WriterError::InvalidGeometry));
    assert!(DirectIO::open(3, 0, 1, 1, f).is_ok());
    assert!(DirectIO::open(0, 0, 512, 512, f).is_ok());
}

#[test]
fn open_reports_the_failure_of_the_open_call() {
    let f = OpenFlags::platform();
    assert_eq!(DirectIO::open(-1, 13, 512, 1024, f).err(), Some(WriterError::IoError(13)));
    let w = writer(512, 2048);
    assert_eq!(w.descriptor(), 3);
    assert_eq!(w.block_size(), 512);
    assert_eq!(w.capacity(), 2048);
    assert_eq!(w.pending_len(), 0);
    assert_eq!(w.phase(), Phase::Idle);
}

#[test]
fn failed_write_keeps_what_the_sink_took() {
    let mut s = sink();
    s.limit = 512;
    s.fail_after = 1;
    let mut w = writer(512, 1024);
    let data = pattern(2000, 0);
    assert_eq!(write_all(&mut w, &mut s, &data), Err(WriterError::IoError(5)));
    assert_eq!(s.data, data[..512].to_vec());
    assert_eq!(w.phase(), Phase::Idle);
    assert_eq!(w.pending_len(), 0);
    // the writer goes on with the next call
    s.fail_after = usize::MAX;
    assert_eq!(write_all(&mut w, &mut s, &[1u8; 5]), Ok(5));
}

#[test]
fn failed_full_buffer_write_keeps_the_staged_bytes() {
    let mut s = sink();
    let mut w = writer(512, 1024);
    write_all(&mut w, &mut s, &pattern(300, 0)).unwrap();
    s.fail_after = 0;
    assert_eq!(write_all(&mut w, &mut s, &pattern(900, 1)), Err(WriterError::IoError(5)));
    assert_eq!(w.pending_len(), 300);
    assert_eq!(w.phase(), Phase::Idle);
    s.fail_after = usize::MAX;
    flush_all(&mut w, &mut s).unwrap();
    assert_eq!(s.data, pattern(300, 0));
}

#[test]
fn flush_reports_each_failed_call() {
    let mut w = writer(512, 1024);
    let mut s = sink();
    write_all(&mut w, &mut s, &[1u8; 9]).unwrap();
    assert_eq!(w.flush(), Ok(Step::GetMode));
    assert_eq!(w.flush_next(-1, 9), Err(WriterError::IoError(9)));
    assert_eq!(w.phase(), Phase::Idle);

    assert_eq!(w.flush(), Ok(Step::GetMode));
    w.flush_next(FLAGS, 0).unwrap();
    assert_eq!(w.flush_next(-1, 22), Err(WriterError::IoError(22)));
    assert_eq!(w.pending_len(), 9);

    assert_eq!(w.flush(), Ok(Step::GetMode));
    w.flush_next(FLAGS, 0).unwrap();
    assert_eq!(w.flush_next(0, 0), Ok(Step::Issue));
    assert_eq!(w.write_direct(&[], -1, 28), Ok(Step::SetMode(FLAGS)));
    assert_eq!(w.phase(), Phase::Recovering { code: 28 });
    assert_eq!(w.write(&[1]), Err(WriterError::OutOfTurn));
    assert_eq!(w.flush_next(0, 0), Err(WriterError::IoError(28)));
    assert_eq!(w.phase(), Phase::Idle);
    assert_eq!(w.pending_len(), 9);

    assert_eq!(w.flush(), Ok(Step::GetMode));
    w.flush_next(FLAGS, 0).unwrap();
    w.flush_next(0, 0).unwrap();
    assert_eq!(w.write_direct(&[], -1, 28), Ok(Step::SetMode(FLAGS)));
    assert_eq!(w.flush_next(-1, 77), Err(WriterError::IoError(77)));
    assert_eq!(w.pending_len(), 9);

    assert_eq!(w.flush(), Ok(Step::GetMode));
    w.flush_next(FLAGS, 0).unwrap();
    w.flush_next(0, 0).unwrap();
    assert_eq!(w.write_direct(&[], 9, 0), Ok(Step::SetMode(FLAGS)));
    assert_eq!(w.flush_next(-1, 1), Err(WriterError::IoError(1)));
    assert_eq!(w.pending_len(), 0);
    assert_eq!(w.phase(), Phase::Idle);
}

#[test]
fn closed_writer_refuses_every_operation() {
    let mut w = writer(512, 1024);
    let mut s = sink();
    write_all(&mut w, &mut s, &[1u8; 9]).unwrap();
    flush_all(&mut w, &mut s).unwrap();
    assert_eq!(w.close(), Ok(3));
    assert_eq!(w.phase(), Phase::Closed);
    assert_eq!(w.write(&[1, 2]), Err(WriterError::ClosedHandle));
    assert_eq!(w.flush(), Err(WriterError::ClosedHandle));
    assert_eq!(w.write_direct(&[], 0, 0), Err(WriterError::ClosedHandle));
    assert_eq!(w.flush_next(0, 0), Err(WriterError::ClosedHandle));
    assert_eq!(w.close(), Err(WriterError::ClosedHandle));
    assert_eq!(w.discard(), Err(WriterError::ClosedHandle));
    assert_eq!(s.data, vec![1u8; 9]);
}

#[test]
fn close_waits_for_the_staged_bytes() {
    let mut w = writer(512, 1024);
    let mut s = sink();
    let data = pattern(700, 0);
    write_all(&mut w, &mut s, &data).unwrap();
    assert_eq!(w.close(), Err(WriterError::Unflushed));
    assert_eq!(w.phase(), Phase::Idle);
    assert_eq!(w.pending_len(), 188);
    flush_all(&mut w, &mut s).unwrap();
    assert_eq!(w.close(), Ok(3));
    assert_eq!(s.data, data);
}

#[test]
fn close_of_a_fresh_writer_gives_the_handle() {
    let mut w = writer(512, 1024);
    assert_eq!(w.close(), Ok(3));
    assert_eq!(w.phase(), Phase::Closed);
}

#[test]
fn discard_gives_the_handle_and_loses_the_tail() {
    let mut w = writer(512, 1024);
    let mut s = sink();
    write_all(&mut w, &mut s, &pattern(700, 0)).unwrap();
    assert_eq!(w.discard(), Ok(3));
    assert_eq!(w.phase(), Phase::Closed);
    assert_eq!(w.pending_len(), 0);
    assert_eq!(s.data, pattern(700, 0)[..512].to_vec());
    assert_eq!(w.flush(), Err(WriterError::ClosedHandle));
}

#[test]
fn calls_out_of_turn_change_nothing() {
    let mut w = writer(512, 1024);
    assert_eq!(w.write_direct(&[], 0, 0), Err(WriterError::OutOfTurn));
    assert_eq!(w.flush_next(0, 0), Err(WriterError::OutOfTurn));
    let data = pattern(600, 0);
    assert_eq!(w.write(&data), Ok(Step::Issue));
    assert_eq!(w.write(&data), Err(WriterError::OutOfTurn));
    assert_eq!(w.flush(), Err(WriterError::OutOfTurn));
    assert_eq!(w.flush_next(0, 0), Err(WriterError::OutOfTurn));
    assert_eq!(w.phase(), Phase::Direct { pos: 0, len: 512 });
    assert_eq!(w.write_direct(&data, 512, 0), Ok(Step::Written(600)));
    assert_eq!(w.flush(), Ok(Step::GetMode));
    assert_eq!(w.write(&data), Err(WriterError::OutOfTurn));
    assert_eq!(w.write_direct(&data, 0, 0), Err(WriterError::OutOfTurn));
    assert_eq!(w.request(&data), Err(WriterError::OutOfTurn));
}

#[test]
fn only_discard_ends_a_write_in_progress() {
    let mut w = DirectIO::open(11, 0, 512, 1024, OpenFlags::platform()).unwrap();
    assert_eq!(w.write(&pattern(600, 0)), Ok(Step::Issue));
    assert_eq!(w.close(), Err(WriterError::OutOfTurn));
    assert_eq!(w.phase(), Phase::Direct { pos: 0, len: 512 });
    assert_eq!(w.discard(), Ok(11));
    assert_eq!(w.phase(), Phase::Closed);
}

#[test]
fn close_result_reads_the_return_code() {
    assert_eq!(DirectIO::close_result(0, 9), Ok(()));
    assert_eq!(DirectIO::close_result(-1, 9), Err(WriterError::IoError(9)));
    assert_eq!(DirectIO::close_result(1, 5), Err(WriterError::IoError(5)));
}

#[test]
fn open_flags_are_those_of_the_platform() {
    let f = OpenFlags::platform();
    assert_eq!(f.direct, libc::O_DIRECT);
    assert_eq!(f.write_only, libc::O_WRONLY);
    assert_eq!(f.create, libc::O_CREAT);
    assert_eq!(f.truncate, libc::O_TRUNC);
    assert_eq!(
        DirectIO::open_flags(f),
        libc::O_DIRECT | libc::O_WRONLY | libc::O_CREAT | libc::O_TRUNC
    );
    let g = OpenFlags { direct: 1, write_only: 2, create: 4, truncate: 8 };
    assert_eq!(DirectIO::open_flags(g), 15);
    assert_eq!(DirectIO::open_flags(OpenFlags { truncate: 0, ..g }), 7);
    assert_eq!(DirectIO::open_mode(), 0o644);
}

#[test]
fn flush_clears_the_direct_flag_it_was_opened_with() {
    let g = OpenFlags { direct: 0x10, write_only: 1, create: 0x40, truncate: 0x200 };
    let mut w = DirectIO::open(3, 0, 512, 1024, g).unwrap();
    assert_eq!(w.flush(), Ok(Step::GetMode));
    assert_eq!(w.flush_next(0x8011, 0), Ok(Step::SetMode(0x8001)));
    assert_eq!(w.flush_next(0, 0), Ok(Step::SetMode(0x8011)));
    assert_eq!(w.flush_next(0, 0), Ok(Step::Flushed));
}

#[test]
fn another_input_in_the_middle_of_a_write_is_out_of_turn() {
    let mut w = writer(512, 1024);
    let data = pattern(1700, 0);
    assert_eq!(w.write(&data), Ok(Step::Issue));
    assert_eq!(w.request(&data[..1699]), Err(WriterError::OutOfTurn));
    assert_eq!(w.write_direct(&data[..1699], 1536, 0), Err(WriterError::OutOfTurn));
    assert_eq!(w.write_direct(&[], -1, 5), Err(WriterError::OutOfTurn));
    assert_eq!(w.phase(), Phase::Direct { pos: 0, len: 1536 });
    assert_eq!(w.write_direct(&data, 1536, 0), Ok(Step::Written(1700)));

    let mut w = writer(512, 1024);
    let mut s = sink();
    write_all(&mut w, &mut s, &pattern(300, 3)).unwrap();
    let b = pattern(800, 4);
    assert_eq!(w.write(&b), Ok(Step::Issue));
    assert_eq!(w.request(&b[1..]), Err(WriterError::OutOfTurn));
    assert_eq!(w.write_direct(&b[1..], 1024, 0), Err(WriterError::OutOfTurn));
    assert_eq!(w.phase(), Phase::Staged { resume: 724 });
    assert_eq!(w.write_direct(&b, 1024, 0), Ok(Step::Written(800)));
}

#[test]
fn request_without_a_pending_request_is_refused() {
    let mut w = writer(512, 1024);
    assert_eq!(w.request(&[]), Err(WriterError::OutOfTurn));
    assert_eq!(w.flush(), Ok(Step::GetMode));
    assert_eq!(w.request(&[]), Err(WriterError::OutOfTurn));
    assert_eq!(w.discard(), Ok(3));
    assert_eq!(w.request(&[]), Err(WriterError::ClosedHandle));
}
