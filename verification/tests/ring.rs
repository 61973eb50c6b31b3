use ferrite::buffer::Buffer;
use ferrite::exceptions::CustomError;
use ferrite::spmc::amid::Act;
use ferrite::spmc::{
    push_wakes, write_wakes, ReaderAction, Ring, RingConsumer, RingProducer, READ_RETRIES,
};

/// A consumer that the producer gates against.
fn gated<const N: usize, const M: usize>(producer: &mut RingProducer<u8, N, M>) -> RingConsumer {
    let consumer = producer.subscribe();
    producer.add_consumer(consumer.cursor());
    consumer
}

/// A run of writes, and how many of them were refused.
fn write_seq<const N: usize>(p: &mut RingProducer<u8, N, 2>, from: u8, to: u8) -> usize {
    (from..to)
        .filter(|i| p.write(&[*i; 2]) == Err(CustomError::SlowConsumer))
        .count()
}

#[test]
fn test_buffer_u8() -> Result<(), CustomError> {
    let mut buffer = Buffer::<u8, 4>::new();
    buffer.write(&[1u8, 2u8, 3u8, 4u8])?;
    println!("{:?}", &buffer);
    assert_eq!(&buffer[..], &[1u8, 2u8, 3u8, 4u8]);
    Ok(())
}

#[test]
fn buffer_refuses_what_does_not_fit() {
    let mut buffer = Buffer::<u8, 4>::new();
    assert_eq!(buffer.write(&[1, 2, 3]), Err(CustomError::MismatchInputLength));
    assert_eq!(buffer.write(&[1, 2, 3, 4, 5]), Err(CustomError::MismatchInputLength));
    assert_eq!(&buffer[..], &[0, 0, 0, 0]);
    assert_eq!(buffer.set(4, 9), Err(CustomError::InvalidIndex));
    assert_eq!(buffer.set(3, 9), Ok(()));
    assert_eq!(&buffer[..], &[0, 0, 0, 9]);
}

#[test]
fn test_write_advances_head() {
    let mut producer = RingProducer::<u8, 4, 2>::new(false);
    assert_eq!(producer.ring().head_relaxed(), 0);
    producer.write(&[1u8; 2]).unwrap();
    assert_eq!(producer.ring().head_relaxed(), 1);
    producer.write(&[2u8; 2]).unwrap();
    assert_eq!(producer.ring().head_relaxed(), 2);
}

#[test]
fn test_reads_past_capacity_wrap_correctly() {
    let mut producer = RingProducer::<u8, 4, 2>::new(true);
    let consumer = gated(&mut producer);

    let mut dst = [0u8; 2];
    for i in 0..40u8 {
        producer.write(&[i; 2]).unwrap();
        consumer
            .read_into(producer.ring_mut(), &mut dst)
            .expect("wrapped index must stay valid");
        assert_eq!(dst, [i, i]);
    }
    assert_eq!(consumer.head(producer.ring()), 40);
}

#[test]
fn test_blocking_empty_ring_does_not_gate() {
    let mut producer = RingProducer::<u8, 4, 2>::new(true);
    let consumer = gated(&mut producer);

    producer.write(&[1u8; 2]).unwrap();
    assert_eq!(producer.ring().head_relaxed(), 1, "empty ring must accept a write");

    let mut dst = [0u8; 2];
    consumer.read_into(producer.ring_mut(), &mut dst).unwrap();
    assert_eq!(consumer.head(producer.ring()), 1, "consumer now caught up");

    producer.write(&[2u8; 2]).unwrap();
    assert_eq!(producer.ring().head_relaxed(), 2, "caught-up consumer must not gate");
}

#[test]
fn test_blocking_gates_at_capacity() {
    let mut producer = RingProducer::<u8, 4, 2>::new(true);
    let consumer = gated(&mut producer);

    assert_eq!(write_seq(&mut producer, 0, 4), 1, "the 4th write is refused");
    assert_eq!(producer.ring().head_relaxed(), 3, "N-1 blocks fit, then it gates");

    for i in 4..8u8 {
        assert_eq!(
            producer.write(&[i; 2]),
            Err(CustomError::SlowConsumer),
            "write {i} must report the refusal, not swallow it"
        );
        assert_eq!(producer.ring().head_relaxed(), 3, "write {i} must be gated");
    }
    assert_eq!(
        consumer.head(producer.ring()),
        0,
        "blocking mode never moves a consumer cursor"
    );
}

#[test]
fn test_blocking_resumes_after_drain() {
    let mut producer = RingProducer::<u8, 4, 2>::new(true);
    let consumer = gated(&mut producer);

    write_seq(&mut producer, 0, 4);
    assert_eq!(producer.ring().head_relaxed(), 3, "full");

    let mut dst = [0u8; 2];
    consumer.read_into(producer.ring_mut(), &mut dst).unwrap();
    assert_eq!(dst, [0, 0], "oldest block survives");

    producer.write(&[99; 2]).expect("one slot freed buys one write");
    assert_eq!(producer.ring().head_relaxed(), 4);

    assert_eq!(producer.write(&[98; 2]), Err(CustomError::SlowConsumer), "gated again");
    assert_eq!(producer.ring().head_relaxed(), 4);
}

#[test]
fn test_blocking_loses_nothing() {
    let mut producer = RingProducer::<u8, 4, 2>::new(true);
    let consumer = gated(&mut producer);

    let mut dst = [0u8; 2];
    let mut got = Vec::new();
    for i in 0..20u8 {
        producer.write(&[i; 2]).unwrap();
        while consumer.read_into(producer.ring_mut(), &mut dst).is_ok() {
            got.push(dst[0]);
        }
    }
    assert_eq!(got, (0..20u8).collect::<Vec<_>>(), "no gaps, no reordering");
}

#[test]
fn test_non_blocking_never_stalls() {
    let mut producer = RingProducer::<u8, 4, 2>::new(false);
    let consumer = gated(&mut producer);

    for i in 0..12u8 {
        let before = producer.ring().head_relaxed();
        producer.write(&[i; 2]).unwrap();
        assert_eq!(producer.ring().head_relaxed(), before + 1, "write {i} must land");
    }
    assert_eq!(producer.ring().head_relaxed(), 12, "three full laps");
    assert_eq!(
        consumer.head(producer.ring()),
        0,
        "producer must not write the consumer's cursor"
    );
}

#[test]
fn test_non_blocking_lapped_consumer_resyncs_to_midpoint() {
    let mut producer = RingProducer::<u8, 8, 2>::new(false);
    let consumer = gated(&mut producer);

    for i in 0..20u8 {
        producer.write(&[i; 2]).unwrap();
    }
    assert_eq!(producer.ring().head_relaxed(), 20);

    let mut dst = [0u8; 2];
    consumer.read_into(producer.ring_mut(), &mut dst).unwrap();

    assert_eq!(dst, [16, 16], "reads the midpoint block");
    assert_eq!(consumer.head(producer.ring()), 17);

    for expected in 17..20u8 {
        consumer.read_into(producer.ring_mut(), &mut dst).unwrap();
        assert_eq!(dst, [expected, expected]);
    }
    assert_eq!(
        consumer.read_into(producer.ring_mut(), &mut dst),
        Err(CustomError::SlowProducer),
        "backlog drained"
    );
}

#[test]
fn test_non_blocking_loses_a_prefix_but_not_correctness() {
    let mut producer = RingProducer::<u8, 4, 2>::new(false);
    let consumer = gated(&mut producer);

    for i in 0..10u8 {
        producer.write(&[i; 2]).unwrap();
    }

    let mut dst = [0u8; 2];
    let mut got = Vec::new();
    while consumer.read_into(producer.ring_mut(), &mut dst).is_ok() {
        assert_eq!(dst[0], dst[1], "block must never be torn");
        got.push(dst[0]);
    }

    assert!(!got.is_empty(), "something survived");
    assert!(got[0] > 0, "the oldest blocks were legitimately lost");
    for w in got.windows(2) {
        assert_eq!(w[1], w[0] + 1, "surviving blocks are contiguous: {got:?}");
    }
    assert_eq!(got, vec![8, 9]);
}

#[test]
fn test_push_publishes_only_on_the_last_element() {
    let mut producer = RingProducer::<u8, 4, 4>::new(false);
    let consumer = producer.subscribe();

    let mut dst = [0u8; 4];
    for (i, x) in [10u8, 11, 12].into_iter().enumerate() {
        assert_eq!(producer.push(x), Ok(false), "element {i} does not publish");
        assert_eq!(producer.ring().head_relaxed(), 0, "head pinned mid-block");
        assert_eq!(producer.pending(), i + 1);
        assert_eq!(
            consumer.read_into(producer.ring_mut(), &mut dst),
            Err(CustomError::SlowProducer),
            "a partial block must not be readable"
        );
    }

    assert_eq!(producer.push(13), Ok(true), "the Mth element publishes");
    assert_eq!(producer.ring().head_relaxed(), 1);
    assert_eq!(producer.pending(), 0, "fill resets for the next block");

    consumer.read_into(producer.ring_mut(), &mut dst).unwrap();
    assert_eq!(dst, [10, 11, 12, 13], "elements land in push order");
}

#[test]
fn test_push_matches_write_across_laps() {
    let mut pushed = RingProducer::<u8, 4, 4>::new(false);
    let mut written = RingProducer::<u8, 4, 4>::new(false);
    let (cp, cw) = (pushed.subscribe(), written.subscribe());

    for b in 0..12u8 {
        let block = [b * 4, b * 4 + 1, b * 4 + 2, b * 4 + 3];
        for x in block {
            pushed.push(x).unwrap();
        }
        written.write(&block).unwrap();

        let (mut a, mut c) = ([0u8; 4], [0u8; 4]);
        cp.read_into(pushed.ring_mut(), &mut a).unwrap();
        cw.read_into(written.ring_mut(), &mut c).unwrap();
        assert_eq!(a, c, "block {b}");
        assert_eq!(a, block);
    }
    assert_eq!(pushed.ring().head_relaxed(), written.ring().head_relaxed());
}

#[test]
fn test_push_blocking_gates_at_block_boundaries_only() {
    let mut producer = RingProducer::<u8, 4, 4>::new(true);
    let consumer = gated(&mut producer);

    for x in 0..12u8 {
        producer.push(x).unwrap();
    }
    assert_eq!(producer.ring().head_relaxed(), 3, "at the guard band");

    assert_eq!(producer.push(99), Err(CustomError::SlowConsumer));
    assert_eq!(producer.pending(), 0, "a refused push opens no slot");

    let mut dst = [0u8; 4];
    consumer.read_into(producer.ring_mut(), &mut dst).unwrap();
    assert_eq!(dst, [0, 1, 2, 3]);

    assert_eq!(producer.push(90), Ok(false));
    for x in [91u8, 92] {
        assert_eq!(producer.push(x), Ok(false), "mid-block push must not gate");
    }
    assert_eq!(producer.push(93), Ok(true), "the block completes");
    assert_eq!(producer.ring().head_relaxed(), 4);

    for expected in [[4u8, 5, 6, 7], [8, 9, 10, 11], [90, 91, 92, 93]] {
        consumer.read_into(producer.ring_mut(), &mut dst).unwrap();
        assert_eq!(dst, expected);
    }
}

#[test]
fn test_push_non_blocking_never_refuses() {
    let mut producer = RingProducer::<u8, 4, 2>::new(false);
    gated(&mut producer);

    for x in 0..40u8 {
        assert!(producer.push(x).is_ok(), "push {x} must not be refused");
    }
    assert_eq!(producer.ring().head_relaxed(), 20);
}

/// The producer pushes while the consumer is in the middle of its copy: the
/// copy is either whole or thrown away.
#[test]
fn test_push_does_not_tear_under_saturation() {
    const N: usize = 8;
    const M: usize = 256;
    const BLOCKS: u32 = 20_000;

    let mut producer = RingProducer::<u32, N, M>::new(false);
    let consumer = producer.subscribe();
    producer.add_consumer(consumer.cursor());

    let (mut torn, mut got) = (0u64, 0u64);
    let mut claimed: Option<(u64, Vec<u32>)> = None;
    for b in 0..BLOCKS {
        for k in 0..M {
            producer.push(b).unwrap();
            // Copy an element or two for every one that is pushed.
            if claimed.is_none() {
                claimed = consumer.claim(producer.ring_mut()).ok().map(|s| (s, Vec::new()));
            }
            if let Some((seq, copy)) = &mut claimed {
                let slot = producer.ring().slot((*seq % N as u64) as usize).unwrap();
                copy.push(slot[copy.len()]);
                if k % 3 == 0 && copy.len() < M {
                    copy.push(slot[copy.len()]);
                }
            }
            let full = matches!(&claimed, Some((_, copy)) if copy.len() == M);
            if full {
                let (seq, copy) = claimed.take().unwrap();
                if consumer.settle(producer.ring_mut(), seq, 0) == Ok(true) {
                    got += 1;
                    if copy.iter().any(|&x| x != copy[0]) {
                        torn += 1;
                    }
                }
            }
        }
    }
    assert!(got > 0, "consumer received nothing");
    assert_eq!(torn, 0, "{torn} torn blocks out of {got} received");
}

#[test]
fn test_read_into_copies_and_advances() {
    let mut producer = RingProducer::<u8, 4, 2>::new(true);
    let consumer = gated(&mut producer);

    producer.write(&[7u8; 2]).unwrap();

    let mut dst = [0u8; 2];
    consumer.read_into(producer.ring_mut(), &mut dst).unwrap();
    assert_eq!(dst, [7, 7], "block copied out");
    assert_eq!(consumer.head(producer.ring()), 1, "cursor advanced");

    assert_eq!(
        consumer.read_into(producer.ring_mut(), &mut dst),
        Err(CustomError::SlowProducer)
    );
    assert_eq!(consumer.head(producer.ring()), 1, "failed read must not advance");
}

#[test]
fn test_read_into_rejects_wrong_length() {
    let mut producer = RingProducer::<u8, 4, 2>::new(true);
    let consumer = gated(&mut producer);
    producer.write(&[1u8; 2]).unwrap();

    let mut too_small = [0u8; 1];
    assert_eq!(
        consumer.read_into(producer.ring_mut(), &mut too_small),
        Err(CustomError::MismatchInputLength)
    );
    let mut too_big = [0u8; 3];
    assert_eq!(
        consumer.read_into(producer.ring_mut(), &mut too_big),
        Err(CustomError::MismatchInputLength)
    );

    let mut dst = [0u8; 2];
    consumer.read_into(producer.ring_mut(), &mut dst).unwrap();
    assert_eq!(dst, [1, 1]);
}

#[test]
fn test_read_guard_derefs_to_block() {
    let mut producer = RingProducer::<u8, 4, 2>::new(true);
    let mut consumer = gated(&mut producer);
    producer.write(&[5u8; 2]).unwrap();

    let guard = consumer.read_guard(producer.ring_mut()).unwrap();
    assert_eq!(guard.block(producer.ring()), &[5u8, 5u8], "the guard gives the block");
    assert_eq!(guard.seq(), 0);
    assert!(guard.is_valid(producer.ring()));
}

#[test]
fn test_read_guard_advances_only_on_drop() {
    let mut producer = RingProducer::<u8, 4, 2>::new(true);
    let mut consumer = gated(&mut producer);
    producer.write(&[5u8; 2]).unwrap();

    let cursor = consumer.cursor();
    {
        let guard = consumer.read_guard(producer.ring_mut()).unwrap();
        assert_eq!(producer.ring().position(cursor), 0, "held: cursor pinned");
        guard.release(producer.ring_mut());
    }
    assert_eq!(producer.ring().position(cursor), 1, "dropped: cursor released");
}

#[test]
fn test_read_guard_applies_back_pressure() {
    let mut producer = RingProducer::<u8, 4, 2>::new(true);
    let mut consumer = gated(&mut producer);

    write_seq(&mut producer, 0, 4);
    assert_eq!(producer.ring().head_relaxed(), 3, "ring full");

    {
        let guard = consumer.read_guard(producer.ring_mut()).unwrap();
        assert_eq!(guard.block(producer.ring()), &[0u8, 0u8]);

        assert_eq!(
            producer.write(&[42; 2]),
            Err(CustomError::SlowConsumer),
            "producer must not overwrite the slot under the guard"
        );
        assert_eq!(producer.ring().head_relaxed(), 3);
        assert!(guard.is_valid(producer.ring()), "and so the block stays intact");
        assert_eq!(guard.block(producer.ring()), &[0u8, 0u8]);
        guard.release(producer.ring_mut());
    }

    producer.write(&[42; 2]).expect("released: one write lands");
    assert_eq!(producer.ring().head_relaxed(), 4);
}

#[test]
fn test_refused_write_is_reported_and_retryable() {
    let mut producer = RingProducer::<u8, 4, 2>::new(true);
    let consumer = gated(&mut producer);

    write_seq(&mut producer, 0, 3);
    assert_eq!(producer.ring().head_relaxed(), 3, "at the guard band");

    assert_eq!(
        producer.write(&[42; 2]),
        Err(CustomError::SlowConsumer),
        "caller is told the block did not land"
    );

    let mut dst = [0u8; 2];
    consumer.read_into(producer.ring_mut(), &mut dst).unwrap();
    assert_eq!(dst, [0, 0]);
    producer.write(&[42; 2]).expect("retry after a drain succeeds");

    for expected in [1u8, 2, 42] {
        consumer.read_into(producer.ring_mut(), &mut dst).unwrap();
        assert_eq!(dst, [expected, expected]);
    }
    assert_eq!(
        consumer.read_into(producer.ring_mut(), &mut dst),
        Err(CustomError::SlowProducer)
    );
}

#[test]
fn test_non_blocking_never_returns_slow_consumer() {
    let mut producer = RingProducer::<u8, 4, 2>::new(false);
    gated(&mut producer);

    assert_eq!(write_seq(&mut producer, 0, 20), 0, "no write may be refused");
    assert_eq!(producer.ring().head_relaxed(), 20);
}

#[test]
fn test_read_guard_empty_ring() {
    let mut producer = RingProducer::<u8, 4, 2>::new(true);
    let mut consumer = gated(&mut producer);
    assert!(matches!(
        consumer.read_guard(producer.ring_mut()),
        Err(CustomError::SlowProducer)
    ));
}

#[test]
fn test_read_guard_detects_overwrite_in_non_blocking_mode() {
    let mut producer = RingProducer::<u8, 4, 2>::new(false);
    let mut consumer = gated(&mut producer);
    producer.write(&[1u8; 2]).unwrap();

    let guard = consumer.read_guard(producer.ring_mut()).unwrap();
    assert!(guard.is_valid(producer.ring()), "intact so far");

    write_seq(&mut producer, 10, 14);
    assert!(
        !guard.is_valid(producer.ring()),
        "guard must report that its slot was reused"
    );
}

/// A producer that never lets up writes several blocks while the consumer copies
/// one. Blocks may be lost; none may come out torn.
#[test]
fn test_no_tearing_under_saturation() {
    const N: usize = 8;
    const M: usize = 256;
    const WRITES: u64 = 60_000;

    let mut producer = RingProducer::<u32, N, M>::new(false);
    let consumer = producer.subscribe();
    producer.add_consumer(consumer.cursor());

    let (mut torn, mut got, mut lost) = (0u64, 0u64, 0u64);
    let mut i: u64 = 0;
    let mut pace: u64 = 0;
    while i < WRITES {
        producer.write(&[i as u32; M]).unwrap();
        i += 1;
        let Ok(seq) = consumer.claim(producer.ring_mut()) else {
            continue;
        };
        let mut staging = [0u32; M];
        // 0 to 11 writes land while the copy is under way.
        pace = (pace * 5 + 7) % 12;
        for k in 0..M {
            let slot = producer.ring().slot((seq % N as u64) as usize).unwrap();
            staging[k] = slot[k];
            if k as u64 % 20 == 0 && (k as u64 / 20) < pace && i < WRITES {
                producer.write(&[i as u32; M]).unwrap();
                i += 1;
            }
        }
        match consumer.settle(producer.ring_mut(), seq, 0) {
            Ok(true) => {
                got += 1;
                if staging.iter().any(|&x| x != staging[0]) {
                    torn += 1;
                }
            }
            _ => lost += 1,
        }
    }
    assert!(got > 0, "consumer received nothing");
    assert!(lost > 0, "the copy was never disturbed");
    assert_eq!(torn, 0, "{torn} torn blocks out of {got} received");
}

/// The reading loop from end to end: eight blocks are delivered, then the ring
/// stays empty and the loop ends.
#[test]
fn test_ring_blocking_threaded() {
    let mut producer = RingProducer::<u8, 8, 8>::new(true);

    let consumer = producer.subscribe();
    let cursor = consumer.cursor();
    let mut reader = consumer.start_reading(Some(1));
    producer.add_consumer(cursor);

    let mut received = Vec::new();
    let mut buf = [0u8; 8];
    for i in 0..8u8 {
        producer.write(&[i; 8]).unwrap();
        loop {
            let got = consumer.read_into(producer.ring_mut(), &mut buf).is_ok();
            match reader.step(got) {
                ReaderAction::Deliver => received.push(buf),
                ReaderAction::Park(secs) => {
                    assert_eq!(secs, 1);
                    break;
                }
                other => panic!("{other:?}"),
            }
        }
    }
    assert_eq!(received, (0..8u8).map(|i| [i; 8]).collect::<Vec<_>>());

    // Parked, and still nothing: the loop ends, and the producer can join it.
    let got = consumer.read_into(producer.ring_mut(), &mut buf).is_ok();
    assert_eq!(reader.step(got), ReaderAction::Stop);
    producer.finish(0);
    let joined = producer.join_all();
    assert_eq!(joined.len(), 1);
    assert_eq!(joined[0].cursor, cursor);
    assert!(joined[0].finished);
}

#[test]
fn a_reader_without_a_timeout_never_stops() {
    let mut producer = RingProducer::<u8, 4, 2>::new(false);
    let consumer = producer.subscribe();
    let mut reader = consumer.start_reading(None);
    for _ in 0..5 {
        assert_eq!(reader.step(false), ReaderAction::Again);
    }
    assert_eq!(reader.step(true), ReaderAction::Deliver);
}

#[test]
fn a_slot_is_known_by_its_index() {
    let mut ring = Ring::<u8, 4, 2>::new();
    ring.write(&[3, 4]).unwrap();
    assert_eq!(&ring.slot(0).unwrap()[..], &[3, 4]);
    assert!(matches!(ring.slot(4), Err(CustomError::InvalidIndex)));
    assert_eq!(ring.write(&[1]), Err(CustomError::MismatchInputLength));
    assert_eq!(ring.head(), 1);
}

#[test]
fn seeking_reads_the_newest_block() {
    let mut producer = RingProducer::<u8, 8, 2>::new(false);
    let consumer = producer.subscribe();
    consumer.seek_latest(producer.ring_mut());
    assert_eq!(consumer.head(producer.ring()), 0, "nothing published yet");
    for i in 0..20u8 {
        producer.write(&[i; 2]).unwrap();
    }
    consumer.seek_latest(producer.ring_mut());
    assert_eq!(consumer.read(producer.ring_mut()).unwrap(), &[19, 19]);
    assert_eq!(consumer.read(producer.ring_mut()), Err(CustomError::SlowProducer));
}

#[test]
fn consumers_do_not_disturb_each_other() {
    let mut producer = RingProducer::<u8, 4, 2>::new(false);
    let (a, b) = (producer.subscribe(), producer.subscribe());
    for i in 0..3u8 {
        producer.write(&[i; 2]).unwrap();
    }
    for i in 0..3u8 {
        assert_eq!(a.read(producer.ring_mut()).unwrap(), &[i, i]);
    }
    assert_eq!(b.head(producer.ring()), 0);
    for i in 0..3u8 {
        assert_eq!(b.read(producer.ring_mut()).unwrap(), &[i, i]);
    }
}

#[test]
fn a_torn_copy_is_tried_again_a_few_times() {
    let mut producer = RingProducer::<u8, 4, 2>::new(false);
    let consumer = producer.subscribe();
    producer.write(&[0; 2]).unwrap();
    let seq = consumer.claim(producer.ring_mut()).unwrap();
    assert_eq!(seq, 0);
    write_seq(&mut producer, 1, 5);
    assert!(!consumer.validate(producer.ring(), seq));
    for attempt in 0..READ_RETRIES - 1 {
        assert_eq!(consumer.settle(producer.ring_mut(), seq, attempt), Ok(false));
    }
    assert_eq!(
        consumer.settle(producer.ring_mut(), seq, READ_RETRIES - 1),
        Err(CustomError::SlowConsumer)
    );
    assert_eq!(consumer.head(producer.ring()), 0, "the cursor is untouched");
    assert_eq!(consumer.claim(producer.ring_mut()), Ok(3), "and the next claim resyncs");
}

#[test]
fn a_finished_consumer_no_longer_gates() {
    let mut producer = RingProducer::<u8, 4, 2>::new(true);
    gated(&mut producer);
    assert_eq!(write_seq(&mut producer, 0, 4), 1);
    producer.finish(0);
    assert_eq!(write_seq(&mut producer, 0, 4), 0);
    assert!(producer.join_all().is_empty(), "the write has forgotten it");
}

#[test]
fn consumers_are_woken_when_there_is_reason_to() {
    assert!(write_wakes(&Ok(())));
    assert!(write_wakes(&Err(CustomError::SlowConsumer)));
    assert!(!write_wakes(&Err(CustomError::MismatchInputLength)));
    assert!(push_wakes(&Ok(true)));
    assert!(!push_wakes(&Ok(false)));
    assert!(push_wakes(&Err(CustomError::SlowConsumer)));
    assert!(!push_wakes(&Err(CustomError::InvalidIndex)));
}

#[test]
fn a_new_ring_holds_defaults() {
    let ring = Ring::<u8, 2, 3>::new();
    for i in 0..2 {
        assert_eq!(&ring.slot(i).unwrap()[..], &[0, 0, 0]);
    }
    let producer = RingProducer::<u8, 2, 3>::new(true);
    assert_eq!(&producer.ring().slot(1).unwrap()[..], &[0, 0, 0]);
}

/// The producer writes a block of two equal elements and publishes it.
fn written(x: u64) -> Vec<Act<u64>> {
    vec![Act::Put(0, x), Act::Put(1, x), Act::Publish]
}

#[test]
fn a_read_amid_writes_is_whole_or_tried_again() {
    let mut ring_of = RingProducer::<u64, 4, 2>::new(false);
    let consumer = ring_of.subscribe();
    for x in 1..=3 {
        ring_of.write(&[x; 2]).unwrap();
    }
    // Between the two elements of the first attempt the producer goes a lap.
    let next = std::cell::Cell::new(4);
    let others = |attempt: usize, copied: usize| {
        let mut acts = Vec::new();
        if (attempt, copied) == (0, 1) {
            for _ in 0..5 {
                acts.extend(written(next.get()));
                next.set(next.get() + 1);
            }
            acts.push(Act::Put(0, 99));
            acts.push(Act::Move(0, 0));
        }
        acts
    };
    let mut buf = [0u64; 2];
    assert_eq!(consumer.read_amid(ring_of.ring_mut(), &mut buf, &others), Ok(()));
    assert_eq!(buf, [7, 7], "whole, and from the middle of the ring");
    assert_eq!(consumer.head(ring_of.ring()), 7);
    assert_eq!(ring_of.ring().head(), 8);
    assert_eq!(consumer.read_into(ring_of.ring_mut(), &mut buf), Ok(()));
    assert_eq!(buf, [8, 8], "and the one behind it next");
}

#[test]
fn a_read_amid_too_many_writes_gives_up() {
    let mut ring_of = RingProducer::<u64, 4, 2>::new(false);
    let consumer = ring_of.subscribe();
    ring_of.write(&[1; 2]).unwrap();
    let flood = |_: usize, _: usize| (0..4).flat_map(written).collect::<Vec<_>>();
    let mut buf = [0u64; 2];
    let r = consumer.read_amid(ring_of.ring_mut(), &mut buf, &flood);
    assert_eq!(r, Err(CustomError::SlowConsumer));
    assert_eq!(ring_of.ring().head(), 1 + 4 * 3 * READ_RETRIES as u64);

    let calm = |_: usize, _: usize| Vec::new();
    assert_eq!(consumer.read_amid(ring_of.ring_mut(), &mut buf, &calm), Ok(()));
    assert_eq!(
        consumer.read_amid(ring_of.ring_mut(), &mut [0; 3], &calm),
        Err(CustomError::MismatchInputLength)
    );
    consumer.seek_latest(ring_of.ring_mut());
    assert_eq!(consumer.read_amid(ring_of.ring_mut(), &mut buf, &calm), Ok(()));
    let r = consumer.read_amid(ring_of.ring_mut(), &mut buf, &calm);
    assert_eq!(r, Err(CustomError::SlowProducer));
}

#[test]
fn only_the_last_push_of_a_block_publishes_it() {
    let mut a = RingProducer::<u8, 4, 3>::new(false);
    let mut b = RingProducer::<u8, 4, 3>::new(false);
    for lap in 0..10u8 {
        let block = [lap, lap + 1, lap + 2];
        let said: Vec<bool> = block.iter().map(|x| a.push(*x).unwrap()).collect();
        assert_eq!(said, [false, false, true]);
        b.write(&block).unwrap();
        assert_eq!(a.pending(), 0);
        assert_eq!(a.ring().head(), b.ring().head());
        let slot = lap as usize % 4;
        assert_eq!(&a.ring().slot(slot).unwrap()[..], &b.ring().slot(slot).unwrap()[..]);
    }
}
