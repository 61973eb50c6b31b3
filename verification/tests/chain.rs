use ferrite::dsp::convolution::convolve;
use ferrite::dsp::stages::{Deemphasis, Demodulation, IqDcBlocker, Xlator};
use ferrite::dsp::taps::{create_taps, Design};
use ferrite::dsp::{
    gcd, next_wrapped as dsp_next_wrapped, Decim, DecimFIR, FilterType, PartialWriter,
    PolyphaseResampler, Window,
};
use ferrite::flow::prepare::{prepare, Front};
use ferrite::flow::receive::{Back, Receiver};
use ferrite::flow::{deliver, DSPFlow, Transfer, PAIRS};
use ferrite::source::{CPAL_BLOCK, IQ_BLOCK, IQ_SLOTS};
use ferrite::speaker::{Feed, Speaker};
use ferrite::spmc::RingProducer;
use ferrite::utils::next_wrapped;

fn dot(a: &[i64], b: &[i64]) -> i64 {
    a.iter().zip(b).map(|(x, y)| x * y).sum()
}

#[test]
fn dsp_test_wrapped() {
    let size: usize = 16;
    assert_eq!(dsp_next_wrapped(1, size), 2usize);
    assert_eq!(dsp_next_wrapped(15, size), 0);
}

#[test]
fn utils_test_wrapped() {
    let size: usize = 16;
    assert_eq!(next_wrapped(1, size), 2usize);
    assert_eq!(next_wrapped(15, size), 0);
}

#[test]
fn divisors_are_found() {
    assert_eq!(gcd(48_000, 300_000), 12_000);
    assert_eq!(gcd(7, 0), 7);
    assert_eq!(gcd(0, 7), 7);
    assert_eq!(gcd(0, 0), 0);
}

/// A filter in blocks is the filter over the whole stream.
#[test]
fn a_decimator_sees_one_stream() {
    let taps = [1i64, 10, 100];
    let stream: Vec<i64> = (1..=24).collect();
    let mut fir = DecimFIR::<i64, 10, 8, 3>::new(&taps, 0);
    let mut got_i = Vec::new();
    let mut got_q = Vec::new();
    for block in stream.chunks_exact(8) {
        let i: [i64; 8] = block.try_into().unwrap();
        let q = i.map(|x| -x);
        fir.read_to_buf(&i, &q);
        let (mut out_i, mut out_q) = ([0i64; 4], [0i64; 4]);
        fir.process(2, &mut out_i, &mut out_q, dot);
        got_i.extend(out_i);
        got_q.extend(out_q);
    }
    let padded: Vec<i64> = [0, 0].into_iter().chain(stream).collect();
    let want: Vec<i64> = (0..12).map(|k| dot(&padded[2 * k..2 * k + 3], &taps)).collect();
    assert_eq!(got_i, want);
    assert_eq!(got_q, want.iter().map(|x| -x).collect::<Vec<_>>());
}

#[test]
fn a_pair_can_be_set_in_place() {
    let mut fir = DecimFIR::<i64, 10, 8, 3>::new(&[1, 1, 1], 0);
    fir.set_iq(9, 5, 6);
    assert_eq!(fir.buf_i, [0, 0, 0, 0, 0, 0, 0, 0, 0, 5]);
    assert_eq!(fir.buf_q, [0, 0, 0, 0, 0, 0, 0, 0, 0, 6]);
}

/// Resampling in blocks is resampling the whole stream: output `j` uses branch
/// `3 j mod 2` at sample `3 j / 2`.
#[test]
fn a_resampler_keeps_its_rate() {
    let taps = [1i64, 2, 3, 4, 5];
    let stream: Vec<i64> = (1..=20).collect();
    let mut r = PolyphaseResampler::new(2, 3, &taps, 0);
    let mut got = Vec::new();
    for block in stream.chunks(5) {
        let mut out = [0i64; 8];
        let n = r.process(block, &mut out, dot);
        got.extend_from_slice(&out[..n]);
    }
    let branches = [vec![1i64, 3, 5], vec![2, 4, 0]];
    let padded: Vec<i64> = [0, 0].into_iter().chain(stream).collect();
    let want: Vec<i64> = (0..)
        .map(|j| (3 * j % 2, 3 * j / 2))
        .take_while(|(_, at)| *at < 20)
        .map(|(b, at)| dot(&branches[b as usize], &padded[at as usize..at as usize + 3]))
        .collect();
    assert_eq!(got, want);
}

#[test]
fn pieces_become_blocks() {
    let mut producer = RingProducer::<u8, 16, 4>::new(false);
    let consumer = producer.subscribe();
    let mut writer = PartialWriter::new(producer);
    assert_eq!(writer.write(&[1, 2, 3]), 3);
    assert_eq!(writer.cursor(), 3);
    assert_eq!(writer.write(&[4, 5, 6]), 1, "one fits, the rest opens the next block");
    assert_eq!(writer.cursor(), 2);
    assert_eq!(writer.write(&[7, 8]), 2);
    let ring = writer.producer_mut().ring_mut();
    assert_eq!(consumer.read(ring).unwrap(), &[1, 2, 3, 4]);
}

#[test]
fn decimation_averages_its_samples() {
    let mut d = Decim::<i32, 3, 2>::new(0);
    let add = |a: i32, b: i32| a + b;
    let (third, half) = (|s: i32| s / 3, |s: i32| s / 2);
    assert_eq!(d.iq_decim(1, 10, &add, &third), None);
    assert_eq!(d.iq_decim(2, 20, &add, &third), None);
    assert_eq!(d.iq_decim(3, 30, &add, &third), Some((2, 20)));
    assert_eq!(d.iq_decim(4, 40, &add, &third), None);
    assert_eq!(d.post_decim(5, &add, &half), None);
    assert_eq!(d.post_decim(7, &add, &half), Some(6));
    assert_eq!(d.post_decim(7, &add, &half), None);
}

/// The newest sample of a window: every stage then only picks.
fn newest(window: &[i64], _taps: &[i64]) -> i64 {
    window[window.len() - 1]
}

fn newest_of_window(_branch: &[i64], window: &[i64]) -> i64 {
    window[window.len() - 1]
}

/// Sample `m` of the audio comes from sample `8 * (25 m / 4)` of the radio,
/// however the stream is cut into transfers.
#[test]
fn a_transfer_becomes_audio() {
    let mut flow = DSPFlow::<i64>::new(&[0; 27], &[0; 69], &[1; 1900], 0);
    let mut heard: Vec<i64> = Vec::new();
    for block in 0..25i64 {
        let mut t = Transfer::new(0i64);
        for k in 0..PAIRS {
            t.set(k, block * PAIRS as i64 + k as i64, -(k as i64));
        }
        assert_eq!(t.block().len(), IQ_BLOCK);
        assert_eq!(t.block()[6..8], [block * PAIRS as i64 + 3, -3]);
        let n = flow.process(
            &t,
            newest,
            &|i: i64, _: i64, _: i64, _: i64| i,
            newest_of_window,
            &|x: i64, _: i64| x,
        );
        assert!(n == 163 || n == 164, "{n}");
        heard.extend_from_slice(&flow.out()[..n]);
        let taken = PAIRS * (block as usize + 1);
        assert_eq!(heard.len(), taken.div_ceil(50), "block {block}");
    }
    for (m, x) in heard.iter().enumerate() {
        assert_eq!(*x, 8 * (25 * m as i64 / 4), "sample {m}");
    }
}

/// The stages can be taken one at a time.
#[test]
fn the_stages_of_the_chain_add_up() {
    let mut flow = DSPFlow::<i64>::new(&[1; 27], &[1; 69], &[1; 1900], 0);
    let mut t = Transfer::new(1i64);
    t.set(0, 1, 1);
    flow.decimate(&t, dot);
    flow.demodulate(&|i: i64, q: i64, pi: i64, pq: i64| i * pi + q * pq);
    let n = flow.resample(dot);
    flow.deemphasize(n, &|x: i64, last: i64| x + last);
    assert_eq!(n, 164);
    // Silence came first: the first output hears one sample of a branch only,
    // and of that the product with nothing before it.
    assert_eq!(flow.out()[0], 0);
    assert!(flow.out()[163] > flow.out()[162], "the pole adds up");
}

#[test]
fn test_filter() {
    const N: usize = 51;
    let (cutoff, sample_rate) = (3000.0f32, 300_000.0_f32);
    let fc = cutoff / sample_rate;
    let pi = std::f32::consts::PI;
    let sinc = move |x: f32| if x.abs() < 1e-6 { 1.0 } else { (pi * x).sin() / (pi * x) };
    let design = Design {
        ideal: move |k: usize| sinc(2.0 * fc * (k as f32 - ((N - 1) / 2) as f32)),
        shape: move |w: Window, k: usize| {
            assert!(matches!(w, Window::Hann));
            0.5 * (1.0 - (2.0 * pi * k as f32 / (N as f32 - 1.0)).cos())
        },
        complement: |h: f32| 1.0 - h,
        times: |a: f32, b: f32| a * b,
        plus: |a: f32, b: f32| a + b,
        over: |a: f32, b: f32| a / b,
    };
    let taps: [f32; N] = create_taps(FilterType::Lowpass, Window::Hann, &design, 0.0);

    let dc_gain: f32 = taps.iter().sum();
    assert!((dc_gain - 1.0).abs() < 1e-3);

    let max_asymmetry = (0..N / 2)
        .map(|k| (taps[k] - taps[N - 1 - k]).abs())
        .fold(0.0f32, f32::max);
    assert!(max_asymmetry.abs() < 1e-6);
}

#[test]
fn a_high_pass_has_the_complement_in_the_middle() {
    let design = Design {
        ideal: |k: usize| k as i64 + 1,
        shape: |_: Window, _: usize| 2i64,
        complement: |h: i64| 100 - h,
        times: |a: i64, b: i64| a * b,
        plus: |a: i64, b: i64| a + b,
        over: |a: i64, b: i64| a * 1000 + b,
    };
    let low: [i64; 3] = create_taps(FilterType::Lowpass, Window::Kaiser, &design, 0);
    assert_eq!(low, [2012, 4012, 6012]);
    let high: [i64; 3] = create_taps(FilterType::Highpass, Window::Kaiser, &design, 0);
    assert_eq!(high, [2204, 196204, 6204]);
}

#[test]
fn a_convolution_turns_the_taps_around() {
    let step = |acc: i64, a: i64, b: i64| acc + a * b;
    let sum = |a: i64, b: i64| a + b;
    for n in 0..12usize {
        let x: Vec<i64> = (0..n as i64).map(|i| i + 1).collect();
        let y: Vec<i64> = (0..n as i64).map(|i| 10 * i + 3).collect();
        let want: i64 = (0..n).map(|i| x[i] * y[n - 1 - i]).sum();
        assert_eq!(convolve(&x, &y, 0, &step, &sum), want, "{n} taps");
    }
}

#[test]
fn stages_carry_across_blocks() {
    let angle = |i: i64, q: i64, pi: i64, pq: i64| i * 1000 + q * 100 + pi * 10 + pq;
    let mut d = Demodulation::new(0i64);
    let mut out = [0i64; 2];
    d.process(&[1, 2], &[3, 4], &mut out, &angle);
    assert_eq!(out, [1300, 2413]);
    d.process(&[5, 6], &[7, 8], &mut out, &angle);
    assert_eq!(out, [5724, 6857]);

    let pole = |x: i64, last: i64| x + 2 * last;
    let mut e = Deemphasis::new(0i64);
    let mut buf = [1i64, 1, 1, 9];
    e.process(&mut buf, 3, &pole);
    assert_eq!(buf, [1, 3, 7, 9], "what is not live is left alone");
    e.process(&mut buf, 1, &pole);
    assert_eq!(buf[0], 15);

    let mut b = IqDcBlocker::new(0i64);
    let (less, integrate) = (|a: i64, b: i64| a - b, |o: i64, y: i64| o + y / 2);
    assert_eq!(b.process(16, 32, &less, &integrate), (16, 32));
    assert_eq!(b.process(16, 32, &less, &integrate), (8, 16));
    assert_eq!(b.process(16, 32, &less, &integrate), (4, 8));
    assert_eq!(b.process(16, 32, &less, &integrate), (2, 4));
    assert_eq!((b.i_blocker.offset, b.q_blocker.offset), (15, 30));
    assert_eq!(b.process(15, 0, &less, &integrate), (0, -30), "each leg has its own offset");
}

#[test]
fn the_phase_is_corrected_every_so_often() {
    // Turning adds up; a correction takes a thousand off.
    let (turn, correct) = (|a: i64, b: i64| a + b, |p: i64| p - 1000);
    let mut x = Xlator::new(0i64, 3);
    let mut buf = vec![0i64; 600];
    x.process(&mut buf, &turn, &correct);
    assert_eq!(buf[0], 0);
    assert_eq!(buf[511], 3 * 511);
    assert_eq!(buf[512], 3 * 512 - 1000);
    assert_eq!(x.n, 88);
    x.set_offset(5);
    assert_eq!(x.process_sample(0, &turn, &correct), 3 * 600 - 1000);
    assert_eq!(x.phase, 3 * 600 - 1000 + 5);
}

#[test]
fn audio_and_transfer_are_delivered() {
    let mut speaker = RingProducer::<i64, IQ_SLOTS, CPAL_BLOCK>::new(false);
    let mut spectrum = RingProducer::<i64, IQ_SLOTS, IQ_BLOCK>::new(false);
    let (ears, eyes) = (speaker.subscribe(), spectrum.subscribe());
    let mut t = Transfer::new(0i64);
    t.set(0, 5, 6);
    let audio: Vec<i64> = (0..164).collect();
    deliver(&audio, 163, &t, &mut speaker, &mut spectrum);
    assert_eq!(speaker.pending(), 163);
    assert_eq!(speaker.ring().head(), 0);
    deliver(&audio, 163, &t, &mut speaker, &mut spectrum);
    assert_eq!(speaker.ring().head(), 1);
    let block = ears.read(speaker.ring_mut()).unwrap();
    assert_eq!(block[162], 162);
    assert_eq!(block[163], 0, "the next transfer goes on where the last ended");
    assert_eq!(spectrum.ring().head(), 2);
    assert_eq!(eyes.read(spectrum.ring_mut()).unwrap()[..2], [5, 6]);
}

#[test]
fn waiting_for_the_radio_is_no_underrun() {
    let mut producer = RingProducer::<i32, 4, 3>::new(false);
    let consumer = producer.subscribe();
    let mut feed = Feed::<i32, 3>::new(0);
    let double = |x: i32| x * 2;

    let mut data = [7i32; 6];
    feed.fill(&mut data, 2, double, &consumer, producer.ring_mut());
    assert_eq!(data, [0; 6], "silence before the first block");
    assert_eq!(feed.underruns(), 0, "and no underrun");

    producer.write(&[1, 2, 3]).unwrap();
    feed.fill(&mut data, 2, double, &consumer, producer.ring_mut());
    assert_eq!(data, [2, 2, 4, 4, 6, 6], "each sample on every channel");
    assert_eq!(feed.underruns(), 0);

    feed.fill(&mut data, 2, double, &consumer, producer.ring_mut());
    assert_eq!(data, [0; 6]);
    assert_eq!(feed.underruns(), 3, "one for each silent frame");

    producer.write(&[4, 5, 6]).unwrap();
    assert_eq!(feed.next(&consumer, producer.ring_mut()), Some(4));
    assert_eq!(feed.next(&consumer, producer.ring_mut()), Some(5));
}

#[test]
fn the_radio_runs_at_a_multiple_of_the_audio_rate() {
    let s = Speaker::<i32, 164>::new(48_000, 0);
    assert_eq!(s.audio_rate, 48_000);
    assert_eq!(s.rtl_rate, 2_400_000);
}

#[test]
fn every_pair_goes_through_the_stages_in_order() {
    let front = Front {
        center: |b: u8| b as i64 - 128,
        less: |x: i64, o: i64| x - o,
        integrate: |o: i64, y: i64| o + y,
        join: |i: i64, q: i64| i * 100 + q,
        times: |x: i64, phase: i64| x + phase,
        correct: |p: i64| p,
        part: |y: i64| (y / 100, y % 100),
    };
    let mut blocker = IqDcBlocker::new(0i64);
    let mut xlator = Xlator::new(0i64, 7);
    let mut transfer = Transfer::new(-1i64);
    prepare(&[129, 130, 131, 132, 200], &mut blocker, &mut xlator, &mut transfer, &front);
    assert_eq!(transfer.block()[..6], [1, 2, 2, 9, -1, -1]);
    assert_eq!((blocker.i_blocker.offset, blocker.q_blocker.offset), (3, 4));
    assert_eq!((xlator.phase, xlator.n), (14, 2));

    prepare(&[133, 133], &mut blocker, &mut xlator, &mut transfer, &front);
    assert_eq!(transfer.block()[..4], [2, 15, 2, 9], "the stages carry on");

    // One transfer of all the pairs gives the same.
    let mut whole = (IqDcBlocker::new(0i64), Xlator::new(0i64, 7), Transfer::new(-1i64));
    let bytes = [129, 130, 131, 132, 133, 133];
    prepare(&bytes, &mut whole.0, &mut whole.1, &mut whole.2, &front);
    assert_eq!(whole.2.block()[..6], [1, 2, 2, 9, 2, 15]);
    assert_eq!((whole.1.phase, whole.1.n), (xlator.phase, xlator.n));

    prepare(&vec![128; 2 * PAIRS], &mut blocker, &mut xlator, &mut transfer, &front);
    assert_eq!(xlator.n, (3 + PAIRS as u32) % 512);
}

#[test]
fn a_resampler_makes_the_exact_count_whatever_the_blocks() {
    for (interp, decim) in [(4usize, 25usize), (3, 2), (1, 7), (5, 5)] {
        let taps: Vec<i64> = (0..12).collect();
        let mut r = PolyphaseResampler::new(interp, decim, &taps, 0);
        let (mut taken, mut made) = (0usize, 0usize);
        for len in [1usize, 0, 13, 2, 40, 7, 7, 1] {
            let block = vec![1i64; len];
            let most = (len * interp + decim - 1) / decim;
            let mut out = vec![-9i64; most + 2];
            let n = r.process(&block, &mut out, dot);
            assert!(n <= most);
            assert!(out[n..].iter().all(|x| *x == -9), "nothing behind the count");
            taken += len;
            made += n;
            assert_eq!(made, (taken * interp + decim - 1) / decim);
        }
    }
}

#[test]
fn what_is_heard_is_what_was_written() {
    let mut producer = RingProducer::<i32, 4, 3>::new(false);
    let consumer = producer.subscribe();
    let mut feed = Feed::<i32, 3>::new(0);
    let mut heard = Vec::new();
    let mut next = 1;
    for frames in [2usize, 1, 4, 2, 2] {
        producer.write(&[next, next + 1, next + 2]).unwrap();
        next += 3;
        let mut data = vec![-1; 2 * frames];
        feed.fill(&mut data, 2, |x| 10 * x, &consumer, producer.ring_mut());
        for frame in data.chunks(2) {
            assert_eq!(frame[0], frame[1]);
            heard.push(frame[0] / 10);
        }
    }
    assert_eq!(heard, (1..=11).collect::<Vec<i32>>());
    assert_eq!(feed.underruns(), 0);
}

#[test]
fn an_even_low_pass_is_symmetric_too() {
    let design = Design {
        ideal: |k: usize| [1i64, 5, 5, 1][k],
        shape: |_: Window, k: usize| [2i64, 3, 3, 2][k],
        complement: |h: i64| 100 - h,
        times: |a: i64, b: i64| a * b,
        plus: |a: i64, b: i64| a + b,
        over: |a: i64, b: i64| a * 1000 + b,
    };
    let low: [i64; 4] = create_taps(FilterType::Lowpass, Window::Hann, &design, 0);
    assert_eq!(low, [2034, 15034, 15034, 2034]);
}

#[test]
fn a_constant_is_removed() {
    let rate = 50.0 / 2_400_000f32;
    let mut b = IqDcBlocker::new(0.0f32);
    let (less, integrate) = (|x: f32, o: f32| x - o, |o: f32, y: f32| o + y * rate);
    let mut last = (1.0, 1.0);
    for _ in 0..500_000 {
        last = b.process(1.0, -0.5, &less, &integrate);
    }
    assert!(last.0.abs() < 1e-2 && last.1.abs() < 1e-2, "{last:?}");
}

#[test]
fn bytes_become_audio_and_a_spectrum() {
    let front = Front {
        center: |b: u8| b as i64 - 128,
        less: |x: i64, o: i64| x - o,
        integrate: |o: i64, _: i64| o,
        join: |i: i64, q: i64| i * 1000 + q,
        times: |x: i64, phase: i64| x + phase,
        correct: |_: i64| 0i64,
        part: |y: i64| (y / 1000, y % 1000),
    };
    let back = Back {
        turn: |hz: i64| hz / 350_000 - 1,
        convolve: newest,
        angle: |i: i64, _: i64, _: i64, _: i64| i,
        dot: newest_of_window,
        pole: |x: i64, _: i64| x,
    };
    let flow = DSPFlow::<i64>::new(&[0; 27], &[0; 69], &[1; 1900], 0);
    let mut r = Receiver::new(flow, 0i64, 0i64, 350_000, 0i64);
    let mut speaker = RingProducer::<i64, IQ_SLOTS, CPAL_BLOCK>::new(false);
    let mut spectrum = RingProducer::<i64, IQ_SLOTS, IQ_BLOCK>::new(false);
    let (ears, eyes) = (speaker.subscribe(), spectrum.subscribe());

    let bytes: Vec<u8> = [130u8, 129].repeat(PAIRS);
    r.receive(&bytes, 0, &front, &back, &mut speaker, &mut spectrum);
    assert_eq!((r.shift, r.xlator.delta), (350_000, 0));
    assert_eq!(speaker.ring().head(), 1, "164 samples");
    assert_eq!(ears.read(speaker.ring_mut()).unwrap()[1..], [2; CPAL_BLOCK - 1]);
    assert_eq!(eyes.read(spectrum.ring_mut()).unwrap()[..4], [2, 1, 2, 1]);

    r.receive(&bytes[..4], 350_000, &front, &back, &mut speaker, &mut spectrum);
    assert_eq!((r.shift, r.xlator.delta), (700_000, 1), "another turn, from now on");
    assert_eq!(eyes.read(spectrum.ring_mut()).unwrap()[..6], [2, 1, 2, 2, 2, 1]);
}
