use ferrite::fft::{bit_reversed, post_process, Fft};
use ferrite::spmc::RingProducer;
use ferrite::tui::paint::{blank, Rect};
use ferrite::tui::sampling::sample;
use ferrite::tui::signal_view::SignalView;
use ferrite::tui::tui_states::TuiStates;

const N: usize = 2048;

type Complex = (f32, f32);

/// `a` plus `b` turned by `k` of `n` steps.
fn turned(a: Complex, k: usize, b: Complex, n: usize) -> Complex {
    let angle = -2.0 * std::f32::consts::PI * k as f32 / n as f32;
    let (s, c) = angle.sin_cos();
    (a.0 + b.0 * c - b.1 * s, a.1 + b.0 * s + b.1 * c)
}

fn combine(a: Complex, k: usize, b: Complex) -> Complex {
    turned(a, k, b, N)
}

fn pair(i: f32, q: f32) -> Complex {
    (i, q)
}

fn hann_at(k: usize) -> f32 {
    0.5 * (1.0 - (2.0 * std::f32::consts::PI * k as f32 / N as f32).cos())
}

fn hann(c: Complex, k: usize) -> Complex {
    (c.0 * hann_at(k), c.1 * hann_at(k))
}

fn rectangular(c: Complex, _: usize) -> Complex {
    c
}

fn shifted(bins: i32) -> usize {
    (N as i32 / 2 + bins) as usize
}

/// Interleaved IQ of a complex exponential, quantised to eight bits.
fn fill_tone(dst: &mut [f32], bins: f32, amp: f32, start: usize) {
    for (n, pair) in dst.chunks_exact_mut(2).enumerate() {
        let theta = 2.0 * std::f32::consts::PI * bins * (start + n) as f32 / N as f32;
        let q = |x: f32| {
            let byte = (x * amp * 127.5 + 127.5).round().clamp(0.0, 255.0);
            (byte - 127.5) / 127.5
        };
        pair[0] = q(theta.cos());
        pair[1] = q(theta.sin());
    }
}

/// Feed exactly one window in pieces of `chunk` values, and the spectrum in dB.
fn analyse(bins: f32, amp: f32, chunk: usize) -> Vec<f32> {
    let mut fft = Fft::<Complex, N>::new((0.0, 0.0));
    let window_sum: f32 = (0..N).map(hann_at).sum();
    let mut buf = vec![0f32; chunk];
    let pairs = chunk / 2;

    let mut fired = None;
    for c in 0..(N / pairs) {
        fill_tone(&mut buf, bins, amp, c * pairs);
        if let Some(spectrum) = fft.push(&buf, &pair, &hann, &combine) {
            fired = Some(spectrum);
        }
    }
    fired
        .expect("N/pairs pushes should fill the window exactly once")
        .into_iter()
        .map(|c| 20.0 * (c.0.hypot(c.1) / window_sum + 1e-12).log10())
        .collect()
}

fn peak_bin(spectrum: &[f32]) -> usize {
    spectrum
        .iter()
        .enumerate()
        .max_by(|a, b| a.1.partial_cmp(b.1).unwrap())
        .map(|(bin, _)| bin)
        .unwrap()
}

/// A real tone of amplitude 1 splits into a mirrored pair, each of this magnitude.
const PEAK: f32 = N as f32 / 2.0;

/// The magnitudes of a real sine, 0 Hz first, without a window.
fn analyse_real(freq_hz: f32, chunk: usize) -> Vec<f32> {
    let mut fft = Fft::<Complex, N>::new((0.0, 0.0));
    let mut fired = None;
    for c in 0..(N / chunk) {
        let mut buf = Vec::new();
        for i in 0..chunk {
            let t = (c * chunk + i) as f32 / N as f32;
            buf.push((2.0 * std::f32::consts::PI * freq_hz * t).sin());
            buf.push(0.0);
        }
        if let Some(coeffs) = fft.push(&buf, &pair, &rectangular, &combine) {
            fired = Some(coeffs);
        }
    }
    let centred = fired.expect("N/chunk pushes should fill the window exactly once");
    post_process(&centred).into_iter().map(|c| c.0.hypot(c.1)).collect()
}

fn peak_below_nyquist(coeffs: &[f32]) -> usize {
    peak_bin(&coeffs[..coeffs.len() / 2])
}

#[test]
fn fft_test_bit_reversed() {
    let indexes: Vec<usize> = (0..16).map(|i| bit_reversed(i, 4)).collect();
    assert_eq!(indexes, [0, 8, 4, 12, 2, 10, 6, 14, 1, 9, 5, 13, 3, 11, 7, 15]);
}

#[test]
fn reversing_twice_is_nothing() {
    for i in 0..64 {
        assert_eq!(bit_reversed(bit_reversed(i, 6), 6), i);
    }
}

#[test]
fn positive_and_negative_tones_land_on_opposite_sides() {
    assert_eq!(peak_bin(&analyse(256.0, 1.0, 4096)), shifted(256));
    assert_eq!(peak_bin(&analyse(-256.0, 1.0, 4096)), shifted(-256));
}

#[test]
fn full_scale_tone_reads_zero_dbfs() {
    let peak = analyse(256.0, 1.0, 4096)[shifted(256)];
    assert!(peak.abs() < 0.5, "expected ~0 dBFS, got {peak}");
}

#[test]
fn half_scale_tone_reads_minus_six_db() {
    let peak = analyse(256.0, 0.5, 4096)[shifted(256)];
    assert!((peak + 6.02).abs() < 0.5, "expected ~-6 dBFS, got {peak}");
}

#[test]
fn fft_energy_is_confined_to_the_tone() {
    let spectrum = analyse(256.0, 1.0, 4096);
    let peak = shifted(256);
    for (bin, &db) in spectrum.iter().enumerate() {
        match bin as i32 - peak as i32 {
            0 => continue,
            -1 | 1 => assert!(
                (db + 6.02).abs() < 0.1,
                "bin {bin} is a Hann skirt, expected ~-6.02 dB, got {db}"
            ),
            _ => assert!(db < -40.0, "bin {bin} should be noise floor, got {db}"),
        }
    }

    let coeffs = analyse_real(512.0, 512);
    for (bin, &m) in coeffs.iter().enumerate() {
        if bin == 512 || bin == N - 512 {
            continue;
        }
        assert!(m < 1.0, "bin {bin} should be silent, got {m}");
    }
}

#[test]
fn off_bin_tone_does_not_smear_across_the_display() {
    let spectrum = analyse(256.5, 1.0, 4096);
    let peak = shifted(256) as i32;
    for (bin, &db) in spectrum.iter().enumerate() {
        match (bin as i32 - peak).abs() {
            0..=4 => continue,
            5..=8 => assert!(db < -45.0, "near skirt: bin {bin} leaked to {db}"),
            _ => assert!(db < -60.0, "far skirt: bin {bin} leaked to {db}"),
        }
    }
}

#[test]
fn nyquist_tone_is_the_leftmost_column() {
    assert_eq!(peak_bin(&analyse(N as f32 / 2.0, 1.0, 4096)), 0);
}

#[test]
fn chunked_pushes_reassemble_one_window() {
    let whole = analyse(256.0, 1.0, 4096);
    let split = analyse(256.0, 1.0, 1024);
    assert_eq!(peak_bin(&whole), peak_bin(&split));
    assert!((whole[shifted(256)] - split[shifted(256)]).abs() < 0.1);
}

#[test]
fn fft_window_only_fires_when_full() {
    let mut fft = Fft::<Complex, N>::new((0.0, 0.0));
    let buf = [0f32; 1024];
    assert!(fft.push(&buf, &pair, &hann, &combine).is_none());
    assert!(fft.push(&buf, &pair, &hann, &combine).is_none());
    assert!(fft.push(&buf, &pair, &hann, &combine).is_none());
    assert!(
        fft.push(&buf, &pair, &hann, &combine).is_some(),
        "4 x 512 pairs should complete the 2048 window"
    );
}

#[test]
fn tone_512hz_in_512_sample_chunks() {
    let coeffs = analyse_real(512.0, 512);
    assert_eq!(peak_below_nyquist(&coeffs), 512);
    assert!((coeffs[512] - PEAK).abs() < 1.0, "bin 512 = {}", coeffs[512]);
    assert!((coeffs[N - 512] - PEAK).abs() < 1.0, "mirror = {}", coeffs[N - 512]);
}

#[test]
fn tone_768hz_in_1024_sample_chunks() {
    let coeffs = analyse_real(768.0, 1024);
    assert_eq!(peak_below_nyquist(&coeffs), 768);
    assert!((coeffs[768] - PEAK).abs() < 1.0, "bin 768 = {}", coeffs[768]);
}

#[test]
fn nyquist_sine_is_silent() {
    let coeffs = analyse_real(1024.0, 1024);
    assert!(coeffs.iter().all(|&m| m < 1.0), "sin at Nyquist is all zeros");
}

/// In whole numbers modulo 17, with 4 as a fourth root of unity, the network is
/// the transform to the last digit.
#[test]
fn the_network_is_the_transform() {
    let power = |k: usize| (0..k).fold(1u32, |p, _| p * 4 % 17);
    let xs = [3u32, 1, 4, 15];
    let mut fft = Fft::<u32, 4>::new(0);
    let iq: Vec<u32> = xs.iter().flat_map(|x| [*x, 0]).collect();
    let spectrum = fft
        .push(
            &iq,
            &|i: u32, _: u32| i,
            &|x: u32, _: usize| x,
            &|a: u32, k: usize, b: u32| (a + power(k) * b) % 17,
        )
        .unwrap();
    let bins = post_process(&spectrum);
    for k in 0..4 {
        let want = (0..4).map(|j| power(j * k) * xs[j]).sum::<u32>() % 17;
        assert_eq!(bins[k], want, "bin {k}");
    }
}

#[test]
fn zero_hertz_is_in_the_middle() {
    assert_eq!(post_process(&vec![0, 1, 2, 3]), vec![2, 3, 0, 1]);
    assert_eq!(post_process(&vec![5]), vec![5]);
}

#[test]
fn the_newest_block_becomes_a_line() {
    let states = TuiStates::new(
        2_400_000, 48_000, 91_000_000, 91_000_000, 100_000, 0, 300_000, 0, -90, 0,
    );
    let mut view = SignalView::new(4, 8, &states);
    let mut fft = Fft::<u32, 4>::new(0);
    let mut producer = RingProducer::<u32, 4, 16>::new(false);
    let consumer = producer.subscribe();
    let (pair, window) = (|i: u32, _: u32| i, |x: u32, _: usize| x);
    let add = |a: u32, _: usize, b: u32| a + b;
    let level = |c: u32| c as i32;
    let shade = |db: i32| (db as u8, 0u8, 0u8);
    let area = Rect::new(0, 0, 4, 1);

    // Nothing to read yet.
    let mut before = blank(area);
    view.render_waterfall(area, &mut before, &shade);
    sample(&mut view, &mut fft, &consumer, producer.ring_mut(), &pair, &window, &add, &level);
    let mut after = blank(area);
    view.render_waterfall(area, &mut after, &shade);
    assert_eq!(before, after);

    // Two windows a block; with no turning every bin is the sum of the window.
    producer.write(&[9; 16]).unwrap();
    producer.write(&[1, 0, 2, 0, 3, 0, 4, 0, 5, 0, 6, 0, 7, 0, 8, 0]).unwrap();
    sample(&mut view, &mut fft, &consumer, producer.ring_mut(), &pair, &window, &add, &level);
    let mut buf = blank(area);
    view.render_waterfall(area, &mut buf, &shade);
    for x in 0..4 {
        assert_eq!(
            buf.cell((x, 0)).unwrap().fg,
            ratatui::style::Color::Rgb(26, 0, 0),
            "the louder of the two windows, of the newer block"
        );
    }
    assert_eq!(consumer.head(producer.ring()), 2, "the backlog was abandoned");
}

#[test]
fn pairs_beyond_the_window_are_lost() {
    let mut fft = Fft::<i64, 4>::new(0);
    let pair = |i: i64, _: i64| i;
    let plain = |c: i64, _: usize| c;
    let total = |a: i64, _: usize, b: i64| a + b;
    assert_eq!(fft.push(&[1, 0, 2, 0, 3, 0], &pair, &plain, &total), None);
    let spectrum = fft.push(&[4, 0, 5, 0, 6, 0], &pair, &plain, &total);
    assert_eq!(spectrum, Some(vec![10; 4]), "one pair fitted, two did not");
    assert_eq!(fft.push(&[1, 0, 1, 0, 1, 0], &pair, &plain, &total), None, "an empty window");
    assert_eq!(fft.push(&[1, 0], &pair, &plain, &total), Some(vec![4; 4]));
}
