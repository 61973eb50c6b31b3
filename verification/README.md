# Ferrite

The core of an FM radio for RTL-SDR dongles that runs in the terminal, written in
[Verus](https://github.com/verus-lang/verus): what the code does is stated in
contracts and proved.

| Where | What |
|-------|------|
| `src/spmc.rs`, `src/spmc/` | One producer, many consumers: the ring, its mathematical model, a read with others at work in between, and the laws, those of two threads that run at their own pace among them |
| `src/dsp.rs`, `src/dsp/`, `src/flow.rs`, `src/flow/` | Filters, resampler, discriminator, and the chain from the bytes of a USB transfer to audio |
| `src/fft.rs`, `src/fft/` | The radix-2 transform, and the proof that it is the discrete Fourier transform |
| `src/speaker.rs`, `src/speaker/` | Ring blocks on one side, frames of any size on the other, and what is heard of them |
| `src/source.rs` | What the dongle is told, and in which order |
| `src/log.rs`, `src/text.rs` | The log, and numbers in words |
| `src/tui.rs`, `src/tui/` | The terminal UI: settings, keys, panels, axes, plots |
| `src/compact.rs`, `src/compact/` | A smaller radio with five settings and a chain that takes one sample at a time |
| `app/` | The program around it: the dongle, the audio device, the terminal, and everything in floating point. With `compact` for an argument it is the smaller radio |
| `tests/` | Tests of the library from outside |

Samples are generic throughout the library. Whatever is computed on them is handed
in as a function, and the contracts say which samples meet which, in which order,
and what is carried from one block to the next. The laws that follow are public
proof functions beside the code they speak of.

Drawing goes through [ratatui](https://ratatui.rs). What a line, a row of spans or a
block makes of the cells of a screen is ratatui's business and goes by a name
(`src/tui/paint.rs`); a panel is proved to be a list of such strokes.
