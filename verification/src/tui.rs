//! The terminal UI: what it shows, and what each key does to it.

pub mod app_states;
pub mod axes;
pub mod axis_laws;
pub mod colors;
pub mod control_panel;
pub mod control_view;
pub mod draw_calls;
pub mod info_view;
pub mod key_laws;
pub mod log_view;
pub mod on_screen;
pub mod paint;
pub mod panel_laws;
pub mod plot;
pub mod sampling;
pub mod sampling_laws;
pub mod screen;
pub mod signal_laws;
pub mod signal_view;
pub mod state_calls;
pub mod status_bar;
pub mod tui;
pub mod tui_states;
