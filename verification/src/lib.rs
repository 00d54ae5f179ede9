//! Verified core of a terminal system-activity dashboard: unit formatting,
//! parsing of the wireless-interface report, ordering of table rows, the
//! dashboard's navigation state and the text that its panels show.

pub mod text;
pub mod units;
pub mod netsh;
pub mod order;
pub mod state;
pub mod view;
pub mod theme;

pub use netsh::{get_interface_drops_windows, get_wifi_stats_windows};
pub use units::{format_bytes, format_bytes_per_sec, format_duration};
