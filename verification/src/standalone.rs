//! Launch defaults of the standalone host.

use vstd::prelude::*;

verus! {

/// Compile-time-baked launch defaults from `[plugin.standalone]` in
/// the consumer's `truce.toml`, threaded through CLI resolution as the
/// lowest tier (above the runtime default, below env / CLI).
///
/// `Defaults::default()` leaves both unset, which disables the bake
/// tier entirely.
#[derive(Default, Clone, Copy, Debug)]
pub struct Defaults {
    pub input_enabled: Option<bool>,
    pub output_enabled: Option<bool>,
}

} // verus!
