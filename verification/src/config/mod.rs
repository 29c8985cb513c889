//! How the viewer looks.

pub mod theme;

pub use self::theme::UiTheme;

use vstd::prelude::*;

verus! {

/// Clears what is kept per thread; nothing is.
pub fn clear_registry() {
}

} // verus!
