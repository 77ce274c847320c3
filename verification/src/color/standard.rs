//! The palette numbers of the 16 ANSI standard colors, supported by almost all
//! terminals. Their appearance varies across terminals and themes.
use vstd::prelude::*;

verus! {

/// The ANSI standard black color.
pub const BLACK: u8 = 0;

/// The ANSI standard red color.
pub const RED: u8 = 1;

/// The ANSI standard green color.
pub const GREEN: u8 = 2;

/// The ANSI standard yellow color.
pub const YELLOW: u8 = 3;

/// The ANSI standard blue color.
pub const BLUE: u8 = 4;

/// The ANSI standard magenta color.
pub const MAGENTA: u8 = 5;

/// The ANSI standard cyan color.
pub const CYAN: u8 = 6;

/// The ANSI standard white color. It is not RGB white on most terminals.
pub const WHITE: u8 = 7;

/// The ANSI standard bright black color.
pub const BRIGHT_BLACK: u8 = 8;

/// The ANSI standard bright red color.
pub const BRIGHT_RED: u8 = 9;

/// The ANSI standard bright green color.
pub const BRIGHT_GREEN: u8 = 10;

/// The ANSI standard bright yellow color.
pub const BRIGHT_YELLOW: u8 = 11;

/// The ANSI standard bright blue color.
pub const BRIGHT_BLUE: u8 = 12;

/// The ANSI standard bright magenta color.
pub const BRIGHT_MAGENTA: u8 = 13;

/// The ANSI standard bright cyan color.
pub const BRIGHT_CYAN: u8 = 14;

/// The ANSI standard bright white color.
pub const BRIGHT_WHITE: u8 = 15;

} // verus!
