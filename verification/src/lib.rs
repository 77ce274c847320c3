//! A tiny terminal pixel-graphics engine that draws with Unicode Braille
//! characters: every terminal cell carries a 2x4 block of pixels and,
//! optionally, an ANSI foreground color.
pub mod cell;
pub mod color;
pub mod event;
pub mod units;
pub mod sprite;
pub mod screen;
