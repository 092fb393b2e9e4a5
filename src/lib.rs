//! Finds the URLs in a text and lays out scannable codes for them on a
//! terminal: blocks of glyphs merged side by side and wrapped into rows that
//! fit the terminal's width.
pub mod extract;
pub mod layout;
pub mod qr;
pub mod select;
pub mod text;
