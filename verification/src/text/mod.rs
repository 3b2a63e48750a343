//! The text notations: numerals, addresses, masks and masked addresses as
//! ASCII text, each with the function that reads it and the function that
//! writes it.

pub mod ascii;
pub mod notation;
pub mod numeral;
pub mod pieces;
pub mod v4;
pub mod v6;
