//! The ASCII bytes the wire protocol is written in, by name.

use vstd::prelude::*;

verus! {

pub const D0: u8 = 48;

pub const D1: u8 = 49;

pub const D2: u8 = 50;

pub const D3: u8 = 51;

pub const D9: u8 = 57;

pub const DOT: u8 = 46;

pub const MINUS: u8 = 45;

pub const PLUS: u8 = 43;

pub const LF: u8 = 10;

pub const CR: u8 = 13;

pub const SPACE: u8 = 32;

pub const TAB: u8 = 9;

pub const VT: u8 = 11;

pub const FF: u8 = 12;

pub const COLON: u8 = 58;

pub const STAR: u8 = 42;

pub const QMARK: u8 = 63;

pub const COMMA: u8 = 44;

pub const PERCENT: u8 = 37;

pub const SLASH: u8 = 47;

pub const A: u8 = 65;

pub const C: u8 = 67;

pub const D: u8 = 68;

pub const E: u8 = 69;

pub const F: u8 = 70;

pub const H: u8 = 72;

pub const I: u8 = 73;

pub const K: u8 = 75;

pub const L: u8 = 76;

pub const M: u8 = 77;

pub const N: u8 = 78;

pub const O: u8 = 79;

pub const P: u8 = 80;

pub const R: u8 = 82;

pub const S: u8 = 83;

pub const T: u8 = 84;

pub const U: u8 = 85;

pub const V: u8 = 86;

pub const W: u8 = 87;

pub const Y: u8 = 89;

pub const Z: u8 = 90;

pub const LOW_U: u8 = 117;

} // verus!
