//! Key symbols (X keysyms) the default bindings use.
use vstd::prelude::*;

verus! {

/// Raw X keysym values (the names of `xkeysym::key`), as layouts resolve
/// keys to them.
#[allow(non_upper_case_globals)]
pub const NoSymbol: u32 = 0x0;

#[allow(non_upper_case_globals)]
pub const BackSpace: u32 = 0xff08;

#[allow(non_upper_case_globals)]
pub const Tab: u32 = 0xff09;

#[allow(non_upper_case_globals)]
pub const Return: u32 = 0xff0d;

#[allow(non_upper_case_globals)]
pub const space: u32 = 0x20;

#[allow(non_upper_case_globals)]
pub const _1: u32 = 0x31;

#[allow(non_upper_case_globals)]
pub const _2: u32 = 0x32;

#[allow(non_upper_case_globals)]
pub const _3: u32 = 0x33;

#[allow(non_upper_case_globals)]
pub const _4: u32 = 0x34;

#[allow(non_upper_case_globals)]
pub const _5: u32 = 0x35;

#[allow(non_upper_case_globals)]
pub const _6: u32 = 0x36;

#[allow(non_upper_case_globals)]
pub const _7: u32 = 0x37;

#[allow(non_upper_case_globals)]
pub const _8: u32 = 0x38;

#[allow(non_upper_case_globals)]
pub const _9: u32 = 0x39;

#[allow(non_upper_case_globals)]
pub const F: u32 = 0x46;

#[allow(non_upper_case_globals)]
pub const H: u32 = 0x48;

#[allow(non_upper_case_globals)]
pub const J: u32 = 0x4a;

#[allow(non_upper_case_globals)]
pub const K: u32 = 0x4b;

#[allow(non_upper_case_globals)]
pub const L: u32 = 0x4c;

#[allow(non_upper_case_globals)]
pub const T: u32 = 0x54;

#[allow(non_upper_case_globals)]
pub const f: u32 = 0x66;

#[allow(non_upper_case_globals)]
pub const h: u32 = 0x68;

#[allow(non_upper_case_globals)]
pub const j: u32 = 0x6a;

#[allow(non_upper_case_globals)]
pub const k: u32 = 0x6b;

#[allow(non_upper_case_globals)]
pub const l: u32 = 0x6c;

#[allow(non_upper_case_globals)]
pub const m: u32 = 0x6d;

#[allow(non_upper_case_globals)]
pub const p: u32 = 0x70;

#[allow(non_upper_case_globals)]
pub const q: u32 = 0x71;

#[allow(non_upper_case_globals)]
pub const r: u32 = 0x72;

#[allow(non_upper_case_globals)]
pub const t: u32 = 0x74;

#[allow(non_upper_case_globals)]
pub const v: u32 = 0x76;

#[allow(non_upper_case_globals)]
pub const w: u32 = 0x77;

#[allow(non_upper_case_globals)]
pub const XF86_Switch_VT_1: u32 = 0x1008fe01;

#[allow(non_upper_case_globals)]
pub const XF86_Switch_VT_12: u32 = 0x1008fe0c;

} // verus!
