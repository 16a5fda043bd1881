use vstd::prelude::*;

verus! {

/// The game has ten parts, numbered from here.
pub const GAME_PART_FIRST: u16 = 0x3E80;
pub const GAME_PART1: u16 = 0x3E80;
pub const GAME_PART2: u16 = 0x3E81;
pub const GAME_PART3: u16 = 0x3E82;
pub const GAME_PART4: u16 = 0x3E83;
pub const GAME_PART5: u16 = 0x3E84;
pub const GAME_PART6: u16 = 0x3E85;
pub const GAME_PART7: u16 = 0x3E86;
pub const GAME_PART8: u16 = 0x3E87;
pub const GAME_PART9: u16 = 0x3E88;
pub const GAME_PART10: u16 = 0x3E89;
pub const GAME_PART_LAST: u16 = 0x3E89;

/// A part without a second polygon resource has this slot.
pub const MEMLIST_PART_NONE: usize = 0;

/// The resources of each part: palette, bytecode, cinematic polygons, and the
/// polygons of the player and enemies (none for cinematics and protection screens).
pub open spec fn part_table(idx: int) -> (usize, usize, usize, usize) {
    if idx == 0 {
        (0x14, 0x15, 0x16, 0x00)
    } else if idx == 1 {
        (0x17, 0x18, 0x19, 0x00)
    } else if idx == 2 {
        (0x1A, 0x1B, 0x1C, 0x11)
    } else if idx == 3 {
        (0x1D, 0x1E, 0x1F, 0x11)
    } else if idx == 4 {
        (0x20, 0x21, 0x22, 0x11)
    } else if idx == 5 {
        (0x23, 0x24, 0x25, 0x00)
    } else if idx == 6 {
        (0x26, 0x27, 0x28, 0x11)
    } else if idx == 7 {
        (0x29, 0x2A, 0x2B, 0x11)
    } else {
        (0x7D, 0x7E, 0x7F, 0x00)
    }
}

/// The four resource slots of part number `part_idx`, counted from the first part.
pub fn part_resources(part_idx: usize) -> (r: (usize, usize, usize, usize))
    requires
        part_idx < 10,
    ensures
        r == part_table(part_idx as int),
{
    match part_idx {
        0 => (0x14, 0x15, 0x16, 0x00),
        1 => (0x17, 0x18, 0x19, 0x00),
        2 => (0x1A, 0x1B, 0x1C, 0x11),
        3 => (0x1D, 0x1E, 0x1F, 0x11),
        4 => (0x20, 0x21, 0x22, 0x11),
        5 => (0x23, 0x24, 0x25, 0x00),
        6 => (0x26, 0x27, 0x28, 0x11),
        7 => (0x29, 0x2A, 0x2B, 0x11),
        _ => (0x7D, 0x7E, 0x7F, 0x00),
    }
}

} // verus!
