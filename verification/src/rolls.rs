use vstd::prelude::*;

verus! {

/// The horizontal direction a roll gives: left for an even roll, right for an odd one.
pub open spec fn dir_of_roll(i: int) -> int {
    if i % 2 == 0 {
        -1
    } else {
        1
    }
}

/// Whether a roll hits: only a roll of 0 does.
pub open spec fn roll_hits(r: int) -> bool {
    r == 0
}

/// The offset a roll gives, by its remainder modulo 9: the eight neighbouring offsets,
/// counterclockwise from the upper right, or no offset for remainder 8.
pub open spec fn vec_of_roll(i: int) -> (int, int) {
    let k = i % 9;
    if k == 0 {
        (1, 1)
    } else if k == 1 {
        (1, 0)
    } else if k == 2 {
        (1, -1)
    } else if k == 3 {
        (0, -1)
    } else if k == 4 {
        (-1, -1)
    } else if k == 5 {
        (-1, 0)
    } else if k == 6 {
        (-1, 1)
    } else if k == 7 {
        (0, 1)
    } else {
        (0, 0)
    }
}

/// The neighbouring offset a roll in `[0, 8)` gives, counterclockwise from the upper
/// right; larger rolls give the offset straight up.
pub open spec fn vec_8_of_roll(i: int) -> (int, int) {
    if i == 0 {
        (1, 1)
    } else if i == 1 {
        (1, 0)
    } else if i == 2 {
        (1, -1)
    } else if i == 3 {
        (0, -1)
    } else if i == 4 {
        (-1, -1)
    } else if i == 5 {
        (-1, 0)
    } else if i == 6 {
        (-1, 1)
    } else {
        (0, 1)
    }
}

/// The horizontal direction the roll `i` gives.
pub fn dir_of(i: i64) -> (d: i64)
    requires
        0 <= i,
    ensures
        d == dir_of_roll(i as int),
{
    if i % 2 == 0 {
        -1
    } else {
        1
    }
}

/// The offset the roll `i` gives, or none.
pub fn vec_of(i: i64) -> (v: (i64, i64))
    requires
        0 <= i,
    ensures
        (v.0 as int, v.1 as int) == vec_of_roll(i as int),
{
    match i % 9 {
        0 => (1, 1),
        1 => (1, 0),
        2 => (1, -1),
        3 => (0, -1),
        4 => (-1, -1),
        5 => (-1, 0),
        6 => (-1, 1),
        7 => (0, 1),
        _ => (0, 0),
    }
}

/// The neighbouring offset the roll `i` gives.
pub fn vec_8_of(i: i64) -> (v: (i64, i64))
    requires
        0 <= i,
    ensures
        (v.0 as int, v.1 as int) == vec_8_of_roll(i as int),
{
    match i {
        0 => (1, 1),
        1 => (1, 0),
        2 => (1, -1),
        3 => (0, -1),
        4 => (-1, -1),
        5 => (-1, 0),
        6 => (-1, 1),
        _ => (0, 1),
    }
}

} // verus!
