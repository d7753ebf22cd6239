//! The pointer that is drawn when no client has set one.
use vstd::prelude::*;

use crate::errscreen::Image;

verus! {

/// Width and height of the built-in pointer.
pub const POINTER_SIZE: (i32, i32) = (12, 19);

/// How many pixels of a row of the pointer are solid, from the left.
pub open spec fn run(row: int) -> int {
    if row <= 10 {
        row + 1
    } else if row == 11 {
        6
    } else if row <= 13 {
        5
    } else if row <= 15 {
        4
    } else {
        19 - row
    }
}

/// A byte of the pointer's image: white, with a dark edge so that it is seen on a
/// light background, and transparent outside.
pub open spec fn pointer_byte(i: int) -> u8 {
    let row = i / 48;
    let col = i / 4 % 12;
    if col >= run(row) {
        0
    } else if i % 4 == 3 {
        0xff
    } else if col == run(row) - 1 || row == 18 {
        0x20
    } else {
        0xff
    }
}

/// Where the bytes of a pixel of the pointer are.
proof fn lemma_pointer_place(row: int, col: int, channel: int)
    requires
        0 <= row < 19,
        0 <= col < 12,
        0 <= channel < 4,
    ensures
        (row * 48 + col * 4 + channel) / 48 == row,
        (row * 48 + col * 4 + channel) / 4 % 12 == col,
        (row * 48 + col * 4 + channel) % 4 == channel,
{
    let i = row * 48 + col * 4 + channel;
    assert(i / 4 == row * 12 + col);
}

/// The pointer for when no client has set one: drawn here, because before any
/// session there is no theme to rely on.
pub fn pointer_image() -> (r: Image)
    ensures
        r.wf(),
        r.width == 12,
        r.height == 19,
        forall|i: int| 0 <= i < r.data@.len() ==> #[trigger] r.data@[i] == pointer_byte(i),
{
    let mut data: Vec<u8> = Vec::new();
    for row in 0..19usize
        invariant
            data@.len() == row * 48,
            forall|i: int| 0 <= i < data@.len() ==> #[trigger] data@[i] == pointer_byte(i),
    {
        let len: usize = if row <= 10 {
            row + 1
        } else if row == 11 {
            6
        } else if row <= 13 {
            5
        } else if row <= 15 {
            4
        } else {
            19 - row
        };
        for col in 0..12usize
            invariant
                row < 19,
                len == run(row as int),
                data@.len() == row * 48 + col * 4,
                forall|i: int| 0 <= i < data@.len() ==> #[trigger] data@[i] == pointer_byte(i),
        {
            let ghost before = data@;
            if col < len {
                let value: u8 = if col == len - 1 || row == 18 {
                    0x20
                } else {
                    0xff
                };
                data.push(value);
                data.push(value);
                data.push(value);
                data.push(0xff);
            } else {
                data.push(0);
                data.push(0);
                data.push(0);
                data.push(0);
            }
            proof {
                let base = row * 48 + col * 4;
                assert forall|i: int| 0 <= i < data@.len() implies #[trigger] data@[i]
                    == pointer_byte(i) by {
                    if i < base {
                        assert(data@[i] == before[i]);
                    } else {
                        lemma_pointer_place(row as int, col as int, i - base);
                    }
                }
            }
        }
    }
    Image { width: 12, height: 19, data }
}

/// Whether a pixel of the pointer is solid: the upper rows widen by one from the
/// left, and the lower ones narrow to a point.
pub proof fn law_the_pointer_is_an_arrow(row: int, col: int)
    requires
        0 <= row < 19,
        0 <= col < 12,
    ensures
        ({
            let alpha = pointer_byte(row * 48 + col * 4 + 3);
            &&& alpha == 0 || alpha == 0xff
            &&& row <= 10 ==> (alpha == 0xff <==> col <= row)
            &&& row == 11 ==> (alpha == 0xff <==> col < 6)
            &&& 12 <= row <= 13 ==> (alpha == 0xff <==> col < 5)
            &&& 14 <= row <= 15 ==> (alpha == 0xff <==> col < 4)
            &&& 16 <= row ==> (alpha == 0xff <==> col < 19 - row)
        }),
{
    lemma_pointer_place(row, col, 3);
}

/// The pointer is grey throughout, nothing where it is transparent, and where it is
/// solid dark just at its right edge and in its last row, white elsewhere.
pub proof fn law_the_pointer_has_a_dark_edge(row: int, col: int, channel: int)
    requires
        0 <= row < 19,
        0 <= col < 12,
        0 <= channel < 3,
    ensures
        ({
            let at = row * 48 + col * 4;
            let edge = row == 18 || col == 11 || pointer_byte(at + 4 + 3) == 0;
            &&& pointer_byte(at + 3) == 0 ==> pointer_byte(at + channel) == 0
            &&& pointer_byte(at + 3) != 0 && edge ==> pointer_byte(at + channel) == 0x20
            &&& pointer_byte(at + 3) != 0 && !edge ==> pointer_byte(at + channel) == 0xff
        }),
{
    lemma_pointer_place(row, col, channel);
    lemma_pointer_place(row, col, 3);
    if col < 11 {
        lemma_pointer_place(row, col + 1, 3);
    }
}

} // verus!
