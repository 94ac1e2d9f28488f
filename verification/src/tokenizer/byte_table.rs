//! GPT-2's byte <-> unicode table: printable latin-1 bytes map to
//! themselves, every other byte to U+0100 plus a counter, a 256-way
//! bijection into printable chars.

use vstd::prelude::*;

verus! {

/// Whether byte value `b` is one of GPT-2's printable latin-1 bytes.
pub open spec fn printable(b: int) -> bool {
    (33 <= b <= 126) || (161 <= b <= 172) || (174 <= b <= 255)
}

/// How many non-printable byte values lie below `b` (for `0 <= b <= 256`).
pub open spec fn non_printable_before(b: int) -> int {
    if b <= 33 {
        b
    } else if b <= 127 {
        33
    } else if b <= 161 {
        b - 94
    } else if b <= 173 {
        67
    } else {
        68
    }
}

/// The char that byte `b` maps to.
pub open spec fn byte_char(b: int) -> char {
    if printable(b) {
        b as char
    } else {
        (256 + non_printable_before(b)) as char
    }
}

/// The whole table as a sequence indexed by byte value.
pub open spec fn byte_table() -> Seq<char> {
    Seq::new(256, |b: int| byte_char(b))
}

/// Builds the byte -> char table.
pub fn byte_to_unicode() -> (table: [char; 256])
    ensures
        table@ == byte_table(),
{
    let mut table = ['\0'; 256];
    let mut n: u32 = 0;
    let mut b: u32 = 0;
    while b < 256
        invariant
            b <= 256,
            n == non_printable_before(b as int),
            table@.len() == 256,
            forall|k: int| 0 <= k < b ==> table@[k] == byte_char(k),
        decreases 256 - b,
    {
        let is_printable = (33 <= b && b <= 126) || (161 <= b && b <= 172) || (174 <= b && b <= 255);
        if is_printable {
            let c = char::from_u32(b).unwrap();
            proof { vstd::utf8::char_u32_cast(c, b); }
            assert(c == b as char);
            assert(c == (b as int) as char);
            table[b as usize] = c;
        } else {
            let c = char::from_u32(256 + n).unwrap();
            proof { vstd::utf8::char_u32_cast(c, (256 + n) as u32); }
            assert(c == ((256 + n) as u32) as char);
            assert(c == (256 + n as int) as char);
            table[b as usize] = c;
            n = n + 1;
        }
        b = b + 1;
    }
    assert(table@ =~= byte_table());
    table
}

/// Inverse of the table: the byte whose char is `c`, if any.
pub fn byte_of_char(c: char) -> (r: Option<u8>)
    ensures
        r matches Some(b) ==> byte_char(b as int) == c,
        r is None ==> forall|b: int| 0 <= b < 256 ==> byte_char(b) != c,
{
    let v = c as u32;
    if (33 <= v && v <= 126) || (161 <= v && v <= 172) || (174 <= v && v <= 255) {
        Some(v as u8)
    } else if 256 <= v && v < 324 {
        let n = v - 256;
        let b: u32 = if n < 33 {
            n
        } else if n < 67 {
            n + 94
        } else {
            173
        };
        Some(b as u8)
    } else {
        proof {
            assert forall|b: int| 0 <= b < 256 implies byte_char(b) != c by {
                if byte_char(b) == c {
                    assert(byte_char(b) as u32 == v);
                }
            }
        }
        None
    }
}

/// Distinct bytes map to distinct chars.
pub proof fn lemma_byte_char_injective(b1: int, b2: int)
    requires
        0 <= b1 < 256,
        0 <= b2 < 256,
        byte_char(b1) == byte_char(b2),
    ensures
        b1 == b2,
{
    assert(byte_char(b1) as u32 == byte_char(b2) as u32);
}

} // verus!
