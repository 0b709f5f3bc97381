//! Hexadecimal text to bytes.

use vstd::prelude::*;

verus! {

/// The value of a hexadecimal digit (`0-9`, `a-f`, `A-F`), if `c` is one.
pub open spec fn hex_value(c: char) -> Option<u8> {
    if '0' <= c && c <= '9' {
        Some(((c as u32) - ('0' as u32)) as u8)
    } else if 'a' <= c && c <= 'f' {
        Some(((c as u32) - ('a' as u32) + 10) as u8)
    } else if 'A' <= c && c <= 'F' {
        Some(((c as u32) - ('A' as u32) + 10) as u8)
    } else {
        None
    }
}

/// Every character is a hexadecimal digit.
pub open spec fn all_hex(s: Seq<char>) -> bool {
    forall|i: int| 0 <= i < s.len() ==> (#[trigger] hex_value(s[i])) is Some
}

/// The bytes of a text of hexadecimal digit pairs, high digit first.
pub open spec fn decoded(s: Seq<char>) -> Seq<u8> {
    Seq::new(
        s.len() / 2,
        |i: int| (hex_value(s[2 * i])->0 * 16 + hex_value(s[2 * i + 1])->0) as u8,
    )
}

fn hex_digit(c: char) -> (r: Option<u8>)
    ensures
        r == hex_value(c),
{
    if '0' <= c && c <= '9' {
        Some((c as u32 - '0' as u32) as u8)
    } else if 'a' <= c && c <= 'f' {
        Some((c as u32 - 'a' as u32 + 10) as u8)
    } else if 'A' <= c && c <= 'F' {
        Some((c as u32 - 'A' as u32 + 10) as u8)
    } else {
        None
    }
}

/// Decodes hexadecimal text: succeeds exactly when the text has an even number of
/// bytes and every character is a hexadecimal digit, with the bytes of `decoded`.
pub fn decode(s: &str) -> (r: Result<Vec<u8>, ()>)
    ensures
        match r {
            Ok(bytes) => s.len() % 2 == 0 && all_hex(s@) && bytes@ == decoded(s@),
            Err(_) => !(s.len() % 2 == 0 && all_hex(s@)),
        },
{
    if s.len() % 2 != 0 {
        return Err(());
    }
    let chars = crate::text::chars_of(s);
    let mut bytes: Vec<u8> = Vec::new();
    let mut i: usize = 0;
    while i < chars.len()
        invariant
            chars@ == s@,
            i <= chars@.len(),
            i % 2 == 0,
            bytes@.len() == i / 2,
            forall|k: int| 0 <= k < i ==> (#[trigger] hex_value(chars@[k])) is Some,
            forall|k: int|
                0 <= k < i / 2 ==> #[trigger] bytes@[k] == (hex_value(chars@[2 * k])->0 * 16
                    + hex_value(chars@[2 * k + 1])->0) as u8,
        decreases chars@.len() - i,
    {
        let h = match hex_digit(chars[i]) {
            Some(h) => h,
            None => return Err(()),
        };
        if i + 1 >= chars.len() {
            proof {
                assert forall|k: int| 0 <= k < s@.len() implies '\0' <= #[trigger] s@[k]
                    <= '\u{7f}' by {
                    assert(hex_value(chars@[k]) is Some);
                }
                vstd::utf8::is_ascii_chars_encode_utf8(s@);
            }
            return Err(());
        }
        let l = match hex_digit(chars[i + 1]) {
            Some(l) => l,
            None => return Err(()),
        };
        assert(h < 16 && l < 16);
        bytes.push(h * 16 + l);
        i = i + 2;
    }
    assert(bytes@ =~= decoded(s@));
    Ok(bytes)
}

} // verus!
