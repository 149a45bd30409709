use vstd::prelude::*;
use vstd::utf8::decode_first_scalar;
use vstd::utf8::is_scalar;
use vstd::utf8::length_of_first_scalar;
use vstd::utf8::valid_first_scalar;

verus! {

/// Relies on char::from_u32 of std: every Unicode scalar value converts to
/// the char with that value; only surrogates and values above the maximum
/// give nothing, and those are left out by the precondition.
#[verifier::external_body]
pub fn scalar_to_char(u: u32) -> (r: char)
    requires
        is_scalar(u),
    ensures
        r as u32 == u,
{
    char::from_u32(u).unwrap()
}

/// Reads the first UTF-8 scalar at the front of `s`: the decoded character
/// and the number of bytes of its encoding. Nothing when `s` is empty or
/// does not begin with a well-formed encoding.
pub fn decode_front(s: &[u8]) -> (r: Option<(char, usize)>)
    ensures
        match r {
            Some((c, w)) => valid_first_scalar(s@) && c as u32 == decode_first_scalar(s@) && w
                == length_of_first_scalar(s@) && 1 <= w <= 4 && w <= s@.len(),
            None => !valid_first_scalar(s@),
        },
{
    if s.len() == 0 {
        return None;
    }
    let b0 = s[0];
    if b0 <= 0x7f {
        let cp = b0 as u32;
        proof {
            assert((b0 & 0x7f) == b0) by (bit_vector)
                requires
                    b0 <= 0x7f,
            ;
        }
        Some((scalar_to_char(cp), 1))
    } else if 0xc0 <= b0 && b0 <= 0xdf {
        if s.len() >= 2 && 0x80 <= s[1] && s[1] <= 0xbf {
            let b1 = s[1];
            let cp = (((b0 & 0x1f) as u32) << 6u32) | ((b1 & 0x3f) as u32);
            proof {
                assert((((b0 & 0x1f) as u32) << 6u32) | ((b1 & 0x3f) as u32) <= 0x7ff)
                    by (bit_vector);
            }
            if 0x80 <= cp && cp <= 0x10ffff && !(0xd800 <= cp && cp <= 0xdfff) {
                Some((scalar_to_char(cp), 2))
            } else {
                None
            }
        } else {
            None
        }
    } else if 0xe0 <= b0 && b0 <= 0xef {
        if s.len() >= 3 && 0x80 <= s[1] && s[1] <= 0xbf && 0x80 <= s[2] && s[2] <= 0xbf {
            let b1 = s[1];
            let b2 = s[2];
            let cp = (((b0 & 0x0f) as u32) << 12u32) | (((b1 & 0x3f) as u32) << 6u32) | ((b2
                & 0x3f) as u32);
            proof {
                assert((((b0 & 0x0f) as u32) << 12u32) | (((b1 & 0x3f) as u32) << 6u32) | ((b2
                    & 0x3f) as u32) <= 0xffff) by (bit_vector);
            }
            if 0x800 <= cp && cp <= 0x10ffff && !(0xd800 <= cp && cp <= 0xdfff) {
                Some((scalar_to_char(cp), 3))
            } else {
                None
            }
        } else {
            None
        }
    } else if 0xf0 <= b0 && b0 <= 0xf7 {
        if s.len() >= 4 && 0x80 <= s[1] && s[1] <= 0xbf && 0x80 <= s[2] && s[2] <= 0xbf && 0x80
            <= s[3] && s[3] <= 0xbf {
            let cp = (((b0 & 0x07) as u32) << 18u32) | (((s[1] & 0x3f) as u32) << 12u32) | (((s[2]
                & 0x3f) as u32) << 6u32) | ((s[3] & 0x3f) as u32);
            if 0x10000 <= cp && cp <= 0x10ffff && !(0xd800 <= cp && cp <= 0xdfff) {
                Some((scalar_to_char(cp), 4))
            } else {
                None
            }
        } else {
            None
        }
    } else {
        None
    }
}

} // verus!
