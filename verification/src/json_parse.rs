//! Reading JSON text into a `JsonValue`.
//!
//! The grammar covers what this wire format uses: objects, arrays, strings,
//! booleans, null, and numbers. A number that is an integer fitting 64
//! bits is read as one; any other number (a fraction, an exponent, a
//! longer integer) is carried opaquely as its literal text, so that a
//! message holding one in an ignored field still reads. A string's
//! content is the UTF-8 decoding of its bytes: printable ASCII stands for
//! itself, anything may arrive as a `\u` escape (surrogate pairs
//! included), and a raw multibyte sequence is decoded by the UTF-8
//! specification itself, one scalar at a time.

use crate::json::{JsonV, JsonValue};
use crate::text::{char_from_u32, push_char};
use vstd::prelude::*;
use vstd::string::StringExecFns;

verus! {

/// JSON whitespace.
pub open spec fn is_ws(b: u8) -> bool {
    b == 32 || b == 9 || b == 10 || b == 13
}

/// An ASCII decimal digit.
pub open spec fn is_digit(b: u8) -> bool {
    48 <= b && b <= 57
}

/// The first position at or after `i` that does not hold whitespace.
pub open spec fn ws_end(s: Seq<u8>, i: int) -> int
    decreases s.len() - i,
{
    if 0 <= i && i < s.len() && is_ws(s[i]) {
        ws_end(s, i + 1)
    } else {
        i
    }
}

/// The value of an ASCII hexadecimal digit, or 16 when it is none.
pub open spec fn hex_val(b: u8) -> int {
    if 48 <= b && b <= 57 {
        b - 48
    } else if 97 <= b && b <= 102 {
        b - 87
    } else if 65 <= b && b <= 70 {
        b - 55
    } else {
        16
    }
}

/// The value of the four hexadecimal digits at `i`.
pub open spec fn hex4_at(s: Seq<u8>, i: int) -> Option<int> {
    if 0 <= i && i + 4 <= s.len() && hex_val(s[i]) < 16 && hex_val(s[i + 1]) < 16 && hex_val(
        s[i + 2],
    ) < 16 && hex_val(s[i + 3]) < 16 {
        Some(hex_val(s[i]) * 4096 + hex_val(s[i + 1]) * 256 + hex_val(s[i + 2]) * 16 + hex_val(
            s[i + 3],
        ))
    } else {
        None
    }
}

/// The character named by the escape whose designator stands at `i` (the
/// byte after the backslash), and the position after it. A `\u` escape in
/// the surrogate range must be a high surrogate followed by a `\u` low
/// surrogate; the pair names one character beyond the basic plane.
pub open spec fn esc_at(s: Seq<u8>, i: int) -> Option<(char, int)> {
    if !(0 <= i && i < s.len()) {
        None
    } else {
        let b = s[i];
        if b == 34 {
            Some(('"', i + 1))
        } else if b == 92 {
            Some(('\\', i + 1))
        } else if b == 47 {
            Some(('/', i + 1))
        } else if b == 98 {
            Some(('\u{8}', i + 1))
        } else if b == 102 {
            Some(('\u{c}', i + 1))
        } else if b == 110 {
            Some(('\n', i + 1))
        } else if b == 114 {
            Some(('\r', i + 1))
        } else if b == 116 {
            Some(('\t', i + 1))
        } else if b == 117 {
            match hex4_at(s, i + 1) {
                Some(h) => if 0xd800 <= h && h < 0xdc00 {
                    if i + 11 <= s.len() && s[i + 5] == 92 && s[i + 6] == 117 {
                        match hex4_at(s, i + 7) {
                            Some(l) => if 0xdc00 <= l && l < 0xe000 {
                                Some(
                                    (
                                        ((0x10000 + (h - 0xd800) * 0x400 + (l - 0xdc00)) as u32)
                                            as char,
                                        i + 11,
                                    ),
                                )
                            } else {
                                None
                            },
                            None => None,
                        }
                    } else {
                        None
                    }
                } else if 0xdc00 <= h && h < 0xe000 {
                    None
                } else {
                    Some(((h as u32) as char, i + 5))
                },
                None => None,
            }
        } else {
            None
        }
    }
}

/// The content of a string literal whose opening quote stands just before
/// `i`, and the position after its closing quote. The content is the
/// UTF-8 decoding of the bytes: printable ASCII stands for itself, an
/// escape names any character, and a multibyte sequence is read scalar by
/// scalar as the UTF-8 specification defines.
pub open spec fn string_at(s: Seq<u8>, i: int) -> Option<(Seq<char>, int)>
    decreases s.len() - i,
{
    if !(0 <= i && i < s.len()) {
        None
    } else if s[i] == 34 {
        Some((Seq::empty(), i + 1))
    } else if s[i] == 92 {
        match esc_at(s, i + 1) {
            Some((c, k)) => if i < k && k <= s.len() {
                match string_at(s, k) {
                    Some((rest, end)) => Some((seq![c] + rest, end)),
                    None => None,
                }
            } else {
                None
            },
            None => None,
        }
    } else if 32 <= s[i] && s[i] < 128 {
        match string_at(s, i + 1) {
            Some((rest, end)) => Some((seq![s[i] as char] + rest, end)),
            None => None,
        }
    } else if s[i] >= 128 {
        let tail = s.skip(i);
        let w = vstd::utf8::length_of_first_codepoint(tail);
        if vstd::utf8::valid_first_scalar(tail) && 2 <= w && i + w <= s.len() {
            match string_at(s, i + w) {
                Some((rest, end)) => Some(
                    (seq![vstd::utf8::decode_first_scalar(tail) as char] + rest, end),
                ),
                None => None,
            }
        } else {
            None
        }
    } else {
        None
    }
}

/// The value of the digit run starting at `i`, on top of `acc`, and the
/// position after it. A run whose value does not fit 64 bits yields
/// nothing here; the caller then carries the token opaquely.
pub open spec fn digits_at(s: Seq<u8>, i: int, acc: u64) -> Option<(u64, int)>
    decreases s.len() - i,
{
    if !(0 <= i && i < s.len() && is_digit(s[i])) {
        None
    } else if acc > (u64::MAX - 9) / 10 {
        None
    } else {
        let acc2 = (acc * 10 + (s[i] - 48)) as u64;
        if i + 1 < s.len() && is_digit(s[i + 1]) {
            digits_at(s, i + 1, acc2)
        } else {
            Some((acc2, i + 1))
        }
    }
}

/// The integer starting at `i` and the position after it. Only an optional
/// minus sign and digits; a value outside `i64` yields nothing here, and
/// the caller then carries the token opaquely.
pub open spec fn number_at(s: Seq<u8>, i: int) -> Option<(i64, int)> {
    if !(0 <= i && i < s.len()) {
        None
    } else if s[i] == 45 {
        match digits_at(s, i + 1, 0) {
            Some((m, end)) => if m <= 0x8000000000000000 {
                Some(((-(m as int)) as i64, end))
            } else {
                None
            },
            None => None,
        }
    } else {
        match digits_at(s, i, 0) {
            Some((m, end)) => if m <= 0x7fffffffffffffff {
                Some((m as i64, end))
            } else {
                None
            },
            None => None,
        }
    }
}

/// The position after the run of one or more digits starting at `i`.
pub open spec fn digits_end(s: Seq<u8>, i: int) -> Option<int>
    decreases s.len() - i,
{
    if !(0 <= i && i < s.len() && is_digit(s[i])) {
        None
    } else if i + 1 < s.len() && is_digit(s[i + 1]) {
        digits_end(s, i + 1)
    } else {
        Some(i + 1)
    }
}

/// The position after the optional exponent part at `e`, and whether the
/// number is still a plain integer.
pub open spec fn num_exp_end(s: Seq<u8>, e: int, plain_so_far: bool) -> Option<(int, bool)> {
    if 0 <= e && e < s.len() && (s[e] == 101 || s[e] == 69) {
        let p = if e + 1 < s.len() && (s[e + 1] == 43 || s[e + 1] == 45) {
            e + 2
        } else {
            e + 1
        };
        match digits_end(s, p) {
            Some(e3) => Some((e3, false)),
            None => None,
        }
    } else {
        Some((e, plain_so_far))
    }
}

/// The position after the whole number token at `i` (sign, digits,
/// optional fraction, optional exponent), and whether it is a plain
/// integer.
pub open spec fn num_end(s: Seq<u8>, i: int) -> Option<(int, bool)> {
    let d0 = if 0 <= i && i < s.len() && s[i] == 45 {
        i + 1
    } else {
        i
    };
    match digits_end(s, d0) {
        Some(e1) => if e1 < s.len() && s[e1] == 46 {
            match digits_end(s, e1 + 1) {
                Some(e2) => num_exp_end(s, e2, false),
                None => None,
            }
        } else {
            num_exp_end(s, e1, true)
        },
        None => None,
    }
}

/// The characters that these bytes spell, one per byte.
pub open spec fn chars_of_bytes(bs: Seq<u8>) -> Seq<char> {
    Seq::new(
        bs.len(),
        |k: int|
            if 0 <= k < bs.len() {
                bs[k] as char
            } else {
                '\u{0}'
            },
    )
}

/// The value starting at or after `i` (leading whitespace skipped), and
/// the position after it.
pub open spec fn value_at(s: Seq<u8>, i: int) -> Option<(JsonV, int)>
    decreases s.len() - i, 0int,
{
    if !(0 <= i && i <= s.len()) {
        None
    } else {
        let j = ws_end(s, i);
        if !(i <= j && j < s.len()) {
            None
        } else {
            let b = s[j];
            if b == 110 {
                if j + 4 <= s.len() && s[j + 1] == 117 && s[j + 2] == 108 && s[j + 3] == 108 {
                    Some((JsonV::Null, j + 4))
                } else {
                    None
                }
            } else if b == 116 {
                if j + 4 <= s.len() && s[j + 1] == 114 && s[j + 2] == 117 && s[j + 3] == 101 {
                    Some((JsonV::Bool(true), j + 4))
                } else {
                    None
                }
            } else if b == 102 {
                if j + 5 <= s.len() && s[j + 1] == 97 && s[j + 2] == 108 && s[j + 3] == 115 && s[j
                    + 4] == 101 {
                    Some((JsonV::Bool(false), j + 5))
                } else {
                    None
                }
            } else if b == 34 {
                match string_at(s, j + 1) {
                    Some((cs, end)) => Some((JsonV::Str(cs), end)),
                    None => None,
                }
            } else if b == 45 || is_digit(b) {
                match num_end(s, j) {
                    Some((end, plain)) => if plain {
                        match number_at(s, j) {
                            Some((n, e2)) => if e2 == end {
                                Some((JsonV::Int(n), end))
                            } else {
                                None
                            },
                            None => Some(
                                (JsonV::Num(chars_of_bytes(s.subrange(j, end))), end),
                            ),
                        }
                    } else {
                        Some((JsonV::Num(chars_of_bytes(s.subrange(j, end))), end))
                    },
                    None => None,
                }
            } else if b == 91 {
                let j2 = ws_end(s, j + 1);
                if j < j2 && j2 < s.len() && s[j2] == 93 {
                    Some((JsonV::Arr(Seq::empty()), j2 + 1))
                } else {
                    match arr_items_at(s, j + 1) {
                        Some((items, end)) => Some((JsonV::Arr(items), end)),
                        None => None,
                    }
                }
            } else if b == 123 {
                let j2 = ws_end(s, j + 1);
                if j < j2 && j2 < s.len() && s[j2] == 125 {
                    Some((JsonV::Obj(Seq::empty()), j2 + 1))
                } else {
                    match obj_items_at(s, j + 1) {
                        Some((members, end)) => Some((JsonV::Obj(members), end)),
                        None => None,
                    }
                }
            } else {
                None
            }
        }
    }
}

/// The comma-separated elements from `i` up to the closing bracket, and
/// the position after that bracket.
pub open spec fn arr_items_at(s: Seq<u8>, i: int) -> Option<(Seq<JsonV>, int)>
    decreases s.len() - i, 1int,
{
    if !(0 <= i && i <= s.len()) {
        None
    } else {
        match value_at(s, i) {
            Some((v, k)) => if !(i < k && k <= s.len()) {
                None
            } else {
                let k2 = ws_end(s, k);
                if !(k <= k2 && k2 < s.len()) {
                    None
                } else if s[k2] == 44 {
                    match arr_items_at(s, k2 + 1) {
                        Some((rest, end)) => Some((seq![v] + rest, end)),
                        None => None,
                    }
                } else if s[k2] == 93 {
                    Some((seq![v], k2 + 1))
                } else {
                    None
                }
            },
            None => None,
        }
    }
}

/// The comma-separated members from `i` up to the closing brace, and the
/// position after that brace.
pub open spec fn obj_items_at(s: Seq<u8>, i: int) -> Option<(Seq<(Seq<char>, JsonV)>, int)>
    decreases s.len() - i, 1int,
{
    if !(0 <= i && i <= s.len()) {
        None
    } else {
        let j = ws_end(s, i);
        if !(i <= j && j < s.len() && s[j] == 34) {
            None
        } else {
            match string_at(s, j + 1) {
                Some((key, k)) => if !(j < k && k <= s.len()) {
                    None
                } else {
                    let c = ws_end(s, k);
                    if !(k <= c && c < s.len() && s[c] == 58) {
                        None
                    } else {
                        match value_at(s, c + 1) {
                            Some((v, k2)) => if !(c < k2 && k2 <= s.len()) {
                                None
                            } else {
                                let k3 = ws_end(s, k2);
                                if !(k2 <= k3 && k3 < s.len()) {
                                    None
                                } else if s[k3] == 44 {
                                    match obj_items_at(s, k3 + 1) {
                                        Some((rest, end)) => Some((seq![(key, v)] + rest, end)),
                                        None => None,
                                    }
                                } else if s[k3] == 125 {
                                    Some((seq![(key, v)], k3 + 1))
                                } else {
                                    None
                                }
                            },
                            None => None,
                        }
                    }
                },
                None => None,
            }
        }
    }
}

/// The document held by the whole of `s`: one value, with nothing but
/// whitespace after it.
pub open spec fn json_of(s: Seq<u8>) -> Option<JsonV> {
    match value_at(s, 0) {
        Some((v, end)) => if ws_end(s, end) == s.len() {
            Some(v)
        } else {
            None
        },
        None => None,
    }
}

fn skip_ws(s: &[u8], i: usize) -> (r: usize)
    requires
        i <= s@.len(),
    ensures
        r as int == ws_end(s@, i as int),
        i <= r <= s@.len(),
    decreases s@.len() - i,
{
    if i < s.len() && (s[i] == 32 || s[i] == 9 || s[i] == 10 || s[i] == 13) {
        skip_ws(s, i + 1)
    } else {
        i
    }
}

fn parse_hex4(s: &[u8], i: usize) -> (r: Option<u32>)
    requires
        i <= s@.len(),
    ensures
        match (r, hex4_at(s@, i as int)) {
            (Some(v), Some(w)) => v as int == w && v < 0x10000,
            (None, None) => true,
            _ => false,
        },
{
    if s.len() - i >= 4 {
        let d0 = hex_val_exec(s[i]);
        let d1 = hex_val_exec(s[i + 1]);
        let d2 = hex_val_exec(s[i + 2]);
        let d3 = hex_val_exec(s[i + 3]);
        if d0 < 16 && d1 < 16 && d2 < 16 && d3 < 16 {
            Some(d0 * 4096 + d1 * 256 + d2 * 16 + d3)
        } else {
            None
        }
    } else {
        None
    }
}

fn hex_val_exec(b: u8) -> (r: u32)
    ensures
        r as int == hex_val(b),
{
    if 48 <= b && b <= 57 {
        (b - 48) as u32
    } else if 97 <= b && b <= 102 {
        (b - 87) as u32
    } else if 65 <= b && b <= 70 {
        (b - 55) as u32
    } else {
        16
    }
}

fn parse_esc(s: &[u8], i: usize) -> (r: Option<(char, usize)>)
    requires
        i <= s@.len(),
    ensures
        match (r, esc_at(s@, i as int)) {
            (Some((c, k)), Some((cs, ks))) => c == cs && k as int == ks && i < k <= s@.len(),
            (None, None) => true,
            _ => false,
        },
{
    broadcast use vstd::utf8::char_u32_cast;

    if i >= s.len() {
        return None;
    }
    let b = s[i];
    if b == 34 {
        proof {
            assert(esc_at(s@, i as int) == Some(('"', i as int + 1)));
        }
        Some(('"', i + 1))
    } else if b == 92 {
        Some(('\\', i + 1))
    } else if b == 47 {
        Some(('/', i + 1))
    } else if b == 98 {
        Some(('\u{8}', i + 1))
    } else if b == 102 {
        Some(('\u{c}', i + 1))
    } else if b == 110 {
        Some(('\n', i + 1))
    } else if b == 114 {
        Some(('\r', i + 1))
    } else if b == 116 {
        Some(('\t', i + 1))
    } else if b == 117 {
        match parse_hex4(s, i + 1) {
            Some(h) => {
                if 0xd800 <= h && h < 0xdc00 {
                    if s.len() - i >= 11 && s[i + 5] == 92 && s[i + 6] == 117 {
                        match parse_hex4(s, i + 7) {
                            Some(l) => {
                                if 0xdc00 <= l && l < 0xe000 {
                                    let u: u32 = 0x10000 + (h - 0xd800) * 0x400 + (l - 0xdc00);
                                    match char_from_u32(u) {
                                        Some(c) => {
                                            proof {
                                                vstd::utf8::char_u32_cast(c, u);
                                            }
                                            Some((c, i + 11))
                                        },
                                        None => {
                                            assert(false);
                                            None
                                        },
                                    }
                                } else {
                                    None
                                }
                            },
                            None => None,
                        }
                    } else {
                        None
                    }
                } else if 0xdc00 <= h && h < 0xe000 {
                    None
                } else {
                    match char_from_u32(h) {
                        Some(c) => {
                            proof {
                                vstd::utf8::char_u32_cast(c, h);
                            }
                            Some((c, i + 5))
                        },
                        None => {
                            assert(false);
                            None
                        },
                    }
                }
            },
            None => None,
        }
    } else {
        None
    }
}

/// Reads the one multibyte UTF-8 scalar at `i`, whose leading byte is not
/// ASCII, exactly as the UTF-8 specification defines it: the right run of
/// continuation bytes, no overlong encoding, no surrogate, and nothing
/// past the last scalar value.
fn read_scalar(s: &[u8], i: usize) -> (r: Option<(char, usize)>)
    requires
        i < s@.len(),
        s@[i as int] >= 128,
    ensures
        ({
            let tail = s@.skip(i as int);
            let w = vstd::utf8::length_of_first_codepoint(tail);
            match r {
                Some((c, k)) => vstd::utf8::valid_first_scalar(tail) && 2 <= w && k == i + w && k
                    <= s@.len() && c == (vstd::utf8::decode_first_scalar(tail) as char),
                None => !(vstd::utf8::valid_first_scalar(tail) && 2 <= w && i + w <= s@.len()),
            }
        }),
{
    broadcast use vstd::utf8::char_u32_cast;

    let ln = s.len();
    let b1 = s[i];
    proof {
        assert(s@.skip(i as int)[0] == s@[i as int]);
    }
    if 0xc0 <= b1 && b1 <= 0xdf {
        if ln - i >= 2 {
            let b2 = s[i + 1];
            proof {
                assert(s@.skip(i as int)[1] == s@[i as int + 1]);
            }
            if 0x80 <= b2 && b2 <= 0xbf {
                let cp: u32 = (((b1 & 0x1f) as u32) << 6u32) | ((b2 & 0x3f) as u32);
                proof {
                    assert(cp <= 0x7ff) by (bit_vector)
                        requires
                            cp == (((b1 & 0x1f) as u32) << 6u32) | ((b2 & 0x3f) as u32);
                    let tail = s@.skip(i as int);
                    assert(vstd::utf8::is_leading_byte_width_2(b1));
                    assert(vstd::utf8::is_continuation_byte(b2));
                    assert(vstd::utf8::valid_leading_and_continuation_bytes_first_codepoint(
                        tail,
                    ));
                    assert(vstd::utf8::length_of_first_codepoint(tail) == 2);
                    assert(vstd::utf8::decode_first_codepoint(tail) == cp);
                }
                if 0x80 <= cp {
                    proof {
                        assert(vstd::utf8::valid_first_scalar(s@.skip(i as int)));
                    }
                    match crate::text::char_from_u32(cp) {
                        Some(c) => {
                            proof {
                                vstd::utf8::char_u32_cast(c, cp);
                            }
                            Some((c, i + 2))
                        },
                        None => {
                            assert(false);
                            None
                        },
                    }
                } else {
                    None
                }
            } else {
                None
            }
        } else {
            None
        }
    } else if 0xe0 <= b1 && b1 <= 0xef {
        if ln - i >= 3 {
            let b2 = s[i + 1];
            let b3 = s[i + 2];
            proof {
                assert(s@.skip(i as int)[1] == s@[i as int + 1]);
                assert(s@.skip(i as int)[2] == s@[i as int + 2]);
            }
            if 0x80 <= b2 && b2 <= 0xbf && 0x80 <= b3 && b3 <= 0xbf {
                let cp: u32 = (((b1 & 0x0f) as u32) << 12u32) | (((b2 & 0x3f) as u32) << 6u32) | (
                (b3 & 0x3f) as u32);
                proof {
                    assert(cp <= 0xffff) by (bit_vector)
                        requires
                            cp == (((b1 & 0x0f) as u32) << 12u32) | (((b2 & 0x3f) as u32)
                                << 6u32) | ((b3 & 0x3f) as u32);
                    let tail = s@.skip(i as int);
                    assert(vstd::utf8::is_leading_byte_width_3(b1));
                    assert(vstd::utf8::is_continuation_byte(b2));
                    assert(vstd::utf8::is_continuation_byte(b3));
                    assert(vstd::utf8::valid_leading_and_continuation_bytes_first_codepoint(
                        tail,
                    ));
                    assert(vstd::utf8::length_of_first_codepoint(tail) == 3);
                    assert(vstd::utf8::decode_first_codepoint(tail) == cp);
                }
                if 0x800 <= cp && !(0xd800 <= cp && cp <= 0xdfff) {
                    proof {
                        assert(vstd::utf8::valid_first_scalar(s@.skip(i as int)));
                    }
                    match crate::text::char_from_u32(cp) {
                        Some(c) => {
                            proof {
                                vstd::utf8::char_u32_cast(c, cp);
                            }
                            Some((c, i + 3))
                        },
                        None => {
                            assert(false);
                            None
                        },
                    }
                } else {
                    None
                }
            } else {
                None
            }
        } else {
            None
        }
    } else if 0xf0 <= b1 && b1 <= 0xf7 {
        if ln - i >= 4 {
            let b2 = s[i + 1];
            let b3 = s[i + 2];
            let b4 = s[i + 3];
            proof {
                assert(s@.skip(i as int)[1] == s@[i as int + 1]);
                assert(s@.skip(i as int)[2] == s@[i as int + 2]);
                assert(s@.skip(i as int)[3] == s@[i as int + 3]);
            }
            if 0x80 <= b2 && b2 <= 0xbf && 0x80 <= b3 && b3 <= 0xbf && 0x80 <= b4 && b4 <= 0xbf {
                let cp: u32 = (((b1 & 0x07) as u32) << 18u32) | (((b2 & 0x3f) as u32) << 12u32) | (
                ((b3 & 0x3f) as u32) << 6u32) | ((b4 & 0x3f) as u32);
                proof {
                    let tail = s@.skip(i as int);
                    assert(vstd::utf8::is_leading_byte_width_4(b1));
                    assert(vstd::utf8::is_continuation_byte(b2));
                    assert(vstd::utf8::is_continuation_byte(b3));
                    assert(vstd::utf8::is_continuation_byte(b4));
                    assert(vstd::utf8::valid_leading_and_continuation_bytes_first_codepoint(
                        tail,
                    ));
                    assert(vstd::utf8::length_of_first_codepoint(tail) == 4);
                    assert(vstd::utf8::decode_first_codepoint(tail) == cp);
                }
                if 0x10000 <= cp && cp <= 0x10ffff {
                    proof {
                        assert(vstd::utf8::valid_first_scalar(s@.skip(i as int)));
                    }
                    match crate::text::char_from_u32(cp) {
                        Some(c) => {
                            proof {
                                vstd::utf8::char_u32_cast(c, cp);
                            }
                            Some((c, i + 4))
                        },
                        None => {
                            assert(false);
                            None
                        },
                    }
                } else {
                    None
                }
            } else {
                None
            }
        } else {
            None
        }
    } else {
        None
    }
}

fn parse_string(s: &[u8], i: usize) -> (r: Option<(String, usize)>)
    requires
        i <= s@.len(),
    ensures
        match (r, string_at(s@, i as int)) {
            (Some((v, k)), Some((vs, ks))) => v@ == vs && k as int == ks && i < k <= s@.len(),
            (None, None) => true,
            _ => false,
        },
    decreases s@.len() - i,
{
    if i >= s.len() {
        return None;
    }
    let b = s[i];
    if b == 34 {
        Some((String::new(), i + 1))
    } else if b == 92 {
        match parse_esc(s, i + 1) {
            Some((c, k)) => {
                match parse_string(s, k) {
                    Some((rest, end)) => {
                        let mut out = String::new();
                        push_char(&mut out, c);
                        let out2 = out.concat(rest.as_str());
                        proof {
                            assert(out2@ =~= seq![c] + rest@);
                        }
                        Some((out2, end))
                    },
                    None => None,
                }
            },
            None => None,
        }
    } else if 32 <= b && b < 128 {
        match parse_string(s, i + 1) {
            Some((rest, end)) => {
                let mut out = String::new();
                push_char(&mut out, b as char);
                let out2 = out.concat(rest.as_str());
                proof {
                    assert(out2@ =~= seq![s@[i as int] as char] + rest@);
                }
                Some((out2, end))
            },
            None => None,
        }
    } else if b >= 128 {
        match read_scalar(s, i) {
            Some((c, k)) => {
                match parse_string(s, k) {
                    Some((rest, end)) => {
                        let mut out = String::new();
                        push_char(&mut out, c);
                        let out2 = out.concat(rest.as_str());
                        proof {
                            assert(out2@ =~= seq![c] + rest@);
                        }
                        Some((out2, end))
                    },
                    None => None,
                }
            },
            None => None,
        }
    } else {
        None
    }
}

fn parse_digits(s: &[u8], i: usize, acc: u64) -> (r: Option<(u64, usize)>)
    requires
        i <= s@.len(),
    ensures
        match (r, digits_at(s@, i as int, acc)) {
            (Some((v, k)), Some((vs, ks))) => v == vs && k as int == ks && i < k <= s@.len(),
            (None, None) => true,
            _ => false,
        },
    decreases s@.len() - i,
{
    if i < s.len() && 48 <= s[i] && s[i] <= 57 {
        if acc > (u64::MAX - 9) / 10 {
            None
        } else {
            let acc2: u64 = acc * 10 + ((s[i] - 48) as u64);
            if i + 1 < s.len() && 48 <= s[i + 1] && s[i + 1] <= 57 {
                parse_digits(s, i + 1, acc2)
            } else {
                Some((acc2, i + 1))
            }
        }
    } else {
        None
    }
}

fn parse_number(s: &[u8], i: usize) -> (r: Option<(i64, usize)>)
    requires
        i <= s@.len(),
    ensures
        match (r, number_at(s@, i as int)) {
            (Some((v, k)), Some((vs, ks))) => v == vs && k as int == ks && i < k <= s@.len(),
            (None, None) => true,
            _ => false,
        },
{
    if i >= s.len() {
        return None;
    }
    if s[i] == 45 {
        match parse_digits(s, i + 1, 0) {
            Some((m, end)) => {
                if m <= 0x8000000000000000 {
                    let v: i64 = if m == 0x8000000000000000 {
                        i64::MIN
                    } else {
                        -(m as i64)
                    };
                    Some((v, end))
                } else {
                    None
                }
            },
            None => None,
        }
    } else {
        match parse_digits(s, i, 0) {
            Some((m, end)) => {
                if m <= 0x7fffffffffffffff {
                    Some((m as i64, end))
                } else {
                    None
                }
            },
            None => None,
        }
    }
}

fn exec_digits_end(s: &[u8], i: usize) -> (r: Option<usize>)
    requires
        i <= s@.len(),
    ensures
        match (r, digits_end(s@, i as int)) {
            (Some(v), Some(w)) => v as int == w && i < v <= s@.len(),
            (None, None) => true,
            _ => false,
        },
    decreases s@.len() - i,
{
    if i < s.len() && 48 <= s[i] && s[i] <= 57 {
        if i + 1 < s.len() && 48 <= s[i + 1] && s[i + 1] <= 57 {
            exec_digits_end(s, i + 1)
        } else {
            Some(i + 1)
        }
    } else {
        None
    }
}

fn exec_num_exp_end(s: &[u8], e: usize, plain: bool) -> (r: Option<(usize, bool)>)
    requires
        e <= s@.len(),
    ensures
        match (r, num_exp_end(s@, e as int, plain)) {
            (Some((v, p)), Some((w, q))) => v as int == w && p == q && e <= v <= s@.len(),
            (None, None) => true,
            _ => false,
        },
{
    if e < s.len() && (s[e] == 101 || s[e] == 69) {
        let p = if e + 1 < s.len() && (s[e + 1] == 43 || s[e + 1] == 45) {
            e + 2
        } else {
            e + 1
        };
        match exec_digits_end(s, p) {
            Some(e3) => Some((e3, false)),
            None => None,
        }
    } else {
        Some((e, plain))
    }
}

fn exec_num_end(s: &[u8], i: usize) -> (r: Option<(usize, bool)>)
    requires
        i <= s@.len(),
    ensures
        match (r, num_end(s@, i as int)) {
            (Some((v, p)), Some((w, q))) => v as int == w && p == q && i < v <= s@.len(),
            (None, None) => true,
            _ => false,
        },
{
    let d0 = if i < s.len() && s[i] == 45 {
        i + 1
    } else {
        i
    };
    match exec_digits_end(s, d0) {
        Some(e1) => {
            if e1 < s.len() && s[e1] == 46 {
                match exec_digits_end(s, e1 + 1) {
                    Some(e2) => exec_num_exp_end(s, e2, false),
                    None => None,
                }
            } else {
                exec_num_exp_end(s, e1, true)
            }
        },
        None => None,
    }
}

fn num_token(s: &[u8], from: usize, to: usize) -> (r: JsonValue)
    requires
        from <= to <= s@.len(),
    ensures
        r@ == JsonV::Num(chars_of_bytes(s@.subrange(from as int, to as int))),
{
    let ln = s.len();
    let mut t = String::new();
    let mut k = from;
    proof {
        assert(t@ =~= chars_of_bytes(s@.subrange(from as int, from as int)));
    }
    while k < to
        invariant
            from <= k <= to <= s@.len(),
            s@.len() <= usize::MAX,
            t@ == chars_of_bytes(s@.subrange(from as int, k as int)),
        decreases to - k,
    {
        push_char(&mut t, s[k] as char);
        proof {
            assert(t@ =~= chars_of_bytes(s@.subrange(from as int, k as int + 1)));
        }
        k = k + 1;
    }
    JsonValue::Num(t)
}

fn parse_value(s: &[u8], i: usize) -> (r: Option<(JsonValue, usize)>)
    requires
        i <= s@.len(),
    ensures
        match (r, value_at(s@, i as int)) {
            (Some((v, k)), Some((vs, ks))) => v@ == vs && k as int == ks && i < k <= s@.len(),
            (None, None) => true,
            _ => false,
        },
    decreases s@.len() - i, 0int,
{
    let j = skip_ws(s, i);
    if j >= s.len() {
        return None;
    }
    let b = s[j];
    if b == 110 {
        if s.len() - j >= 4 && s[j + 1] == 117 && s[j + 2] == 108 && s[j + 3] == 108 {
            Some((JsonValue::Null, j + 4))
        } else {
            None
        }
    } else if b == 116 {
        if s.len() - j >= 4 && s[j + 1] == 114 && s[j + 2] == 117 && s[j + 3] == 101 {
            Some((JsonValue::Bool(true), j + 4))
        } else {
            None
        }
    } else if b == 102 {
        if s.len() - j >= 5 && s[j + 1] == 97 && s[j + 2] == 108 && s[j + 3] == 115 && s[j + 4]
            == 101 {
            Some((JsonValue::Bool(false), j + 5))
        } else {
            None
        }
    } else if b == 34 {
        match parse_string(s, j + 1) {
            Some((cs, end)) => Some((JsonValue::Str(cs), end)),
            None => None,
        }
    } else if b == 45 || (48 <= b && b <= 57) {
        match exec_num_end(s, j) {
            Some((end, plain)) => {
                if plain {
                    match parse_number(s, j) {
                        Some((n, e2)) => {
                            if e2 == end {
                                Some((JsonValue::Int(n), end))
                            } else {
                                None
                            }
                        },
                        None => Some((num_token(s, j, end), end)),
                    }
                } else {
                    Some((num_token(s, j, end), end))
                }
            },
            None => None,
        }
    } else if b == 91 {
        let j2 = skip_ws(s, j + 1);
        if j2 < s.len() && s[j2] == 93 {
            let items: Vec<JsonValue> = Vec::new();
            proof {
                assert(crate::json::view_elems(items@) =~= Seq::<JsonV>::empty());
            }
            Some((JsonValue::Arr(items), j2 + 1))
        } else {
            match parse_arr_items(s, j + 1) {
                Some((items, end)) => Some((JsonValue::Arr(items), end)),
                None => None,
            }
        }
    } else if b == 123 {
        let j2 = skip_ws(s, j + 1);
        if j2 < s.len() && s[j2] == 125 {
            let members: Vec<(String, JsonValue)> = Vec::new();
            proof {
                assert(crate::json::view_members(members@) =~= Seq::<(Seq<char>, JsonV)>::empty());
            }
            Some((JsonValue::Obj(members), j2 + 1))
        } else {
            match parse_obj_items(s, j + 1) {
                Some((members, end)) => Some((JsonValue::Obj(members), end)),
                None => None,
            }
        }
    } else {
        None
    }
}

fn parse_arr_items(s: &[u8], i: usize) -> (r: Option<(Vec<JsonValue>, usize)>)
    requires
        i <= s@.len(),
    ensures
        match (r, arr_items_at(s@, i as int)) {
            (Some((v, k)), Some((vs, ks))) => crate::json::view_elems(v@) == vs && k as int == ks
                && i < k <= s@.len(),
            (None, None) => true,
            _ => false,
        },
    decreases s@.len() - i, 1int,
{
    match parse_value(s, i) {
        Some((v, k)) => {
            let k2 = skip_ws(s, k);
            if k2 >= s.len() {
                return None;
            }
            if s[k2] == 44 {
                match parse_arr_items(s, k2 + 1) {
                    Some((rest, end)) => {
                        let mut items: Vec<JsonValue> = Vec::new();
                        items.push(v);
                        let mut rest = rest;
                        items.append(&mut rest);
                        proof {
                            let spec_pair = arr_items_at(s@, k2 as int + 1)->0;
                            let spec_rest = spec_pair.0;
                            assert(crate::json::view_elems(items@) =~= seq![items@[0]@]
                                + spec_rest);
                        }
                        Some((items, end))
                    },
                    None => None,
                }
            } else if s[k2] == 93 {
                let mut items: Vec<JsonValue> = Vec::new();
                items.push(v);
                proof {
                    assert(crate::json::view_elems(items@) =~= seq![items@[0]@]);
                }
                Some((items, k2 + 1))
            } else {
                None
            }
        },
        None => None,
    }
}

fn parse_obj_items(s: &[u8], i: usize) -> (r: Option<(Vec<(String, JsonValue)>, usize)>)
    requires
        i <= s@.len(),
    ensures
        match (r, obj_items_at(s@, i as int)) {
            (Some((v, k)), Some((vs, ks))) => crate::json::view_members(v@) == vs && k as int == ks
                && i < k <= s@.len(),
            (None, None) => true,
            _ => false,
        },
    decreases s@.len() - i, 1int,
{
    let j = skip_ws(s, i);
    if j >= s.len() {
        return None;
    }
    if s[j] != 34 {
        return None;
    }
    match parse_string(s, j + 1) {
        Some((key, k)) => {
            let c = skip_ws(s, k);
            if c >= s.len() {
                return None;
            }
            if s[c] != 58 {
                return None;
            }
            match parse_value(s, c + 1) {
                Some((v, k2)) => {
                    let k3 = skip_ws(s, k2);
                    if k3 >= s.len() {
                        return None;
                    }
                    if s[k3] == 44 {
                        match parse_obj_items(s, k3 + 1) {
                            Some((rest, end)) => {
                                let mut members: Vec<(String, JsonValue)> = Vec::new();
                                members.push((key, v));
                                let mut rest = rest;
                                members.append(&mut rest);
                                proof {
                                    let spec_pair = obj_items_at(s@, k3 as int + 1)->0;
                                    let spec_rest = spec_pair.0;
                                    assert(crate::json::view_members(members@) =~= seq![
                                        (members@[0].0@, members@[0].1@),
                                    ] + spec_rest);
                                }
                                Some((members, end))
                            },
                            None => None,
                        }
                    } else if s[k3] == 125 {
                        let mut members: Vec<(String, JsonValue)> = Vec::new();
                        members.push((key, v));
                        proof {
                            assert(crate::json::view_members(members@) =~= seq![
                                (members@[0].0@, members@[0].1@),
                            ]);
                        }
                        Some((members, k3 + 1))
                    } else {
                        None
                    }
                },
                None => None,
            }
        },
        None => None,
    }
}

impl JsonValue {
    /// Reads one JSON document from UTF-8 text: a single value with
    /// nothing but whitespace around it.
    pub fn parse(s: &[u8]) -> (r: Option<JsonValue>)
        ensures
            match (r, json_of(s@)) {
                (Some(v), Some(w)) => v@ == w,
                (None, None) => true,
                _ => false,
            },
    {
        match parse_value(s, 0) {
            Some((v, end)) => {
                let tail = skip_ws(s, end);
                if tail == s.len() {
                    Some(v)
                } else {
                    None
                }
            },
            None => None,
        }
    }
}


/// The bytes at `i` spell the characters `cs`, one byte per character.
pub open spec fn bytes_at(b: Seq<u8>, i: int, cs: Seq<char>) -> bool {
    forall|k: int| 0 <= k < cs.len() ==> b[i + k] == (#[trigger] cs[k]) as u8
}

/// Every character of a decimal representation is a digit.
proof fn lemma_dec_rep_digits(n: int)
    requires
        n >= 0,
    ensures
        crate::json::dec_rep(n).len() >= 1,
        forall|k: int|
            0 <= k < crate::json::dec_rep(n).len() ==> 48 <= (#[trigger] crate::json::dec_rep(n)[
                k
            ]) as int <= 57,
    decreases n,
{
    if n >= 10 {
        lemma_dec_rep_digits(n / 10);
    }
}

/// The value of a digit string read left to right on top of `acc`.
pub open spec fn horner(acc: int, r: Seq<char>) -> int
    decreases r.len(),
{
    if r.len() == 0 {
        acc
    } else {
        horner(acc * 10 + (r[0] as int - 48), r.drop_first())
    }
}

proof fn lemma_horner_ge(acc: int, r: Seq<char>)
    requires
        acc >= 0,
        forall|k: int| 0 <= k < r.len() ==> 48 <= (#[trigger] r[k]) as int <= 57,
    ensures
        horner(acc, r) >= acc,
    decreases r.len(),
{
    if r.len() > 0 {
        assert(48 <= r[0] as int <= 57);
        assert forall|k: int|
            0 <= k < r.drop_first().len() implies 48 <= (#[trigger] r.drop_first()[k]) as int
            <= 57 by {
            assert(r.drop_first()[k] == r[k + 1]);
        }
        lemma_horner_ge(acc * 10 + (r[0] as int - 48), r.drop_first());
    }
}

proof fn lemma_horner_push(acc: int, r: Seq<char>, d: char)
    ensures
        horner(acc, r.push(d)) == horner(acc, r) * 10 + (d as int - 48),
    decreases r.len(),
{
    if r.len() == 0 {
        assert(r.push(d)[0] == d);
        assert(r.push(d).drop_first() =~= Seq::<char>::empty());
        assert(horner(acc, r.push(d)) == horner(
            acc * 10 + (d as int - 48),
            Seq::<char>::empty(),
        ));
        assert(horner(acc * 10 + (d as int - 48), Seq::<char>::empty()) == acc * 10 + (d as int
            - 48));
        assert(horner(acc, r) == acc);
    } else {
        assert(r.push(d)[0] == r[0]);
        assert(r.push(d).drop_first() =~= r.drop_first().push(d));
        lemma_horner_push(acc * 10 + (r[0] as int - 48), r.drop_first(), d);
        assert(horner(acc, r.push(d)) == horner(
            acc * 10 + (r[0] as int - 48),
            r.drop_first().push(d),
        ));
        assert(horner(acc, r) == horner(acc * 10 + (r[0] as int - 48), r.drop_first()));
    }
}

/// Reading a decimal representation back gives the number.
proof fn lemma_horner_dec_rep(n: int)
    requires
        n >= 0,
    ensures
        horner(0, crate::json::dec_rep(n)) == n,
    decreases n,
{
    if n < 10 {
        let r = crate::json::dec_rep(n);
        assert(r[0] == crate::json::dec_digit(n));
        assert(r[0] as int == 48 + n);
        assert(r.drop_first() =~= Seq::<char>::empty());
        assert(horner(0, r) == horner(n, Seq::<char>::empty()));
        assert(horner(n, Seq::<char>::empty()) == n);
    } else {
        lemma_horner_dec_rep(n / 10);
        lemma_horner_push(0, crate::json::dec_rep(n / 10), crate::json::dec_digit(n % 10));
        assert(crate::json::dec_digit(n % 10) as int == 48 + n % 10);
        assert((n / 10) * 10 + n % 10 == n);
    }
}

/// Parsing a run of printed digits on top of `acc` consumes exactly the
/// run and combines its value left to right.
proof fn lemma_digit_run_parse(b: Seq<u8>, i: int, r: Seq<char>, acc: u64)
    requires
        r.len() >= 1,
        forall|k: int| 0 <= k < r.len() ==> 48 <= (#[trigger] r[k]) as int <= 57,
        0 <= i,
        i + r.len() <= b.len(),
        bytes_at(b, i, r),
        i + r.len() < b.len() ==> !is_digit(b[i + r.len()]),
        horner(acc as int, r) <= u64::MAX - 9,
    ensures
        digits_at(b, i, acc) == Some((horner(acc as int, r) as u64, i + r.len())),
    decreases r.len(),
{
    assert(b[i] == r[0] as u8);
    assert(48 <= r[0] as int <= 57);
    assert(b[i] == r[0] as int);
    assert(is_digit(b[i]));
    let d = r[0] as int - 48;
    assert forall|k: int|
        0 <= k < r.drop_first().len() implies 48 <= (#[trigger] r.drop_first()[k]) as int <= 57 by {
        assert(r.drop_first()[k] == r[k + 1]);
    }
    lemma_horner_ge((acc as int) * 10 + d, r.drop_first());
    assert(horner(acc as int, r) >= (acc as int) * 10 + d);
    assert((acc as int) * 10 <= u64::MAX - 9);
    assert(acc <= (u64::MAX - 9) / 10);
    let acc2: u64 = (acc * 10 + (b[i] - 48) as u64) as u64;
    assert(acc2 as int == (acc as int) * 10 + d);
    if r.len() == 1 {
        assert(r.drop_first() =~= Seq::<char>::empty());
        assert(horner(acc as int, r) == horner(acc2 as int, Seq::<char>::empty()));
        assert(horner(acc2 as int, Seq::<char>::empty()) == acc2 as int);
        assert(digits_at(b, i, acc) == Some((acc2, i + 1)));
    } else {
        assert(b[i + 1] == r[1] as u8);
        assert(48 <= r[1] as int <= 57);
        assert(is_digit(b[i + 1]));
        assert forall|k: int| 0 <= k < r.drop_first().len() implies b[i + 1 + k] == (
        #[trigger] r.drop_first()[k]) as u8 by {
            assert(r.drop_first()[k] == r[k + 1]);
            assert(b[i + (k + 1)] == r[k + 1] as u8);
        }
        lemma_digit_run_parse(b, i + 1, r.drop_first(), acc2);
    }
}

/// Parsing a printed integer consumes exactly its text and yields the
/// integer back.
proof fn lemma_int_print_parse(b: Seq<u8>, i: int, n: i64)
    requires
        0 <= i,
        i + crate::json::int_rep(n as int).len() <= b.len(),
        bytes_at(b, i, crate::json::int_rep(n as int)),
        i + crate::json::int_rep(n as int).len() < b.len() ==> !is_digit(
            b[i + crate::json::int_rep(n as int).len()],
        ),
    ensures
        number_at(b, i) == Some((n, i + crate::json::int_rep(n as int).len())),
{
    if n < 0 {
        let m = -(n as int);
        let r = crate::json::dec_rep(m);
        lemma_dec_rep_digits(m);
        assert(crate::json::int_rep(n as int) == seq!['-'] + r);
        assert(crate::json::int_rep(n as int)[0] == '-');
        assert(b[i + 0] == '-' as u8);
        assert(b[i] == 45);
        assert forall|k: int| 0 <= k < r.len() implies b[i + 1 + k] == (#[trigger] r[k]) as u8 by {
            assert((seq!['-'] + r)[k + 1] == r[k]);
        }
        lemma_horner_dec_rep(m);
        lemma_digit_run_parse(b, i + 1, r, 0);
        assert(digits_at(b, i + 1, 0) == Some((m as u64, i + 1 + r.len())));
        assert(((-(m)) as i64) == n);
    } else {
        let r = crate::json::dec_rep(n as int);
        lemma_dec_rep_digits(n as int);
        assert(crate::json::int_rep(n as int) == r);
        assert(b[i] == r[0] as u8);
        assert(48 <= b[i] <= 57);
        lemma_horner_dec_rep(n as int);
        lemma_digit_run_parse(b, i, r, 0);
    }
}


/// A concatenation spelled at `i` spells its parts in place.
proof fn lemma_bytes_at_concat(b: Seq<u8>, i: int, x: Seq<char>, y: Seq<char>)
    requires
        bytes_at(b, i, x + y),
    ensures
        bytes_at(b, i, x),
        bytes_at(b, i + x.len(), y),
{
    assert forall|k: int| 0 <= k < x.len() implies b[i + k] == (#[trigger] x[k]) as u8 by {
        assert((x + y)[k] == x[k]);
    }
    assert forall|k: int| 0 <= k < y.len() implies b[i + x.len() + k] == (#[trigger] y[k]) as u8 by {
        assert((x + y)[x.len() + k] == y[k]);
        assert(b[i + (x.len() + k)] == ((x + y)[x.len() + k]) as u8);
    }
}

proof fn lemma_hex_digit_val(d: int)
    requires
        0 <= d < 16,
    ensures
        hex_val(crate::json::hex_digit(d) as u8) == d,
        (crate::json::hex_digit(d) as int) < 0x80,
{
}

/// Parsing four printed hexadecimal digits gives the value back.
proof fn lemma_hex4_print_parse(b: Seq<u8>, i: int, u: int)
    requires
        0 <= u < 0x10000,
        0 <= i,
        i + 4 <= b.len(),
        bytes_at(b, i, crate::json::hex4(u)),
    ensures
        hex4_at(b, i) == Some(u),
{
    let r = crate::json::hex4(u);
    lemma_hex_digit_val(u / 4096 % 16);
    lemma_hex_digit_val(u / 256 % 16);
    lemma_hex_digit_val(u / 16 % 16);
    lemma_hex_digit_val(u % 16);
    assert(b[i + 0] == r[0] as u8);
    assert(b[i + 1] == r[1] as u8);
    assert(b[i + 2] == r[2] as u8);
    assert(b[i + 3] == r[3] as u8);
    assert(hex_val(b[i]) == u / 4096 % 16);
    assert(hex_val(b[i + 1]) == u / 256 % 16);
    assert(hex_val(b[i + 2]) == u / 16 % 16);
    assert(hex_val(b[i + 3]) == u % 16);
    assert(u / 4096 % 16 * 4096 + u / 256 % 16 * 256 + u / 16 % 16 * 16 + u % 16 == u)
        by (nonlinear_arith)
        requires
            0 <= u < 0x10000;
}

/// One printed character, raw or escaped, reads back as itself: either
/// it is a printable byte that stands for itself, or it is an escape that
/// `esc_at` resolves to the character, consuming exactly the printed text.
#[verifier::rlimit(100)]
#[verifier::spinoff_prover]
proof fn lemma_char_print_parse(b: Seq<u8>, i: int, c: char)
    requires
        0 <= i,
        i + crate::json::esc_char(c).len() <= b.len(),
        bytes_at(b, i, crate::json::esc_char(c)),
    ensures
        (c == '"' || c == '\\' || !(0x20 <= c as int && (c as int) < 0x80)) ==> (b[i] == 92
            && esc_at(b, i + 1) == Some((c, i + crate::json::esc_char(c).len()))),
        (c != '"' && c != '\\' && 0x20 <= c as int && (c as int) < 0x80) ==> (b[i] != 34 && b[i]
            != 92 && 32 <= b[i] && b[i] < 128 && b[i] as char == c),
{
    broadcast use vstd::utf8::char_is_scalar;
    broadcast use vstd::utf8::char_u32_cast;

    let e = crate::json::esc_char(c);
    let u = c as int;
    if c == '"' {
        assert(e =~= seq!['\\', '"']);
        assert(e[0] == '\\' && e[1] == '"');
        assert(b[i + 0] == '\\' as u8 && b[i + 1] == '"' as u8);
        assert(esc_at(b, i + 1) == Some(('"', i + 2)));
    } else if c == '\\' {
        assert(e =~= seq!['\\', '\\']);
        assert(e[0] == '\\' && e[1] == '\\');
        assert(b[i + 0] == '\\' as u8 && b[i + 1] == '\\' as u8);
        assert(esc_at(b, i + 1) == Some(('\\', i + 2)));
    } else if 0x20 <= u && u < 0x80 {
        assert(e =~= seq![c]);
        assert(e[0] == c);
        assert(b[i + 0] == c as u8);
        assert(b[i] == u);
        if u == 34 {
            vstd::utf8::char_u32_cast(c, 34u32);
            vstd::utf8::char_u32_cast('"', 34u32);
            assert(false);
        }
        if u == 92 {
            vstd::utf8::char_u32_cast(c, 92u32);
            vstd::utf8::char_u32_cast('\\', 92u32);
            assert(false);
        }
        assert(b[i] as char == c);
    } else if u < 0x10000 {
        assert(e == seq!['\\', 'u'] + crate::json::hex4(u));
        assert(e[0] == '\\' && e[1] == 'u');
        assert(b[i + 0] == '\\' as u8 && b[i + 1] == 'u' as u8);
        assert forall|k: int| 0 <= k < 4 implies b[i + 2 + k] == (
        #[trigger] crate::json::hex4(u)[k]) as u8 by {
            assert(e[2 + k] == crate::json::hex4(u)[k]);
            assert(b[i + (2 + k)] == e[2 + k] as u8);
        }
        lemma_hex4_print_parse(b, i + 2, u);
        assert(!(0xd800 <= u && u < 0xe000));
        assert((u as u32) as char == c);
        assert(esc_at(b, i + 1) == Some((c, i + 6)));
    } else {
        let rem = u - 0x10000;
        let hi = 0xd800 + rem / 0x400;
        let lo = 0xdc00 + rem % 0x400;
        assert(0 <= rem < 0x100000);
        assert(0 <= rem / 0x400 < 0x400);
        assert(0 <= rem % 0x400 < 0x400);
        assert(e == seq!['\\', 'u'] + crate::json::hex4(hi) + seq!['\\', 'u']
            + crate::json::hex4(lo));
        assert(e.len() == 12);
        assert(e[0] == '\\' && e[1] == 'u' && e[6] == '\\' && e[7] == 'u');
        assert(b[i + 0] == '\\' as u8 && b[i + 1] == 'u' as u8);
        assert(b[i + 6] == '\\' as u8 && b[i + 7] == 'u' as u8);
        assert forall|k: int| 0 <= k < 4 implies b[i + 2 + k] == (
        #[trigger] crate::json::hex4(hi)[k]) as u8 by {
            assert(e[2 + k] == crate::json::hex4(hi)[k]);
            assert(b[i + (2 + k)] == e[2 + k] as u8);
        }
        assert forall|k: int| 0 <= k < 4 implies b[i + 8 + k] == (
        #[trigger] crate::json::hex4(lo)[k]) as u8 by {
            assert(e[8 + k] == crate::json::hex4(lo)[k]);
            assert(b[i + (8 + k)] == e[8 + k] as u8);
        }
        lemma_hex4_print_parse(b, i + 2, hi);
        lemma_hex4_print_parse(b, i + 8, lo);
        assert(0xd800 <= hi < 0xdc00);
        assert(0xdc00 <= lo < 0xe000);
        assert(0x10000 + (hi - 0xd800) * 0x400 + (lo - 0xdc00) == u)
            by (nonlinear_arith)
            requires
                hi == 0xd800 + (u - 0x10000) / 0x400,
                lo == 0xdc00 + (u - 0x10000) % 0x400,
                0x10000 <= u;
        assert((u as u32) as char == c);
        assert(esc_at(b, i + 1) == Some((c, i + 12)));
    }
}

/// Parsing a printed string body (with its closing quote) gives the
/// characters back and stops right after the quote.
#[verifier::rlimit(100)]
proof fn lemma_string_print_parse(b: Seq<u8>, i: int, cs: Seq<char>)
    requires
        0 <= i,
        i + crate::json::str_body_rep(cs).len() + 1 <= b.len(),
        bytes_at(b, i, crate::json::str_body_rep(cs).push('"')),
    ensures
        string_at(b, i) == Some((cs, i + crate::json::str_body_rep(cs).len() + 1)),
    decreases cs.len(),
{
    let body = crate::json::str_body_rep(cs);
    if cs.len() == 0 {
        assert(body.push('"')[0] == '"');
        assert(b[i + 0] == '"' as u8);
        assert(string_at(b, i) == Some((Seq::<char>::empty(), i + 1)));
        assert(Seq::<char>::empty() =~= cs);
    } else {
        let c = cs[0];
        let e = crate::json::esc_char(c);
        let rest = cs.drop_first();
        let rest_body = crate::json::str_body_rep(rest);
        assert(body == e + rest_body);
        assert(body.push('"') =~= e + rest_body.push('"'));
        lemma_bytes_at_concat(b, i, e, rest_body.push('"'));
        let j = i + e.len();
        lemma_string_print_parse(b, j, rest);
        lemma_char_print_parse(b, i, c);
        if c == '"' || c == '\\' || !(0x20 <= c as int && (c as int) < 0x80) {
            assert(b[i] == 92);
            assert(esc_at(b, i + 1) == Some((c, j)));
            assert(string_at(b, i) == Some((seq![c] + rest, j + rest_body.len() + 1)));
        } else {
            assert(string_at(b, i) == Some((seq![c] + rest, j + rest_body.len() + 1)));
        }
        assert(seq![c] + rest =~= cs);
    }
}


/// Scanning a printed run of digits ends exactly after it.
proof fn lemma_digits_end_print(b: Seq<u8>, i: int, r: Seq<char>)
    requires
        r.len() >= 1,
        forall|k: int| 0 <= k < r.len() ==> 48 <= (#[trigger] r[k]) as int <= 57,
        0 <= i,
        i + r.len() <= b.len(),
        bytes_at(b, i, r),
        i + r.len() < b.len() ==> !is_digit(b[i + r.len()]),
    ensures
        digits_end(b, i) == Some(i + r.len()),
    decreases r.len(),
{
    assert(b[i] == r[0] as u8);
    assert(48 <= r[0] as int <= 57);
    assert(is_digit(b[i]));
    if r.len() == 1 {
    } else {
        assert(b[i + 1] == r[1] as u8);
        assert(48 <= r[1] as int <= 57);
        assert(is_digit(b[i + 1]));
        assert forall|k: int|
            0 <= k < r.drop_first().len() implies 48 <= (#[trigger] r.drop_first()[k]) as int
            <= 57 by {
            assert(r.drop_first()[k] == r[k + 1]);
        }
        assert forall|k: int| 0 <= k < r.drop_first().len() implies b[i + 1 + k] == (
        #[trigger] r.drop_first()[k]) as u8 by {
            assert(r.drop_first()[k] == r[k + 1]);
            assert(b[i + (k + 1)] == r[k + 1] as u8);
        }
        lemma_digits_end_print(b, i + 1, r.drop_first());
    }
}

/// The first character of any printed value: a letter of a keyword, a
/// sign or digit, a quote, or an opening bracket — never whitespace and
/// never a closing bracket or comma.
proof fn lemma_json_rep_first(v: JsonV)
    requires
        !(v is Num),
    ensures
        crate::json::json_rep(v).len() >= 1,
        ({
            let c0 = crate::json::json_rep(v)[0] as int;
            c0 == 110 || c0 == 116 || c0 == 102 || c0 == 45 || (48 <= c0 <= 57) || c0 == 34
                || c0 == 91 || c0 == 123
        }),
{
    match v {
        JsonV::Null => {
            assert(crate::json::json_rep(v)[0] == 'n');
        },
        JsonV::Bool(t) => {
            if t {
                assert(crate::json::json_rep(v)[0] == 't');
            } else {
                assert(crate::json::json_rep(v)[0] == 'f');
            }
        },
        JsonV::Int(n) => {
            if n < 0 {
                assert(crate::json::int_rep(n as int)[0] == '-');
            } else {
                lemma_dec_rep_digits(n as int);
                assert(crate::json::int_rep(n as int)[0] == crate::json::dec_rep(n as int)[0]);
            }
        },
        JsonV::Num(t) => {
            assert(false);
        },
        JsonV::Str(cs) => {
            assert(crate::json::json_rep(v)[0] == '"');
        },
        JsonV::Arr(a) => {
            assert(crate::json::json_rep(v)[0] == '[');
        },
        JsonV::Obj(m) => {
            assert(crate::json::json_rep(v)[0] == '{');
        },
    }
}

/// Parsing printed JSON text at `i` yields the printed value and consumes
/// exactly its text. When the value is an integer, the byte after the
/// text (if any) must not be a digit, or the parser would read on.
#[verifier::rlimit(100)]
proof fn lemma_value_print_parse(b: Seq<u8>, i: int, v: JsonV)
    requires
        crate::json::num_free(v),
        0 <= i,
        i + crate::json::json_rep(v).len() <= b.len(),
        bytes_at(b, i, crate::json::json_rep(v)),
        v is Int ==> (i + crate::json::json_rep(v).len() == b.len() || ({
            let nb = b[i + crate::json::json_rep(v).len()];
            !is_digit(nb) && nb != 46 && nb != 101 && nb != 69
        })),
    ensures
        value_at(b, i) == Some((v, i + crate::json::json_rep(v).len())),
    decreases v, 0int,
{
    let rep = crate::json::json_rep(v);
    lemma_json_rep_first(v);
    assert(b[i + 0] == rep[0] as u8);
    assert(!is_ws(b[i]));
    assert(ws_end(b, i) == i);
    match v {
        JsonV::Null => {
            assert(rep =~= seq!['n', 'u', 'l', 'l']);
            assert(b[i + 0] == 'n' as u8 && b[i + 1] == 'u' as u8 && b[i + 2] == 'l' as u8 && b[i
                + 3] == 'l' as u8);
        },
        JsonV::Bool(t) => {
            if t {
                assert(rep =~= seq!['t', 'r', 'u', 'e']);
                assert(b[i + 0] == 't' as u8 && b[i + 1] == 'r' as u8 && b[i + 2] == 'u' as u8
                    && b[i + 3] == 'e' as u8);
            } else {
                assert(rep =~= seq!['f', 'a', 'l', 's', 'e']);
                assert(b[i + 0] == 'f' as u8 && b[i + 1] == 'a' as u8 && b[i + 2] == 'l' as u8
                    && b[i + 3] == 's' as u8 && b[i + 4] == 'e' as u8);
            }
        },
        JsonV::Int(n) => {
            let end = i + rep.len();
            let m = if n < 0 {
                -(n as int)
            } else {
                n as int
            };
            let digits = crate::json::dec_rep(m);
            lemma_dec_rep_digits(m);
            let d0 = if n < 0 {
                i + 1
            } else {
                i
            };
            if n < 0 {
                assert(rep == seq!['-'] + digits);
                assert(rep[0] == '-');
                assert(b[i + 0] == '-' as u8);
                assert(b[i] == 45);
                assert forall|k: int| 0 <= k < digits.len() implies b[i + 1 + k] == (
                #[trigger] digits[k]) as u8 by {
                    assert((seq!['-'] + digits)[k + 1] == digits[k]);
                }
            } else {
                assert(rep == digits);
                assert(b[i] == rep[0] as u8);
                assert(48 <= rep[0] as int <= 57);
                assert(b[i] != 45);
            }
            lemma_digits_end_print(b, d0, digits);
            assert(digits_end(b, d0) == Some(end));
            assert(end < b.len() ==> b[end] != 46);
            assert(end < b.len() ==> (b[end] != 101 && b[end] != 69));
            assert(num_exp_end(b, end, true) == Some((end, true)));
            assert(num_end(b, i) == Some((end, true)));
            lemma_int_print_parse(b, i, n);
        },
        JsonV::Num(t) => {
            assert(false);
        },
        JsonV::Str(cs) => {
            assert(b[i] == 34);
            let body = crate::json::str_body_rep(cs);
            assert(rep =~= seq!['"'] + body.push('"'));
            lemma_bytes_at_concat(b, i, seq!['"'], body.push('"'));
            lemma_string_print_parse(b, i + 1, cs);
        },
        JsonV::Arr(a) => {
            assert(b[i] == 91);
            let body = crate::json::arr_body_rep(a);
            assert(rep =~= seq!['['] + body.push(']'));
            lemma_bytes_at_concat(b, i, seq!['['], body.push(']'));
            if a.len() == 0 {
                assert(body.push(']')[0] == ']');
                assert(b[i + 1 + 0] == ']' as u8);
                assert(!is_ws(b[i + 1]));
                assert(ws_end(b, i + 1) == i + 1);
                assert(value_at(b, i) == Some((JsonV::Arr(Seq::empty()), i + 2)));
                assert(Seq::<JsonV>::empty() =~= a);
            } else {
                assert(crate::json::num_free(a[0]));
                lemma_json_rep_first(a[0]);
                assert(body[0] == crate::json::json_rep(a[0])[0]);
                assert(body.push(']')[0] == body[0]);
                assert(b[i + 1 + 0] == body[0] as u8);
                assert(!is_ws(b[i + 1]));
                assert(ws_end(b, i + 1) == i + 1);
                assert(b[i + 1] != 93);
                lemma_arr_items_print_parse(b, i + 1, a);
            }
        },
        JsonV::Obj(m) => {
            assert(b[i] == 123);
            let body = crate::json::obj_body_rep(m);
            assert(rep =~= seq!['{'] + body.push('}'));
            lemma_bytes_at_concat(b, i, seq!['{'], body.push('}'));
            if m.len() == 0 {
                assert(body.push('}')[0] == '}');
                assert(b[i + 1 + 0] == '}' as u8);
                assert(!is_ws(b[i + 1]));
                assert(ws_end(b, i + 1) == i + 1);
                assert(value_at(b, i) == Some((JsonV::Obj(Seq::empty()), i + 2)));
                assert(Seq::<(Seq<char>, JsonV)>::empty() =~= m);
            } else {
                assert(body[0] == crate::json::str_rep(m[0].0)[0]);
                assert(crate::json::str_rep(m[0].0)[0] == '"');
                assert(body.push('}')[0] == body[0]);
                assert(b[i + 1 + 0] == body[0] as u8);
                assert(!is_ws(b[i + 1]));
                assert(ws_end(b, i + 1) == i + 1);
                assert(b[i + 1] != 125);
                lemma_obj_items_print_parse(b, i + 1, m);
            }
        },
    }
}

/// Parsing the printed elements of a non-empty array consumes them and
/// the closing bracket.
#[verifier::rlimit(100)]
proof fn lemma_arr_items_print_parse(b: Seq<u8>, i: int, elems: Seq<JsonV>)
    requires
        elems.len() >= 1,
        forall|t: int| 0 <= t < elems.len() ==> crate::json::num_free(#[trigger] elems[t]),
        0 <= i,
        i + crate::json::arr_body_rep(elems).len() + 1 <= b.len(),
        bytes_at(b, i, crate::json::arr_body_rep(elems).push(']')),
    ensures
        arr_items_at(b, i) == Some((elems, i + crate::json::arr_body_rep(elems).len() + 1)),
    decreases elems, 2int,
{
    let e0 = elems[0];
    let rep0 = crate::json::json_rep(e0);
    assert(crate::json::num_free(e0));
    lemma_json_rep_first(e0);
    let body = crate::json::arr_body_rep(elems);
    if elems.len() == 1 {
        assert(body == rep0);
        assert(body.push(']') =~= rep0 + seq![']']);
        lemma_bytes_at_concat(b, i, rep0, seq![']']);
        assert(seq![']'][0] == ']');
        assert(b[i + rep0.len() + 0] == ']' as u8);
        lemma_value_print_parse(b, i, e0);
        let k = i + rep0.len();
        assert(value_at(b, i) == Some((e0, k)));
        assert(i < k && k <= b.len());
        assert(!is_ws(b[k]));
        assert(ws_end(b, k) == k);
        assert(k < b.len());
        assert(b[k] == 93);
        assert(arr_items_at(b, i) == Some((seq![e0], k + 1)));
        assert(seq![e0] =~= elems);
    } else {
        let rest = elems.drop_first();
        let rest_body = crate::json::arr_body_rep(rest);
        assert forall|t: int|
            0 <= t < rest.len() implies crate::json::num_free(#[trigger] rest[t]) by {
            assert(rest[t] == elems[t + 1]);
        }
        assert(body == rep0 + seq![','] + rest_body);
        assert(body.push(']') =~= rep0 + (seq![','] + rest_body.push(']')));
        lemma_bytes_at_concat(b, i, rep0, seq![','] + rest_body.push(']'));
        lemma_bytes_at_concat(b, i + rep0.len(), seq![','], rest_body.push(']'));
        let k = i + rep0.len();
        assert(seq![','][0] == ',');
        assert(b[k + 0] == ',' as u8);
        lemma_value_print_parse(b, i, e0);
        assert(value_at(b, i) == Some((e0, k)));
        assert(i < k && k <= b.len());
        assert(!is_ws(b[k]));
        assert(ws_end(b, k) == k);
        assert(k < b.len());
        assert(b[k] == 44);
        lemma_arr_items_print_parse(b, k + 1, rest);
        assert(arr_items_at(b, k + 1) == Some((rest, k + 1 + rest_body.len() + 1)));
        assert(arr_items_at(b, i) == Some(
            (seq![e0] + rest, k + 1 + rest_body.len() + 1),
        ));
        assert(seq![e0] + rest =~= elems);
    }
}

/// A printed string key at `i`: parsing it consumes exactly its text,
/// and whatever follows it is spelled right after.
#[verifier::rlimit(100)]
proof fn lemma_obj_key_part(b: Seq<u8>, i: int, key: Seq<char>, rest_chars: Seq<char>)
    requires
        0 <= i,
        i + crate::json::str_rep(key).len() + rest_chars.len() <= b.len(),
        bytes_at(b, i, crate::json::str_rep(key) + rest_chars),
    ensures
        b[i] == 34,
        !is_ws(b[i]),
        string_at(b, i + 1) == Some((key, i + crate::json::str_rep(key).len())),
        bytes_at(b, i + crate::json::str_rep(key).len(), rest_chars),
{
    let keyrep = crate::json::str_rep(key);
    let key_body = crate::json::str_body_rep(key);
    lemma_bytes_at_concat(b, i, keyrep, rest_chars);
    assert(keyrep =~= seq!['"'] + key_body.push('"'));
    lemma_bytes_at_concat(b, i, seq!['"'], key_body.push('"'));
    assert(seq!['"'][0] == '"');
    assert(b[i + 0] == '"' as u8);
    lemma_string_print_parse(b, i + 1, key);
}

/// Parsing the printed members of a non-empty object consumes them and
/// the closing brace.
#[verifier::rlimit(100)]
proof fn lemma_obj_items_print_parse(b: Seq<u8>, i: int, members: Seq<(Seq<char>, JsonV)>)
    requires
        members.len() >= 1,
        forall|t: int|
            0 <= t < members.len() ==> crate::json::num_free((#[trigger] members[t]).1),
        0 <= i,
        i + crate::json::obj_body_rep(members).len() + 1 <= b.len(),
        bytes_at(b, i, crate::json::obj_body_rep(members).push('}')),
    ensures
        obj_items_at(b, i) == Some(
            (members, i + crate::json::obj_body_rep(members).len() + 1),
        ),
    decreases members, 2int,
{
    let key = members[0].0;
    let val = members[0].1;
    let keyrep = crate::json::str_rep(key);
    let valrep = crate::json::json_rep(val);
    let body = crate::json::obj_body_rep(members);
    let k = i + keyrep.len();
    let k2 = k + 1 + valrep.len();
    assert(crate::json::num_free(val));
    lemma_json_rep_first(val);
    if members.len() == 1 {
        assert(body == keyrep + seq![':'] + valrep);
        let tail = seq![':'] + (valrep + seq!['}']);
        assert(body.push('}') =~= keyrep + tail);
        lemma_obj_key_part(b, i, key, tail);
        assert(ws_end(b, i) == i);
        lemma_bytes_at_concat(b, k, seq![':'], valrep + seq!['}']);
        assert(seq![':'][0] == ':');
        assert(b[k + 0] == ':' as u8);
        assert(!is_ws(b[k]));
        assert(ws_end(b, k) == k);
        lemma_bytes_at_concat(b, k + 1, valrep, seq!['}']);
        assert(seq!['}'][0] == '}');
        assert(b[k + 1 + valrep.len() + 0] == '}' as u8);
        lemma_value_print_parse(b, k + 1, val);
        assert(value_at(b, k + 1) == Some((val, k2)));
        assert(!is_ws(b[k2]));
        assert(ws_end(b, k2) == k2);
        assert(k2 < b.len());
        assert(b[k2] == 125);
        assert(obj_items_at(b, i) == Some((seq![(key, val)], k2 + 1)));
        assert(seq![(key, val)] =~= members);
    } else {
        let rest = members.drop_first();
        let rest_body = crate::json::obj_body_rep(rest);
        assert forall|t: int|
            0 <= t < rest.len() implies crate::json::num_free((#[trigger] rest[t]).1) by {
            assert(rest[t] == members[t + 1]);
        }
        assert(body == keyrep + seq![':'] + valrep + seq![','] + rest_body);
        let tail = seq![':'] + (valrep + (seq![','] + rest_body.push('}')));
        assert(body.push('}') =~= keyrep + tail);
        lemma_obj_key_part(b, i, key, tail);
        assert(ws_end(b, i) == i);
        lemma_bytes_at_concat(b, k, seq![':'], valrep + (seq![','] + rest_body.push('}')));
        assert(seq![':'][0] == ':');
        assert(b[k + 0] == ':' as u8);
        assert(!is_ws(b[k]));
        assert(ws_end(b, k) == k);
        lemma_bytes_at_concat(b, k + 1, valrep, seq![','] + rest_body.push('}'));
        lemma_bytes_at_concat(b, k2, seq![','], rest_body.push('}'));
        assert(seq![','][0] == ',');
        assert(b[k2 + 0] == ',' as u8);
        lemma_value_print_parse(b, k + 1, val);
        assert(value_at(b, k + 1) == Some((val, k2)));
        assert(!is_ws(b[k2]));
        assert(ws_end(b, k2) == k2);
        assert(k2 < b.len());
        assert(b[k2] == 44);
        lemma_obj_items_print_parse(b, k2 + 1, rest);
        assert(obj_items_at(b, k2 + 1) == Some((rest, k2 + 1 + rest_body.len() + 1)));
        assert(obj_items_at(b, i) == Some(
            (seq![(key, val)] + rest, k2 + 1 + rest_body.len() + 1),
        ));
        assert(seq![(key, val)] + rest =~= members);
    }
}

/// The bytes that spell an ASCII text, one per character.
pub open spec fn ascii_bytes(cs: Seq<char>) -> Seq<u8> {
    Seq::new(
        cs.len(),
        |k: int|
            if 0 <= k < cs.len() {
                cs[k] as u8
            } else {
                0u8
            },
    )
}

/// Round trip of the whole codec: the text that `json_rep` writes for any
/// document without opaquely carried numbers — every document this
/// library's encoders write — reads back, through the grammar of this
/// module, as exactly that document.
pub proof fn lemma_print_parse_round_trip(v: JsonV)
    requires
        crate::json::num_free(v),
    ensures
        json_of(ascii_bytes(crate::json::json_rep(v))) == Some(v),
{
    let rep = crate::json::json_rep(v);
    let b = ascii_bytes(rep);
    assert(bytes_at(b, 0, rep));
    lemma_value_print_parse(b, 0, v);
    assert(ws_end(b, rep.len() as int) == rep.len());
}


proof fn lemma_esc_char_ascii(c: char)
    ensures
        forall|k: int|
            0 <= k < crate::json::esc_char(c).len() ==> ((#[trigger] crate::json::esc_char(c)[
                k
            ]) as int) < 0x80,
{
    let e = crate::json::esc_char(c);
    let u = c as int;
    if c == '"' || c == '\\' {
        assert(e[0] == '\\');
        assert(forall|k: int| 0 <= k < e.len() ==> ((#[trigger] e[k]) as int) < 0x80);
    } else if 0x20 <= u && u < 0x80 {
        assert(e =~= seq![c]);
        assert(forall|k: int| 0 <= k < e.len() ==> ((#[trigger] e[k]) as int) < 0x80);
    } else if u < 0x10000 {
        lemma_hex_digit_val(u / 4096 % 16);
        lemma_hex_digit_val(u / 256 % 16);
        lemma_hex_digit_val(u / 16 % 16);
        lemma_hex_digit_val(u % 16);
        assert(forall|k: int| 0 <= k < e.len() ==> ((#[trigger] e[k]) as int) < 0x80);
    } else {
        let rem = u - 0x10000;
        let hi = 0xd800 + rem / 0x400;
        let lo = 0xdc00 + rem % 0x400;
        lemma_hex_digit_val(hi / 4096 % 16);
        lemma_hex_digit_val(hi / 256 % 16);
        lemma_hex_digit_val(hi / 16 % 16);
        lemma_hex_digit_val(hi % 16);
        lemma_hex_digit_val(lo / 4096 % 16);
        lemma_hex_digit_val(lo / 256 % 16);
        lemma_hex_digit_val(lo / 16 % 16);
        lemma_hex_digit_val(lo % 16);
        assert(forall|k: int| 0 <= k < e.len() ==> ((#[trigger] e[k]) as int) < 0x80);
    }
}

proof fn lemma_str_body_ascii(cs: Seq<char>)
    ensures
        forall|k: int|
            0 <= k < crate::json::str_body_rep(cs).len() ==> ((
            #[trigger] crate::json::str_body_rep(cs)[k]) as int) < 0x80,
    decreases cs.len(),
{
    if cs.len() > 0 {
        lemma_esc_char_ascii(cs[0]);
        lemma_str_body_ascii(cs.drop_first());
        let e = crate::json::esc_char(cs[0]);
        let rest = crate::json::str_body_rep(cs.drop_first());
        assert forall|k: int|
            0 <= k < crate::json::str_body_rep(cs).len() implies ((
        #[trigger] crate::json::str_body_rep(cs)[k]) as int) < 0x80 by {
            if k < e.len() {
                assert((e + rest)[k] == e[k]);
            } else {
                assert((e + rest)[k] == rest[k - e.len()]);
            }
        }
    }
}

proof fn lemma_str_rep_ascii(cs: Seq<char>)
    ensures
        forall|k: int|
            0 <= k < crate::json::str_rep(cs).len() ==> ((#[trigger] crate::json::str_rep(cs)[
                k
            ]) as int) < 0x80,
{
    lemma_str_body_ascii(cs);
    let body = crate::json::str_body_rep(cs);
    assert forall|k: int|
        0 <= k < crate::json::str_rep(cs).len() implies ((#[trigger] crate::json::str_rep(cs)[
        k
    ]) as int) < 0x80 by {
        if k == 0 {
            assert(crate::json::str_rep(cs)[k] == '"');
        } else if k <= body.len() {
            assert(crate::json::str_rep(cs)[k] == body[k - 1]);
        } else {
            assert(crate::json::str_rep(cs)[k] == '"');
        }
    }
}

proof fn lemma_int_rep_ascii(n: int)
    ensures
        forall|k: int|
            0 <= k < crate::json::int_rep(n).len() ==> ((#[trigger] crate::json::int_rep(n)[
                k
            ]) as int) < 0x80,
{
    if n < 0 {
        lemma_dec_rep_digits(-n);
        let r = crate::json::dec_rep(-n);
        assert forall|k: int|
            0 <= k < crate::json::int_rep(n).len() implies ((#[trigger] crate::json::int_rep(n)[
            k
        ]) as int) < 0x80 by {
            if k == 0 {
                assert(crate::json::int_rep(n)[0] == '-');
            } else {
                assert((seq!['-'] + r)[k] == r[k - 1]);
            }
        }
    } else {
        lemma_dec_rep_digits(n);
    }
}

/// Every character the printer writes is ASCII: what is not printable
/// ASCII is escaped.
proof fn lemma_json_rep_ascii(v: JsonV)
    requires
        crate::json::num_free(v),
    ensures
        forall|k: int|
            0 <= k < crate::json::json_rep(v).len() ==> ((#[trigger] crate::json::json_rep(v)[
                k
            ]) as int) < 0x80,
    decreases v, 0int,
{
    let rep = crate::json::json_rep(v);
    match v {
        JsonV::Null => {
            assert(forall|k: int| 0 <= k < rep.len() ==> ((#[trigger] rep[k]) as int) < 0x80);
        },
        JsonV::Bool(t) => {
            assert(forall|k: int| 0 <= k < rep.len() ==> ((#[trigger] rep[k]) as int) < 0x80);
        },
        JsonV::Int(n) => {
            lemma_int_rep_ascii(n as int);
        },
        JsonV::Num(t) => {
            assert(false);
        },
        JsonV::Str(cs) => {
            lemma_str_rep_ascii(cs);
        },
        JsonV::Arr(a) => {
            lemma_arr_body_ascii(a);
            let body = crate::json::arr_body_rep(a);
            assert forall|k: int| 0 <= k < rep.len() implies ((#[trigger] rep[k]) as int)
                < 0x80 by {
                if k == 0 {
                    assert(rep[k] == '[');
                } else if k <= body.len() {
                    assert(rep[k] == body[k - 1]);
                } else {
                    assert(rep[k] == ']');
                }
            }
        },
        JsonV::Obj(m) => {
            lemma_obj_body_ascii(m);
            let body = crate::json::obj_body_rep(m);
            assert forall|k: int| 0 <= k < rep.len() implies ((#[trigger] rep[k]) as int)
                < 0x80 by {
                if k == 0 {
                    assert(rep[k] == '{');
                } else if k <= body.len() {
                    assert(rep[k] == body[k - 1]);
                } else {
                    assert(rep[k] == '}');
                }
            }
        },
    }
}

proof fn lemma_arr_body_ascii(a: Seq<JsonV>)
    requires
        forall|t: int| 0 <= t < a.len() ==> crate::json::num_free(#[trigger] a[t]),
    ensures
        forall|k: int|
            0 <= k < crate::json::arr_body_rep(a).len() ==> ((
            #[trigger] crate::json::arr_body_rep(a)[k]) as int) < 0x80,
    decreases a, 1int,
{
    if a.len() >= 1 {
        assert(crate::json::num_free(a[0]));
        lemma_json_rep_ascii(a[0]);
        let rep0 = crate::json::json_rep(a[0]);
        if a.len() == 1 {
        } else {
            assert forall|t: int|
                0 <= t < a.drop_first().len() implies crate::json::num_free(
                #[trigger] a.drop_first()[t]) by {
                assert(a.drop_first()[t] == a[t + 1]);
            }
            lemma_arr_body_ascii(a.drop_first());
            let rest = crate::json::arr_body_rep(a.drop_first());
            assert forall|k: int|
                0 <= k < crate::json::arr_body_rep(a).len() implies ((
            #[trigger] crate::json::arr_body_rep(a)[k]) as int) < 0x80 by {
                if k < rep0.len() {
                    assert((rep0 + seq![','] + rest)[k] == rep0[k]);
                } else if k == rep0.len() {
                    assert((rep0 + seq![','] + rest)[k] == ',');
                } else {
                    assert((rep0 + seq![','] + rest)[k] == rest[k - rep0.len() - 1]);
                }
            }
        }
    }
}

proof fn lemma_obj_body_ascii(m: Seq<(Seq<char>, JsonV)>)
    requires
        forall|t: int| 0 <= t < m.len() ==> crate::json::num_free((#[trigger] m[t]).1),
    ensures
        forall|k: int|
            0 <= k < crate::json::obj_body_rep(m).len() ==> ((
            #[trigger] crate::json::obj_body_rep(m)[k]) as int) < 0x80,
    decreases m, 1int,
{
    if m.len() >= 1 {
        assert(crate::json::num_free(m[0].1));
        lemma_json_rep_ascii(m[0].1);
        lemma_str_rep_ascii(m[0].0);
        let keyrep = crate::json::str_rep(m[0].0);
        let valrep = crate::json::json_rep(m[0].1);
        let head = keyrep + seq![':'] + valrep;
        assert forall|k: int| 0 <= k < head.len() implies ((#[trigger] head[k]) as int) < 0x80 by {
            if k < keyrep.len() {
                assert(head[k] == keyrep[k]);
            } else if k == keyrep.len() {
                assert(head[k] == ':');
            } else {
                assert(head[k] == valrep[k - keyrep.len() - 1]);
            }
        }
        if m.len() == 1 {
        } else {
            assert forall|t: int|
                0 <= t < m.drop_first().len() implies crate::json::num_free(
                (#[trigger] m.drop_first()[t]).1) by {
                assert(m.drop_first()[t] == m[t + 1]);
            }
            lemma_obj_body_ascii(m.drop_first());
            let rest = crate::json::obj_body_rep(m.drop_first());
            assert forall|k: int|
                0 <= k < crate::json::obj_body_rep(m).len() implies ((
            #[trigger] crate::json::obj_body_rep(m)[k]) as int) < 0x80 by {
                if k < head.len() {
                    assert((head + seq![','] + rest)[k] == head[k]);
                } else if k == head.len() {
                    assert((head + seq![','] + rest)[k] == ',');
                } else {
                    assert((head + seq![','] + rest)[k] == rest[k - head.len() - 1]);
                }
            }
        }
    }
}

proof fn lemma_char_at_least_nul(c: char)
    ensures
        '\0' <= c,
{
}

/// Round trip over the wire bytes: the UTF-8 text that `to_text` writes
/// for any document without opaquely carried numbers parses back as
/// exactly that document.
pub proof fn lemma_print_parse_utf8(v: JsonV)
    requires
        crate::json::num_free(v),
    ensures
        json_of(vstd::utf8::encode_utf8(crate::json::json_rep(v))) == Some(v),
{
    let rep = crate::json::json_rep(v);
    lemma_json_rep_ascii(v);
    assert forall|k: int| 0 <= k < rep.len() implies '\0' <= #[trigger] rep[k] <= '\u{7f}' by {
        assert((rep[k] as int) < 0x80);
        lemma_char_at_least_nul(rep[k]);
    }
    assert(vstd::utf8::is_ascii_chars(rep));
    vstd::utf8::is_ascii_chars_encode_utf8(rep);
    assert(vstd::utf8::encode_utf8(rep) =~= ascii_bytes(rep));
    lemma_print_parse_round_trip(v);
}

} // verus!
