use vstd::prelude::*;

verus! {

// Byte values of the JSON structural characters.
pub const QUOTE: u8 = 34;

pub const BACKSLASH: u8 = 92;

pub const LBRACE: u8 = 123;

pub const RBRACE: u8 = 125;

pub const LBRACK: u8 = 91;

pub const RBRACK: u8 = 93;

pub const COMMA: u8 = 44;

pub const COLON_B: u8 = 58;

pub const MINUS: u8 = 45;

/// JSON insignificant whitespace.
pub open spec fn is_ws(b: u8) -> bool {
    b == 32 || b == 9 || b == 10 || b == 13
}

/// A UTF-8 continuation byte.
pub open spec fn is_utf8_cont(b: u8) -> bool {
    128 <= b && b <= 191
}

/// The byte string is well-formed UTF-8 from position `i` on: ASCII, or a
/// 2-, 3- or 4-byte sequence with the leading-byte ranges that exclude
/// overlong encodings, surrogates and code points past U+10FFFF.
pub open spec fn spec_utf8_from(s: Seq<u8>, i: int) -> bool
    decreases s.len() - i,
{
    if i < 0 || i >= s.len() {
        true
    } else {
        let b = s[i];
        if b < 128 {
            spec_utf8_from(s, i + 1)
        } else if 194 <= b && b <= 223 {
            if i + 1 < s.len() {
                is_utf8_cont(s[i + 1]) && spec_utf8_from(s, i + 2)
            } else {
                false
            }
        } else if b == 224 {
            if i + 2 < s.len() {
                160 <= s[i + 1] && s[i + 1] <= 191 && is_utf8_cont(s[i + 2]) && spec_utf8_from(
                    s,
                    i + 3,
                )
            } else {
                false
            }
        } else if (225 <= b && b <= 236) || b == 238 || b == 239 {
            if i + 2 < s.len() {
                is_utf8_cont(s[i + 1]) && is_utf8_cont(s[i + 2]) && spec_utf8_from(s, i + 3)
            } else {
                false
            }
        } else if b == 237 {
            if i + 2 < s.len() {
                128 <= s[i + 1] && s[i + 1] <= 159 && is_utf8_cont(s[i + 2]) && spec_utf8_from(
                    s,
                    i + 3,
                )
            } else {
                false
            }
        } else if b == 240 {
            if i + 3 < s.len() {
                144 <= s[i + 1] && s[i + 1] <= 191 && is_utf8_cont(s[i + 2]) && is_utf8_cont(
                    s[i + 3],
                ) && spec_utf8_from(s, i + 4)
            } else {
                false
            }
        } else if 241 <= b && b <= 243 {
            if i + 3 < s.len() {
                is_utf8_cont(s[i + 1]) && is_utf8_cont(s[i + 2]) && is_utf8_cont(s[i + 3])
                    && spec_utf8_from(s, i + 4)
            } else {
                false
            }
        } else if b == 244 {
            if i + 3 < s.len() {
                128 <= s[i + 1] && s[i + 1] <= 143 && is_utf8_cont(s[i + 2]) && is_utf8_cont(
                    s[i + 3],
                ) && spec_utf8_from(s, i + 4)
            } else {
                false
            }
        } else {
            false
        }
    }
}

/// Checks that a byte string is well-formed UTF-8 from position `i` on.
pub fn utf8_from(s: &[u8], i: usize) -> (r: bool)
    requires
        i <= s@.len(),
    ensures
        r == spec_utf8_from(s@, i as int),
    decreases s@.len() - i,
{
    if i >= s.len() {
        return true;
    }
    let b = s[i];
    if b < 128 {
        utf8_from(s, i + 1)
    } else if 194 <= b && b <= 223 {
        if s.len() - i > 1 {
            let c1 = s[i + 1];
            128 <= c1 && c1 <= 191 && utf8_from(s, i + 2)
        } else {
            false
        }
    } else if b == 224 {
        if s.len() - i > 2 {
            let c1 = s[i + 1];
            let c2 = s[i + 2];
            160 <= c1 && c1 <= 191 && 128 <= c2 && c2 <= 191 && utf8_from(s, i + 3)
        } else {
            false
        }
    } else if (225 <= b && b <= 236) || b == 238 || b == 239 {
        if s.len() - i > 2 {
            let c1 = s[i + 1];
            let c2 = s[i + 2];
            128 <= c1 && c1 <= 191 && 128 <= c2 && c2 <= 191 && utf8_from(s, i + 3)
        } else {
            false
        }
    } else if b == 237 {
        if s.len() - i > 2 {
            let c1 = s[i + 1];
            let c2 = s[i + 2];
            128 <= c1 && c1 <= 159 && 128 <= c2 && c2 <= 191 && utf8_from(s, i + 3)
        } else {
            false
        }
    } else if b == 240 {
        if s.len() - i > 3 {
            let c1 = s[i + 1];
            let c2 = s[i + 2];
            let c3 = s[i + 3];
            144 <= c1 && c1 <= 191 && 128 <= c2 && c2 <= 191 && 128 <= c3 && c3 <= 191
                && utf8_from(s, i + 4)
        } else {
            false
        }
    } else if 241 <= b && b <= 243 {
        if s.len() - i > 3 {
            let c1 = s[i + 1];
            let c2 = s[i + 2];
            let c3 = s[i + 3];
            128 <= c1 && c1 <= 191 && 128 <= c2 && c2 <= 191 && 128 <= c3 && c3 <= 191
                && utf8_from(s, i + 4)
        } else {
            false
        }
    } else if b == 244 {
        if s.len() - i > 3 {
            let c1 = s[i + 1];
            let c2 = s[i + 2];
            let c3 = s[i + 3];
            128 <= c1 && c1 <= 143 && 128 <= c2 && c2 <= 191 && 128 <= c3 && c3 <= 191
                && utf8_from(s, i + 4)
        } else {
            false
        }
    } else {
        false
    }
}

/// A byte that may occur in a number token. The scan is lenient: token
/// shape beyond the leading byte is not checked.
pub open spec fn is_num_byte(b: u8) -> bool {
    (48 <= b && b <= 57) || b == MINUS || b == 43 || b == 46 || b == 101 || b == 69
}

/// A byte that may open a number token.
pub open spec fn is_num_start(b: u8) -> bool {
    (48 <= b && b <= 57) || b == MINUS
}

/// The first position at or after `i` that holds no whitespace.
pub open spec fn spec_skip_ws(s: Seq<u8>, i: int) -> int
    decreases s.len() - i,
{
    if 0 <= i < s.len() && is_ws(s[i]) {
        spec_skip_ws(s, i + 1)
    } else {
        i
    }
}

/// The end of a number token starting at or after `i`.
pub open spec fn spec_num_end(s: Seq<u8>, i: int) -> int
    decreases s.len() - i,
{
    if 0 <= i < s.len() && is_num_byte(s[i]) {
        spec_num_end(s, i + 1)
    } else {
        i
    }
}

/// A hex digit byte, either case.
pub open spec fn is_hex_digit(b: u8) -> bool {
    (48 <= b && b <= 57) || (97 <= b && b <= 102) || (65 <= b && b <= 70)
}

/// The value of a hex digit byte.
pub open spec fn spec_hex_val(b: u8) -> int {
    if 48 <= b && b <= 57 {
        b - 48
    } else if 97 <= b && b <= 102 {
        b - 87
    } else {
        b - 55
    }
}

/// The code unit spelled by four hex digits at `i`.
pub open spec fn spec_hex4(s: Seq<u8>, i: int) -> Option<int> {
    if 0 <= i && i + 4 <= s.len() && is_hex_digit(s[i]) && is_hex_digit(s[i + 1]) && is_hex_digit(
        s[i + 2],
    ) && is_hex_digit(s[i + 3]) {
        Some(
            spec_hex_val(s[i]) * 4096 + spec_hex_val(s[i + 1]) * 256 + spec_hex_val(s[i + 2]) * 16
                + spec_hex_val(s[i + 3]),
        )
    } else {
        None
    }
}

/// The UTF-8 encoding of a scalar value below 0x110000.
pub open spec fn spec_utf8_enc(cp: int) -> Seq<u8> {
    if cp < 0x80 {
        seq![cp as u8]
    } else if cp < 0x800 {
        seq![(192 + cp / 64) as u8, (128 + cp % 64) as u8]
    } else if cp < 0x10000 {
        seq![(224 + cp / 4096) as u8, (128 + (cp / 64) % 64) as u8, (128 + cp % 64) as u8]
    } else {
        seq![
            (240 + cp / 262144) as u8,
            (128 + (cp / 4096) % 64) as u8,
            (128 + (cp / 64) % 64) as u8,
            (128 + cp % 64) as u8,
        ]
    }
}

/// What a one-byte escape stands for; `None` for an escape the format does
/// not accept (`\u` is handled separately).
pub open spec fn spec_unescape(b: u8) -> Option<u8> {
    if b == QUOTE {
        Some(QUOTE)
    } else if b == BACKSLASH {
        Some(BACKSLASH)
    } else if b == 47 {
        Some(47u8)
    } else if b == 98 {
        Some(8u8)
    } else if b == 102 {
        Some(12u8)
    } else if b == 110 {
        Some(10u8)
    } else if b == 114 {
        Some(13u8)
    } else if b == 116 {
        Some(9u8)
    } else {
        None
    }
}

/// The body of a string literal from position `i` (just after the opening
/// quote): its unescaped bytes and the position after the closing quote.
pub open spec fn spec_string_body(s: Seq<u8>, i: int) -> Option<(Seq<u8>, int)>
    decreases s.len() - i, 1int,
{
    if i < 0 || i >= s.len() {
        None
    } else if s[i] == QUOTE {
        Some((Seq::empty(), i + 1))
    } else if s[i] == BACKSLASH {
        if s.len() - i > 1 {
            if s[i + 1] == 117 {
                spec_unicode_escape(s, i)
            } else {
                match spec_unescape(s[i + 1]) {
                    None => None,
                    Some(c) => match spec_string_body(s, i + 2) {
                        None => None,
                        Some((t, j)) => Some((seq![c] + t, j)),
                    },
                }
            }
        } else {
            None
        }
    } else {
        match spec_string_body(s, i + 1) {
            None => None,
            Some((t, j)) => Some((seq![s[i]] + t, j)),
        }
    }
}

/// A `\uXXXX` escape standing at the backslash `i`: its UTF-8 bytes and
/// the rest of the string. A high surrogate must be followed by a low one;
/// a lone surrogate is invalid.
pub open spec fn spec_unicode_escape(s: Seq<u8>, i: int) -> Option<(Seq<u8>, int)>
    decreases s.len() - i, 0int,
{
    match spec_hex4(s, i + 2) {
        None => None,
        Some(cu) => {
            if 0xD800 <= cu && cu <= 0xDBFF {
                if s.len() - i > 7 && s[i + 6] == BACKSLASH && s[i + 7] == 117 {
                    match spec_hex4(s, i + 8) {
                        None => None,
                        Some(lo) => {
                            if 0xDC00 <= lo && lo <= 0xDFFF {
                                match spec_string_body(s, i + 12) {
                                    None => None,
                                    Some((t, j)) => Some(
                                        (
                                            spec_utf8_enc(
                                                0x10000 + (cu - 0xD800) * 0x400 + (lo - 0xDC00),
                                            ) + t,
                                            j,
                                        ),
                                    ),
                                }
                            } else {
                                None
                            }
                        },
                    }
                } else {
                    None
                }
            } else if 0xDC00 <= cu && cu <= 0xDFFF {
                None
            } else {
                match spec_string_body(s, i + 6) {
                    None => None,
                    Some((t, j)) => Some((spec_utf8_enc(cu) + t, j)),
                }
            }
        },
    }
}

/// Skips whitespace.
pub fn skip_ws(s: &[u8], i: usize) -> (r: usize)
    requires
        i <= s@.len(),
    ensures
        r == spec_skip_ws(s@, i as int),
        i <= r <= s@.len(),
    decreases s@.len() - i,
{
    if i < s.len() {
        let b = s[i];
        if b == 32 || b == 9 || b == 10 || b == 13 {
            return skip_ws(s, i + 1);
        }
    }
    i
}

/// Scans a number token.
pub fn num_end(s: &[u8], i: usize) -> (r: usize)
    requires
        i <= s@.len(),
    ensures
        r == spec_num_end(s@, i as int),
        i <= r <= s@.len(),
    decreases s@.len() - i,
{
    if i < s.len() {
        let b = s[i];
        if (48 <= b && b <= 57) || b == MINUS || b == 43 || b == 46 || b == 101 || b == 69 {
            return num_end(s, i + 1);
        }
    }
    i
}

/// Reads the four hex digits of an escape.
fn hex4(s: &[u8], i: usize) -> (r: Option<u32>)
    requires
        i <= s@.len(),
    ensures
        match r {
            Some(v) => spec_hex4(s@, i as int) == Some(v as int) && v < 65536 && i + 4 <= s@.len(),
            None => spec_hex4(s@, i as int) is None,
        },
{
    if s.len() - i < 4 {
        return None;
    }
    let d0 = hex_val(s[i]);
    let d1 = hex_val(s[i + 1]);
    let d2 = hex_val(s[i + 2]);
    let d3 = hex_val(s[i + 3]);
    match (d0, d1, d2, d3) {
        (Some(v0), Some(v1), Some(v2), Some(v3)) => Some(v0 * 4096 + v1 * 256 + v2 * 16 + v3),
        _ => None,
    }
}

/// The value of one hex digit byte.
fn hex_val(b: u8) -> (r: Option<u32>)
    ensures
        match r {
            Some(v) => is_hex_digit(b) && v == spec_hex_val(b) && v < 16,
            None => !is_hex_digit(b),
        },
{
    if 48 <= b && b <= 57 {
        Some((b - 48) as u32)
    } else if 97 <= b && b <= 102 {
        Some((b - 87) as u32)
    } else if 65 <= b && b <= 70 {
        Some((b - 55) as u32)
    } else {
        None
    }
}

/// Encodes a scalar value as UTF-8 bytes.
fn utf8_enc_bytes(cp: u32) -> (r: Vec<u8>)
    requires
        cp < 0x110000,
    ensures
        r@ == spec_utf8_enc(cp as int),
{
    let mut out: Vec<u8> = Vec::new();
    if cp < 0x80 {
        out.push(cp as u8);
    } else if cp < 0x800 {
        out.push((192 + cp / 64) as u8);
        out.push((128 + cp % 64) as u8);
    } else if cp < 0x10000 {
        out.push((224 + cp / 4096) as u8);
        out.push((128 + (cp / 64) % 64) as u8);
        out.push((128 + cp % 64) as u8);
    } else {
        out.push((240 + cp / 262144) as u8);
        out.push((128 + (cp / 4096) % 64) as u8);
        out.push((128 + (cp / 64) % 64) as u8);
        out.push((128 + cp % 64) as u8);
    }
    proof {
        assert(out@ =~= spec_utf8_enc(cp as int));
    }
    out
}

/// Reads a `\uXXXX` escape standing at the backslash `i`.
fn unicode_escape(s: &[u8], i: usize) -> (r: Option<(Vec<u8>, usize)>)
    requires
        i < s@.len(),
    ensures
        match r {
            Some((t, j)) => spec_unicode_escape(s@, i as int) == Some((t@, j as int)) && i < j
                <= s@.len(),
            None => spec_unicode_escape(s@, i as int) is None,
        },
    decreases s@.len() - i, 0int,
{
    if s.len() - i < 6 {
        return None;
    }
    let cu = match hex4(s, i + 2) {
        None => {
            return None;
        },
        Some(v) => v,
    };
    if 0xD800 <= cu && cu <= 0xDBFF {
        if s.len() - i > 7 && s[i + 6] == BACKSLASH && s[i + 7] == 117 {
            let lo = match hex4(s, i + 8) {
                None => {
                    return None;
                },
                Some(v) => v,
            };
            if 0xDC00 <= lo && lo <= 0xDFFF {
                match string_body(s, i + 12) {
                    None => None,
                    Some((t, j)) => {
                        let cp = 0x10000 + (cu - 0xD800) * 0x400 + (lo - 0xDC00);
                        let mut out = utf8_enc_bytes(cp);
                        crate::bytes::push_bytes(&mut out, t.as_slice());
                        Some((out, j))
                    },
                }
            } else {
                None
            }
        } else {
            None
        }
    } else if 0xDC00 <= cu && cu <= 0xDFFF {
        None
    } else {
        match string_body(s, i + 6) {
            None => None,
            Some((t, j)) => {
                let mut out = utf8_enc_bytes(cu);
                crate::bytes::push_bytes(&mut out, t.as_slice());
                Some((out, j))
            },
        }
    }
}

/// Reads a string literal body, unescaping as it goes.
pub fn string_body(s: &[u8], i: usize) -> (r: Option<(Vec<u8>, usize)>)
    requires
        i <= s@.len(),
    ensures
        match r {
            Some((t, j)) => spec_string_body(s@, i as int) == Some((t@, j as int)) && i < j
                <= s@.len(),
            None => spec_string_body(s@, i as int) is None,
        },
    decreases s@.len() - i, 1int,
{
    if i >= s.len() {
        return None;
    }
    let b = s[i];
    if b == QUOTE {
        return Some((Vec::new(), i + 1));
    }
    if b == BACKSLASH {
        if s.len() - i > 1 {
            let e = s[i + 1];
            if e == 117 {
                return unicode_escape(s, i);
            }
            let c: u8;
            if e == QUOTE {
                c = QUOTE;
            } else if e == BACKSLASH {
                c = BACKSLASH;
            } else if e == 47 {
                c = 47;
            } else if e == 98 {
                c = 8;
            } else if e == 102 {
                c = 12;
            } else if e == 110 {
                c = 10;
            } else if e == 114 {
                c = 13;
            } else if e == 116 {
                c = 9;
            } else {
                return None;
            }
            match string_body(s, i + 2) {
                None => None,
                Some((t, j)) => {
                    let mut out: Vec<u8> = Vec::new();
                    out.push(c);
                    crate::bytes::push_bytes(&mut out, t.as_slice());
                    proof {
                        assert(out@ =~= seq![c] + t@);
                    }
                    Some((out, j))
                },
            }
        } else {
            None
        }
    } else {
        match string_body(s, i + 1) {
            None => None,
            Some((t, j)) => {
                let mut out: Vec<u8> = Vec::new();
                out.push(b);
                crate::bytes::push_bytes(&mut out, t.as_slice());
                proof {
                    assert(out@ =~= seq![b] + t@);
                }
                Some((out, j))
            },
        }
    }
}

/// The position after the literal `lit` when it stands at `i`.
pub open spec fn spec_literal_end(s: Seq<u8>, i: int, lit: Seq<u8>) -> Option<int> {
    if i + lit.len() <= s.len() && s.subrange(i, i + lit.len()) == lit {
        Some(i + lit.len())
    } else {
        None
    }
}

/// The literal bytes of `true`.
pub open spec fn lit_true() -> Seq<u8> {
    seq![116u8, 114u8, 117u8, 101u8]
}

/// The literal bytes of `false`.
pub open spec fn lit_false() -> Seq<u8> {
    seq![102u8, 97u8, 108u8, 115u8, 101u8]
}

/// The literal bytes of `null`.
pub open spec fn lit_null() -> Seq<u8> {
    seq![110u8, 117u8, 108u8, 108u8]
}

/// The position after one JSON value standing at `i`, or `None` when no
/// value stands there. `fuel` bounds the recursion depth; parsing starts
/// with more fuel than any well-formed input can consume.
pub open spec fn spec_skip_value(s: Seq<u8>, i: int, fuel: nat) -> Option<int>
    decreases fuel,
{
    if fuel == 0 || i < 0 || i >= s.len() {
        None
    } else if s[i] == QUOTE {
        match spec_string_body(s, i + 1) {
            None => None,
            Some((_t, j)) => Some(j),
        }
    } else if s[i] == LBRACE {
        let j = spec_skip_ws(s, i + 1);
        if j < s.len() && s[j] == RBRACE {
            Some(j + 1)
        } else {
            spec_skip_members(s, j, (fuel - 1) as nat)
        }
    } else if s[i] == LBRACK {
        let j = spec_skip_ws(s, i + 1);
        if j < s.len() && s[j] == RBRACK {
            Some(j + 1)
        } else {
            spec_skip_items(s, j, (fuel - 1) as nat)
        }
    } else if is_num_start(s[i]) {
        Some(spec_num_end(s, i))
    } else if s[i] == 116 {
        spec_literal_end(s, i, lit_true())
    } else if s[i] == 102 {
        spec_literal_end(s, i, lit_false())
    } else if s[i] == 110 {
        spec_literal_end(s, i, lit_null())
    } else {
        None
    }
}

/// The position after the remaining members of an object, starting at a key
/// quote, up to and including the closing brace.
pub open spec fn spec_skip_members(s: Seq<u8>, i: int, fuel: nat) -> Option<int>
    decreases fuel,
{
    if fuel == 0 || i < 0 || i >= s.len() || s[i] != QUOTE {
        None
    } else {
        match spec_string_body(s, i + 1) {
            None => None,
            Some((_k, j)) => {
                let k = spec_skip_ws(s, j);
                if k >= s.len() || s[k] != COLON_B {
                    None
                } else {
                    let v = spec_skip_ws(s, k + 1);
                    match spec_skip_value(s, v, (fuel - 1) as nat) {
                        None => None,
                        Some(e) => {
                            let t = spec_skip_ws(s, e);
                            if t < s.len() && s[t] == COMMA {
                                spec_skip_members(s, spec_skip_ws(s, t + 1), (fuel - 1) as nat)
                            } else if t < s.len() && s[t] == RBRACE {
                                Some(t + 1)
                            } else {
                                None
                            }
                        },
                    }
                }
            },
        }
    }
}

/// The position after the remaining items of an array, starting at a value,
/// up to and including the closing bracket.
pub open spec fn spec_skip_items(s: Seq<u8>, i: int, fuel: nat) -> Option<int>
    decreases fuel,
{
    if fuel == 0 {
        None
    } else {
        match spec_skip_value(s, i, (fuel - 1) as nat) {
            None => None,
            Some(e) => {
                let t = spec_skip_ws(s, e);
                if t < s.len() && s[t] == COMMA {
                    spec_skip_items(s, spec_skip_ws(s, t + 1), (fuel - 1) as nat)
                } else if t < s.len() && s[t] == RBRACK {
                    Some(t + 1)
                } else {
                    None
                }
            },
        }
    }
}

/// Matches a keyword literal.
fn literal_end(s: &[u8], i: usize, lit: &[u8]) -> (r: Option<usize>)
    requires
        i <= s@.len(),
    ensures
        match r {
            Some(j) => spec_literal_end(s@, i as int, lit@) == Some(j as int) && i <= j
                <= s@.len(),
            None => spec_literal_end(s@, i as int, lit@) is None,
        },
{
    let sl = s.len();
    if lit.len() > sl - i {
        return None;
    }
    let n = lit.len();
    let mut k: usize = 0;
    while k < n
        invariant
            n == lit@.len(),
            sl == s@.len(),
            i + n <= sl,
            k <= n,
            forall|m: int| 0 <= m < k ==> s@[i + m] == lit@[m],
        decreases n - k,
    {
        if s[i + k] != lit[k] {
            proof {
                assert(s@.subrange(i as int, i + lit@.len())[k as int] == s@[i + k]);
            }
            return None;
        }
        k = k + 1;
    }
    proof {
        assert(s@.subrange(i as int, i + lit@.len()) =~= lit@);
    }
    Some(i + n)
}

/// Builds the bytes of `true`.
fn bytes_true() -> (r: Vec<u8>)
    ensures
        r@ == lit_true(),
{
    let mut v: Vec<u8> = Vec::new();
    v.push(116);
    v.push(114);
    v.push(117);
    v.push(101);
    proof {
        assert(v@ =~= lit_true());
    }
    v
}

/// Builds the bytes of `false`.
fn bytes_false() -> (r: Vec<u8>)
    ensures
        r@ == lit_false(),
{
    let mut v: Vec<u8> = Vec::new();
    v.push(102);
    v.push(97);
    v.push(108);
    v.push(115);
    v.push(101);
    proof {
        assert(v@ =~= lit_false());
    }
    v
}

/// Builds the bytes of `null`.
fn bytes_null() -> (r: Vec<u8>)
    ensures
        r@ == lit_null(),
{
    let mut v: Vec<u8> = Vec::new();
    v.push(110);
    v.push(117);
    v.push(108);
    v.push(108);
    proof {
        assert(v@ =~= lit_null());
    }
    v
}

/// Skips one JSON value.
pub fn skip_value(s: &[u8], i: usize, fuel: usize) -> (r: Option<usize>)
    requires
        i <= s@.len(),
    ensures
        match r {
            Some(j) => spec_skip_value(s@, i as int, fuel as nat) == Some(j as int) && j
                <= s@.len(),
            None => spec_skip_value(s@, i as int, fuel as nat) is None,
        },
    decreases fuel,
{
    if fuel == 0 || i >= s.len() {
        return None;
    }
    let b = s[i];
    if b == QUOTE {
        match string_body(s, i + 1) {
            None => None,
            Some((_t, j)) => Some(j),
        }
    } else if b == LBRACE {
        let j = skip_ws(s, i + 1);
        if j < s.len() && s[j] == RBRACE {
            Some(j + 1)
        } else {
            skip_members(s, j, fuel - 1)
        }
    } else if b == LBRACK {
        let j = skip_ws(s, i + 1);
        if j < s.len() && s[j] == RBRACK {
            Some(j + 1)
        } else {
            skip_items(s, j, fuel - 1)
        }
    } else if (48 <= b && b <= 57) || b == MINUS {
        Some(num_end(s, i))
    } else if b == 116 {
        let lit = bytes_true();
        literal_end(s, i, lit.as_slice())
    } else if b == 102 {
        let lit = bytes_false();
        literal_end(s, i, lit.as_slice())
    } else if b == 110 {
        let lit = bytes_null();
        literal_end(s, i, lit.as_slice())
    } else {
        None
    }
}

/// Skips the remaining members of an object.
pub fn skip_members(s: &[u8], i: usize, fuel: usize) -> (r: Option<usize>)
    requires
        i <= s@.len(),
    ensures
        match r {
            Some(j) => spec_skip_members(s@, i as int, fuel as nat) == Some(j as int) && j
                <= s@.len(),
            None => spec_skip_members(s@, i as int, fuel as nat) is None,
        },
    decreases fuel,
{
    if fuel == 0 || i >= s.len() {
        return None;
    }
    if s[i] != QUOTE {
        return None;
    }
    match string_body(s, i + 1) {
        None => None,
        Some((_k, j)) => {
            let k = skip_ws(s, j);
            if k >= s.len() {
                return None;
            }
            if s[k] != COLON_B {
                return None;
            }
            let v = skip_ws(s, k + 1);
            match skip_value(s, v, fuel - 1) {
                None => None,
                Some(e) => {
                    let t = skip_ws(s, e);
                    if t < s.len() && s[t] == COMMA {
                        let n = skip_ws(s, t + 1);
                        skip_members(s, n, fuel - 1)
                    } else if t < s.len() && s[t] == RBRACE {
                        Some(t + 1)
                    } else {
                        None
                    }
                },
            }
        },
    }
}

/// Skips the remaining items of an array.
pub fn skip_items(s: &[u8], i: usize, fuel: usize) -> (r: Option<usize>)
    requires
        i <= s@.len(),
    ensures
        match r {
            Some(j) => spec_skip_items(s@, i as int, fuel as nat) == Some(j as int) && j
                <= s@.len(),
            None => spec_skip_items(s@, i as int, fuel as nat) is None,
        },
    decreases fuel,
{
    if fuel == 0 {
        return None;
    }
    match skip_value(s, i, fuel - 1) {
        None => None,
        Some(e) => {
            let t = skip_ws(s, e);
            if t < s.len() && s[t] == COMMA {
                let n = skip_ws(s, t + 1);
                skip_items(s, n, fuel - 1)
            } else if t < s.len() && s[t] == RBRACK {
                Some(t + 1)
            } else {
                None
            }
        },
    }
}

/// The bytes of the key `digest`.
pub open spec fn key_digest() -> Seq<u8> {
    seq![100u8, 105u8, 103u8, 101u8, 115u8, 116u8]
}

/// The bytes of the key `schemaVersion`.
pub open spec fn key_schema_version() -> Seq<u8> {
    seq![
        115u8,
        99u8,
        104u8,
        101u8,
        109u8,
        97u8,
        86u8,
        101u8,
        114u8,
        115u8,
        105u8,
        111u8,
        110u8,
    ]
}

/// The bytes of the key `config`.
pub open spec fn key_config() -> Seq<u8> {
    seq![99u8, 111u8, 110u8, 102u8, 105u8, 103u8]
}

/// The bytes of the key `layers`.
pub open spec fn key_layers() -> Seq<u8> {
    seq![108u8, 97u8, 121u8, 101u8, 114u8, 115u8]
}

/// The bytes of the key `manifests`.
pub open spec fn key_manifests() -> Seq<u8> {
    seq![109u8, 97u8, 110u8, 105u8, 102u8, 101u8, 115u8, 116u8, 115u8]
}

/// The members of a descriptor object from a key position: tracks the value
/// of its `digest` member and ends after the closing brace.
pub open spec fn spec_descriptor_members(
    s: Seq<u8>,
    i: int,
    dig: Option<Seq<u8>>,
    fuel: nat,
) -> Option<(Option<Seq<u8>>, int)>
    decreases fuel, 1int,
{
    if fuel == 0 || i < 0 || i >= s.len() || s[i] != QUOTE {
        None
    } else {
        match spec_string_body(s, i + 1) {
            None => None,
            Some((key, j)) => {
                let k = spec_skip_ws(s, j);
                if k >= s.len() || s[k] != COLON_B {
                    None
                } else {
                    let v = spec_skip_ws(s, k + 1);
                    if key == key_digest() {
                        if v < s.len() && s[v] == QUOTE {
                            match spec_string_body(s, v + 1) {
                                None => None,
                                Some((d, e)) => spec_descriptor_tail(s, e, Some(d), fuel),
                            }
                        } else {
                            None
                        }
                    } else {
                        match spec_skip_value(s, v, (fuel - 1) as nat) {
                            None => None,
                            Some(e) => spec_descriptor_tail(s, e, dig, fuel),
                        }
                    }
                }
            },
        }
    }
}

/// After one descriptor member: a comma continues the object, a brace ends
/// it.
pub open spec fn spec_descriptor_tail(
    s: Seq<u8>,
    e: int,
    dig: Option<Seq<u8>>,
    fuel: nat,
) -> Option<(Option<Seq<u8>>, int)>
    decreases fuel, 0int,
{
    if fuel == 0 {
        None
    } else {
        let t = spec_skip_ws(s, e);
        if t < s.len() && s[t] == COMMA {
            spec_descriptor_members(s, spec_skip_ws(s, t + 1), dig, (fuel - 1) as nat)
        } else if t < s.len() && s[t] == RBRACE {
            Some((dig, t + 1))
        } else {
            None
        }
    }
}

/// One descriptor object standing at `i`: the value of its `digest` member
/// and the position after it. A descriptor without a digest is invalid.
pub open spec fn spec_parse_descriptor(s: Seq<u8>, i: int, fuel: nat) -> Option<(Seq<u8>, int)> {
    if i < 0 || i >= s.len() || s[i] != LBRACE {
        None
    } else {
        let j = spec_skip_ws(s, i + 1);
        if j < s.len() && s[j] == RBRACE {
            None
        } else {
            match spec_descriptor_members(s, j, None, fuel) {
                None => None,
                Some((None, _e)) => None,
                Some((Some(d), e)) => Some((d, e)),
            }
        }
    }
}

/// The remaining descriptors of an array, from a value position.
pub open spec fn spec_descriptor_items(
    s: Seq<u8>,
    i: int,
    acc: Seq<Seq<u8>>,
    fuel: nat,
) -> Option<(Seq<Seq<u8>>, int)>
    decreases fuel,
{
    if fuel == 0 {
        None
    } else {
        match spec_parse_descriptor(s, i, (fuel - 1) as nat) {
            None => None,
            Some((d, e)) => {
                let t = spec_skip_ws(s, e);
                if t < s.len() && s[t] == COMMA {
                    spec_descriptor_items(s, spec_skip_ws(s, t + 1), acc.push(d), (fuel - 1) as nat)
                } else if t < s.len() && s[t] == RBRACK {
                    Some((acc.push(d), t + 1))
                } else {
                    None
                }
            },
        }
    }
}

/// An array of descriptors standing at `i`: their digest values in order.
pub open spec fn spec_descriptor_list(s: Seq<u8>, i: int, fuel: nat) -> Option<(Seq<Seq<u8>>, int)> {
    if i < 0 || i >= s.len() || s[i] != LBRACK {
        None
    } else {
        let j = spec_skip_ws(s, i + 1);
        if j < s.len() && s[j] == RBRACK {
            Some((Seq::empty(), j + 1))
        } else {
            spec_descriptor_items(s, j, Seq::empty(), fuel)
        }
    }
}

/// What a walk over the top-level members accumulates.
pub struct ManifestAcc {
    pub schema_two: bool,
    pub config: Option<Seq<u8>>,
    pub layers: Option<Seq<Seq<u8>>>,
    pub children: Option<Seq<Seq<u8>>>,
}

/// The top-level members of a manifest from a key position.
pub open spec fn spec_manifest_members(
    s: Seq<u8>,
    i: int,
    acc: ManifestAcc,
    fuel: nat,
) -> Option<(ManifestAcc, int)>
    decreases fuel, 1int,
{
    if fuel == 0 || i < 0 || i >= s.len() || s[i] != QUOTE {
        None
    } else {
        match spec_string_body(s, i + 1) {
            None => None,
            Some((key, j)) => {
                let k = spec_skip_ws(s, j);
                if k >= s.len() || s[k] != COLON_B {
                    None
                } else {
                    let v = spec_skip_ws(s, k + 1);
                    if key == key_schema_version() {
                        if v < s.len() && is_num_start(s[v]) {
                            let e = spec_num_end(s, v);
                            spec_manifest_tail(
                                s,
                                e,
                                ManifestAcc { schema_two: s.subrange(v, e) == seq![50u8], ..acc },
                                fuel,
                            )
                        } else {
                            None
                        }
                    } else if key == key_config() {
                        match spec_parse_descriptor(s, v, (fuel - 1) as nat) {
                            None => None,
                            Some((d, e)) => spec_manifest_tail(
                                s,
                                e,
                                ManifestAcc { config: Some(d), ..acc },
                                fuel,
                            ),
                        }
                    } else if key == key_layers() {
                        match spec_descriptor_list(s, v, (fuel - 1) as nat) {
                            None => None,
                            Some((ls, e)) => spec_manifest_tail(
                                s,
                                e,
                                ManifestAcc { layers: Some(ls), ..acc },
                                fuel,
                            ),
                        }
                    } else if key == key_manifests() {
                        match spec_descriptor_list(s, v, (fuel - 1) as nat) {
                            None => None,
                            Some((ls, e)) => spec_manifest_tail(
                                s,
                                e,
                                ManifestAcc { children: Some(ls), ..acc },
                                fuel,
                            ),
                        }
                    } else {
                        match spec_skip_value(s, v, (fuel - 1) as nat) {
                            None => None,
                            Some(e) => spec_manifest_tail(s, e, acc, fuel),
                        }
                    }
                }
            },
        }
    }
}

/// After one top-level member: a comma continues the object, a brace ends
/// it.
pub open spec fn spec_manifest_tail(s: Seq<u8>, e: int, acc: ManifestAcc, fuel: nat) -> Option<
    (ManifestAcc, int),
>
    decreases fuel, 0int,
{
    if fuel == 0 {
        None
    } else {
        let t = spec_skip_ws(s, e);
        if t < s.len() && s[t] == COMMA {
            spec_manifest_members(s, spec_skip_ws(s, t + 1), acc, (fuel - 1) as nat)
        } else if t < s.len() && s[t] == RBRACE {
            Some((acc, t + 1))
        } else {
            None
        }
    }
}

/// What a recognized manifest says: whether it is an index, and the digest
/// strings it references (the config first, then the layers, for an image
/// manifest; the child manifests for an index).
pub struct ManifestModel {
    pub is_index: bool,
    pub refs: Seq<Seq<u8>>,
}

/// The accumulated members read as a schema.
///
/// A recognized manifest declares `schemaVersion` 2 and carries either a
/// `manifests` list (an index) or both a `config` and a `layers` list (an
/// image manifest).
pub open spec fn spec_interpret(acc: ManifestAcc) -> Option<ManifestModel> {
    if !acc.schema_two {
        None
    } else {
        match acc.children {
            Some(c) => Some(ManifestModel { is_index: true, refs: c }),
            None => match (acc.config, acc.layers) {
                (Some(cd), Some(ls)) => Some(
                    ManifestModel { is_index: false, refs: seq![cd] + ls },
                ),
                _ => None,
            },
        }
    }
}

/// The recursion budget the parser starts with.
pub open spec fn spec_manifest_fuel(s: Seq<u8>) -> nat {
    s.len()
}

/// The manifest a byte string holds, when it is well-formed UTF-8 and
/// valid JSON of a recognized schema with nothing but whitespace after the
/// closing brace.
pub open spec fn spec_parse_manifest(s: Seq<u8>) -> Option<ManifestModel> {
    if !spec_utf8_from(s, 0) {
        None
    } else {
        spec_parse_manifest_json(s)
    }
}

/// The manifest a UTF-8 byte string holds as JSON.
pub open spec fn spec_parse_manifest_json(s: Seq<u8>) -> Option<ManifestModel> {
    let i = spec_skip_ws(s, 0);
    if i >= s.len() || s[i] != LBRACE {
        None
    } else {
        let j = spec_skip_ws(s, i + 1);
        if j < s.len() && s[j] == RBRACE {
            None
        } else {
            match spec_manifest_members(
                s,
                j,
                ManifestAcc { schema_two: false, config: None, layers: None, children: None },
                spec_manifest_fuel(s),
            ) {
                None => None,
                Some((acc, e)) => {
                    if spec_skip_ws(s, e) == s.len() {
                        spec_interpret(acc)
                    } else {
                        None
                    }
                },
            }
        }
    }
}

/// The view of an optional byte vector.
pub open spec fn opt_view(o: Option<Vec<u8>>) -> Option<Seq<u8>> {
    match o {
        Some(v) => Some(v@),
        None => None,
    }
}

/// The deep view of a sequence of byte vectors.
pub open spec fn deep(v: Seq<Vec<u8>>) -> Seq<Seq<u8>> {
    v.map_values(|x: Vec<u8>| x@)
}

/// The deep view of an optional list of byte vectors.
pub open spec fn opt_deep(o: Option<Vec<Vec<u8>>>) -> Option<Seq<Seq<u8>>> {
    match o {
        Some(v) => Some(deep(v@)),
        None => None,
    }
}

/// What the walk over the top-level members has gathered so far.
pub struct ManifestAccExec {
    pub schema_two: bool,
    pub config: Option<Vec<u8>>,
    pub layers: Option<Vec<Vec<u8>>>,
    pub children: Option<Vec<Vec<u8>>>,
}

/// The model of an accumulator.
pub open spec fn acc_view(a: ManifestAccExec) -> ManifestAcc {
    ManifestAcc {
        schema_two: a.schema_two,
        config: opt_view(a.config),
        layers: opt_deep(a.layers),
        children: opt_deep(a.children),
    }
}

/// Builds the bytes of the key `digest`.
fn key_digest_bytes() -> (r: Vec<u8>)
    ensures
        r@ == key_digest(),
{
    let mut v: Vec<u8> = Vec::new();
    v.push(100);
    v.push(105);
    v.push(103);
    v.push(101);
    v.push(115);
    v.push(116);
    proof {
        assert(v@ =~= key_digest());
    }
    v
}

/// Builds the bytes of the key `schemaVersion`.
fn key_schema_version_bytes() -> (r: Vec<u8>)
    ensures
        r@ == key_schema_version(),
{
    let mut v: Vec<u8> = Vec::new();
    v.push(115);
    v.push(99);
    v.push(104);
    v.push(101);
    v.push(109);
    v.push(97);
    v.push(86);
    v.push(101);
    v.push(114);
    v.push(115);
    v.push(105);
    v.push(111);
    v.push(110);
    proof {
        assert(v@ =~= key_schema_version());
    }
    v
}

/// Builds the bytes of the key `config`.
fn key_config_bytes() -> (r: Vec<u8>)
    ensures
        r@ == key_config(),
{
    let mut v: Vec<u8> = Vec::new();
    v.push(99);
    v.push(111);
    v.push(110);
    v.push(102);
    v.push(105);
    v.push(103);
    proof {
        assert(v@ =~= key_config());
    }
    v
}

/// Builds the bytes of the key `layers`.
fn key_layers_bytes() -> (r: Vec<u8>)
    ensures
        r@ == key_layers(),
{
    let mut v: Vec<u8> = Vec::new();
    v.push(108);
    v.push(97);
    v.push(121);
    v.push(101);
    v.push(114);
    v.push(115);
    proof {
        assert(v@ =~= key_layers());
    }
    v
}

/// Builds the bytes of the key `manifests`.
fn key_manifests_bytes() -> (r: Vec<u8>)
    ensures
        r@ == key_manifests(),
{
    let mut v: Vec<u8> = Vec::new();
    v.push(109);
    v.push(97);
    v.push(110);
    v.push(105);
    v.push(102);
    v.push(101);
    v.push(115);
    v.push(116);
    v.push(115);
    proof {
        assert(v@ =~= key_manifests());
    }
    v
}

/// Walks the members of a descriptor object.
fn descriptor_members(s: &[u8], i: usize, dig: Option<Vec<u8>>, fuel: usize) -> (r: Option<
    (Option<Vec<u8>>, usize),
>)
    requires
        i <= s@.len(),
    ensures
        match r {
            Some((d, j)) => spec_descriptor_members(s@, i as int, opt_view(dig), fuel as nat)
                == Some((opt_view(d), j as int)) && j <= s@.len(),
            None => spec_descriptor_members(s@, i as int, opt_view(dig), fuel as nat) is None,
        },
    decreases fuel, 1int,
{
    if fuel == 0 || i >= s.len() {
        return None;
    }
    if s[i] != QUOTE {
        return None;
    }
    match string_body(s, i + 1) {
        None => None,
        Some((key, j)) => {
            let k = skip_ws(s, j);
            if k >= s.len() {
                return None;
            }
            if s[k] != COLON_B {
                return None;
            }
            let v = skip_ws(s, k + 1);
            let kd = key_digest_bytes();
            if crate::bytes::bytes_eq(key.as_slice(), kd.as_slice()) {
                if v < s.len() && s[v] == QUOTE {
                    match string_body(s, v + 1) {
                        None => None,
                        Some((d, e)) => descriptor_tail(s, e, Some(d), fuel),
                    }
                } else {
                    None
                }
            } else {
                match skip_value(s, v, fuel - 1) {
                    None => None,
                    Some(e) => descriptor_tail(s, e, dig, fuel),
                }
            }
        },
    }
}

/// Continues a descriptor object after one member.
fn descriptor_tail(s: &[u8], e: usize, dig: Option<Vec<u8>>, fuel: usize) -> (r: Option<
    (Option<Vec<u8>>, usize),
>)
    requires
        e <= s@.len(),
    ensures
        match r {
            Some((d, j)) => spec_descriptor_tail(s@, e as int, opt_view(dig), fuel as nat) == Some(
                (opt_view(d), j as int),
            ) && j <= s@.len(),
            None => spec_descriptor_tail(s@, e as int, opt_view(dig), fuel as nat) is None,
        },
    decreases fuel, 0int,
{
    if fuel == 0 {
        return None;
    }
    let t = skip_ws(s, e);
    if t < s.len() && s[t] == COMMA {
        let n = skip_ws(s, t + 1);
        descriptor_members(s, n, dig, fuel - 1)
    } else if t < s.len() && s[t] == RBRACE {
        Some((dig, t + 1))
    } else {
        None
    }
}

/// Reads one descriptor object: the value of its `digest` member.
fn parse_descriptor(s: &[u8], i: usize, fuel: usize) -> (r: Option<(Vec<u8>, usize)>)
    requires
        i <= s@.len(),
    ensures
        match r {
            Some((d, j)) => spec_parse_descriptor(s@, i as int, fuel as nat) == Some(
                (d@, j as int),
            ) && j <= s@.len(),
            None => spec_parse_descriptor(s@, i as int, fuel as nat) is None,
        },
{
    if i >= s.len() {
        return None;
    }
    if s[i] != LBRACE {
        return None;
    }
    let j = skip_ws(s, i + 1);
    if j < s.len() && s[j] == RBRACE {
        return None;
    }
    match descriptor_members(s, j, None, fuel) {
        None => None,
        Some((None, _e)) => None,
        Some((Some(d), e)) => Some((d, e)),
    }
}

/// Reads the remaining descriptors of an array.
fn descriptor_items(s: &[u8], i: usize, acc: Vec<Vec<u8>>, fuel: usize) -> (r: Option<
    (Vec<Vec<u8>>, usize),
>)
    requires
        i <= s@.len(),
    ensures
        match r {
            Some((ds, j)) => spec_descriptor_items(s@, i as int, deep(acc@), fuel as nat) == Some(
                (deep(ds@), j as int),
            ) && j <= s@.len(),
            None => spec_descriptor_items(s@, i as int, deep(acc@), fuel as nat) is None,
        },
    decreases fuel,
{
    if fuel == 0 {
        return None;
    }
    match parse_descriptor(s, i, fuel - 1) {
        None => None,
        Some((d, e)) => {
            let mut acc2 = acc;
            acc2.push(d);
            proof {
                assert(deep(acc2@) =~= deep(acc@).push(acc2@.last()@));
            }
            let t = skip_ws(s, e);
            if t < s.len() && s[t] == COMMA {
                let n = skip_ws(s, t + 1);
                descriptor_items(s, n, acc2, fuel - 1)
            } else if t < s.len() && s[t] == RBRACK {
                Some((acc2, t + 1))
            } else {
                None
            }
        },
    }
}

/// Reads an array of descriptors.
fn descriptor_list(s: &[u8], i: usize, fuel: usize) -> (r: Option<(Vec<Vec<u8>>, usize)>)
    requires
        i <= s@.len(),
    ensures
        match r {
            Some((ds, j)) => spec_descriptor_list(s@, i as int, fuel as nat) == Some(
                (deep(ds@), j as int),
            ) && j <= s@.len(),
            None => spec_descriptor_list(s@, i as int, fuel as nat) is None,
        },
{
    if i >= s.len() {
        return None;
    }
    if s[i] != LBRACK {
        return None;
    }
    let j = skip_ws(s, i + 1);
    if j < s.len() && s[j] == RBRACK {
        let empty: Vec<Vec<u8>> = Vec::new();
        proof {
            assert(deep(empty@) =~= Seq::<Seq<u8>>::empty());
        }
        return Some((empty, j + 1));
    }
    let empty: Vec<Vec<u8>> = Vec::new();
    proof {
        assert(deep(empty@) =~= Seq::<Seq<u8>>::empty());
    }
    descriptor_items(s, j, empty, fuel)
}

/// Walks the top-level members of a manifest.
fn manifest_members(s: &[u8], i: usize, acc: ManifestAccExec, fuel: usize) -> (r: Option<
    (ManifestAccExec, usize),
>)
    requires
        i <= s@.len(),
    ensures
        match r {
            Some((a, j)) => spec_manifest_members(s@, i as int, acc_view(acc), fuel as nat) == Some(
                (acc_view(a), j as int),
            ) && j <= s@.len(),
            None => spec_manifest_members(s@, i as int, acc_view(acc), fuel as nat) is None,
        },
    decreases fuel, 1int,
{
    if fuel == 0 || i >= s.len() {
        return None;
    }
    if s[i] != QUOTE {
        return None;
    }
    match string_body(s, i + 1) {
        None => None,
        Some((key, j)) => {
            let k = skip_ws(s, j);
            if k >= s.len() {
                return None;
            }
            if s[k] != COLON_B {
                return None;
            }
            let v = skip_ws(s, k + 1);
            let ksv = key_schema_version_bytes();
            let kcf = key_config_bytes();
            let kly = key_layers_bytes();
            let kmf = key_manifests_bytes();
            if crate::bytes::bytes_eq(key.as_slice(), ksv.as_slice()) {
                if v < s.len() && ((48 <= s[v] && s[v] <= 57) || s[v] == MINUS) {
                    let e = num_end(s, v);
                    let two = e == v + 1 && s[v] == 50;
                    proof {
                        if e == v + 1 && s@[v as int] == 50u8 {
                            assert(s@.subrange(v as int, e as int) =~= seq![50u8]);
                        } else {
                            if s@.subrange(v as int, e as int) == seq![50u8] {
                                assert(s@.subrange(v as int, e as int).len() == 1);
                                assert(s@.subrange(v as int, e as int)[0] == s@[v as int]);
                            }
                        }
                    }
                    manifest_tail(s, e, ManifestAccExec { schema_two: two, ..acc }, fuel)
                } else {
                    None
                }
            } else if crate::bytes::bytes_eq(key.as_slice(), kcf.as_slice()) {
                match parse_descriptor(s, v, fuel - 1) {
                    None => None,
                    Some((d, e)) => manifest_tail(
                        s,
                        e,
                        ManifestAccExec { config: Some(d), ..acc },
                        fuel,
                    ),
                }
            } else if crate::bytes::bytes_eq(key.as_slice(), kly.as_slice()) {
                match descriptor_list(s, v, fuel - 1) {
                    None => None,
                    Some((ls, e)) => manifest_tail(
                        s,
                        e,
                        ManifestAccExec { layers: Some(ls), ..acc },
                        fuel,
                    ),
                }
            } else if crate::bytes::bytes_eq(key.as_slice(), kmf.as_slice()) {
                match descriptor_list(s, v, fuel - 1) {
                    None => None,
                    Some((ls, e)) => manifest_tail(
                        s,
                        e,
                        ManifestAccExec { children: Some(ls), ..acc },
                        fuel,
                    ),
                }
            } else {
                match skip_value(s, v, fuel - 1) {
                    None => None,
                    Some(e) => manifest_tail(s, e, acc, fuel),
                }
            }
        },
    }
}

/// Continues the top-level object after one member.
fn manifest_tail(s: &[u8], e: usize, acc: ManifestAccExec, fuel: usize) -> (r: Option<
    (ManifestAccExec, usize),
>)
    requires
        e <= s@.len(),
    ensures
        match r {
            Some((a, j)) => spec_manifest_tail(s@, e as int, acc_view(acc), fuel as nat) == Some(
                (acc_view(a), j as int),
            ) && j <= s@.len(),
            None => spec_manifest_tail(s@, e as int, acc_view(acc), fuel as nat) is None,
        },
    decreases fuel, 0int,
{
    if fuel == 0 {
        return None;
    }
    let t = skip_ws(s, e);
    if t < s.len() && s[t] == COMMA {
        let n = skip_ws(s, t + 1);
        manifest_members(s, n, acc, fuel - 1)
    } else if t < s.len() && s[t] == RBRACE {
        Some((acc, t + 1))
    } else {
        None
    }
}

/// What the parser hands back for a recognized manifest: whether it is an
/// index, and the digest strings it references.
pub struct ManifestSummary {
    pub is_index: bool,
    pub refs: Vec<Vec<u8>>,
}

/// The model of a summary.
pub open spec fn summary_model(m: ManifestSummary) -> ManifestModel {
    ManifestModel { is_index: m.is_index, refs: deep(m.refs@) }
}

/// Parses manifest bytes.
///
/// Returns the summary exactly when the bytes are well-formed UTF-8 and
/// valid JSON (with number tokens scanned leniently) of a recognized
/// schema: `schemaVersion` 2 with either a `manifests` list or a `config`
/// and a `layers` list.
pub fn parse_manifest(s: &[u8]) -> (r: Option<ManifestSummary>)
    ensures
        match r {
            Some(m) => spec_parse_manifest(s@) == Some(summary_model(m)),
            None => spec_parse_manifest(s@) is None,
        },
{
    if !utf8_from(s, 0) {
        return None;
    }
    let i = skip_ws(s, 0);
    if i >= s.len() {
        return None;
    }
    if s[i] != LBRACE {
        return None;
    }
    let j = skip_ws(s, i + 1);
    if j < s.len() && s[j] == RBRACE {
        return None;
    }
    let acc0 = ManifestAccExec { schema_two: false, config: None, layers: None, children: None };
    let fuel = s.len();
    match manifest_members(s, j, acc0, fuel) {
        None => None,
        Some((acc, e)) => {
            let w = skip_ws(s, e);
            if w != s.len() {
                return None;
            }
            if !acc.schema_two {
                return None;
            }
            match acc.children {
                Some(c) => {
                    let m = ManifestSummary { is_index: true, refs: c };
                    Some(m)
                },
                None => {
                    match (acc.config, acc.layers) {
                        (Some(cd), Some(ls)) => {
                            let ghost cdv = cd@;
                            let mut refs: Vec<Vec<u8>> = Vec::new();
                            refs.push(cd);
                            let n = ls.len();
                            let mut k: usize = 0;
                            while k < n
                                invariant
                                    n == ls@.len(),
                                    k <= n,
                                    refs@.len() == 1 + k,
                                    refs@[0]@ == cdv,
                                    forall|m: int| 0 <= m < k ==> refs@[m + 1]@ == ls@[m]@,
                                decreases n - k,
                            {
                                let item = crate::bytes::copy_bytes(ls[k].as_slice());
                                refs.push(item);
                                k = k + 1;
                            }
                            proof {
                                assert(deep(refs@) =~= seq![cdv] + deep(ls@));
                            }
                            Some(ManifestSummary { is_index: false, refs })
                        },
                        _ => None,
                    }
                },
            }
        },
    }
}

} // verus!
