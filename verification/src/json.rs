//! The wire grammar: JSON as this client reads and writes it.
//!
//! The specification side is a family of `spec` functions over `Seq<char>`
//! and an index; each returns what was recognized and the index just past it,
//! or `None` where the text does not conform. The executable side mirrors the
//! specification one branch for one branch, so every parser is proved to
//! return exactly what the grammar says.

use vstd::prelude::*;

verus! {

// ===== character classes =====

/// JSON insignificant whitespace.
pub open spec fn is_json_ws(c: char) -> bool {
    c == ' ' || c == '\t' || c == '\n' || c == '\r'
}

/// Decimal digit.
pub open spec fn is_digit(c: char) -> bool {
    48 <= c as u32 && c as u32 <= 57
}

/// Value of a hexadecimal digit, or -1 for any other character.
pub open spec fn hex_val(c: char) -> int {
    if 48 <= c as u32 && c as u32 <= 57 {
        c as u32 - 48
    } else if 65 <= c as u32 && c as u32 <= 70 {
        c as u32 - 55
    } else if 97 <= c as u32 && c as u32 <= 102 {
        c as u32 - 87
    } else {
        -1
    }
}

// ===== whitespace scanning =====

/// Index of the first non-whitespace character at or after `i` (at most the
/// end of the text).
pub open spec fn ws_end(s: Seq<char>, i: int) -> int
    decreases s.len() - i,
{
    if i < 0 || i >= s.len() {
        i
    } else if is_json_ws(s[i]) {
        ws_end(s, i + 1)
    } else {
        i
    }
}

pub(crate) fn scan_ws(s: &Vec<char>, i: usize) -> (r: usize)
    requires
        i <= s@.len(),
    ensures
        r as int == ws_end(s@, i as int),
        i <= r <= s@.len(),
{
    let mut j: usize = i;
    while j < s.len() && (s[j] == ' ' || s[j] == '\t' || s[j] == '\n' || s[j] == '\r')
        invariant
            i <= j <= s@.len(),
            ws_end(s@, i as int) == ws_end(s@, j as int),
        decreases s@.len() - j,
    {
        j = j + 1;
    }
    j
}

// ===== hexadecimal =====

pub(crate) fn hex_digit(c: char) -> (r: Option<u32>)
    ensures
        match r {
            Some(v) => hex_val(c) == v as int && v < 16,
            None => hex_val(c) < 0,
        },
{
    let u = c as u32;
    if 48 <= u && u <= 57 {
        Some(u - 48)
    } else if 65 <= u && u <= 70 {
        Some(u - 55)
    } else if 97 <= u && u <= 102 {
        Some(u - 87)
    } else {
        None
    }
}

/// Value of the four hexadecimal digits at `i`, or -1 where they are absent.
pub open spec fn hex4_val(s: Seq<char>, i: int) -> int {
    if 0 <= i && i + 4 <= s.len() && hex_val(s[i]) >= 0 && hex_val(s[i + 1]) >= 0 && hex_val(
        s[i + 2],
    ) >= 0 && hex_val(s[i + 3]) >= 0 {
        hex_val(s[i]) * 4096 + hex_val(s[i + 1]) * 256 + hex_val(s[i + 2]) * 16 + hex_val(s[i + 3])
    } else {
        -1
    }
}

pub(crate) fn hex4(s: &Vec<char>, i: usize) -> (r: Option<u32>)
    requires
        i <= s@.len(),
    ensures
        match r {
            Some(v) => hex4_val(s@, i as int) == v as int && v < 0x10000 && i + 4 <= s@.len(),
            None => hex4_val(s@, i as int) < 0,
        },
{
    if s.len() - i < 4 {
        return None;
    }
    let d0 = hex_digit(s[i]);
    let d1 = hex_digit(s[i + 1]);
    let d2 = hex_digit(s[i + 2]);
    let d3 = hex_digit(s[i + 3]);
    match (d0, d1, d2, d3) {
        (Some(a), Some(b), Some(c), Some(d)) => Some(a * 4096 + b * 256 + c * 16 + d),
        _ => None,
    }
}

// ===== strings =====

pub open spec fn is_high_surrogate(v: int) -> bool {
    0xD800 <= v <= 0xDBFF
}

pub open spec fn is_low_surrogate(v: int) -> bool {
    0xDC00 <= v <= 0xDFFF
}

/// Scalar value of a surrogate pair.
pub open spec fn combine_surrogates(hi: int, lo: int) -> int {
    0x10000 + (hi - 0xD800) * 0x400 + (lo - 0xDC00)
}

/// One escape sequence, entered just after the backslash: the character it
/// denotes and the index past the escape. A `\u` escape carrying a high
/// surrogate must be followed by a `\u` escape carrying a low one; any
/// other surrogate use does not conform.
pub open spec fn parse_escape(s: Seq<char>, i: int) -> Option<(char, int)> {
    if i < 0 || i >= s.len() {
        None
    } else {
        let c = s[i];
        if c == '"' {
            Some(('"', i + 1))
        } else if c == '\\' {
            Some(('\\', i + 1))
        } else if c == '/' {
            Some(('/', i + 1))
        } else if c == 'b' {
            Some(('\u{8}', i + 1))
        } else if c == 'f' {
            Some(('\u{c}', i + 1))
        } else if c == 'n' {
            Some(('\n', i + 1))
        } else if c == 'r' {
            Some(('\r', i + 1))
        } else if c == 't' {
            Some(('\t', i + 1))
        } else if c == 'u' {
            let v = hex4_val(s, i + 1);
            if v < 0 {
                None
            } else if is_high_surrogate(v) {
                if i + 7 <= s.len() && s[i + 5] == '\\' && s[i + 6] == 'u' {
                    let w = hex4_val(s, i + 7);
                    if is_low_surrogate(w) {
                        Some((combine_surrogates(v, w) as u32 as char, i + 11))
                    } else {
                        None
                    }
                } else {
                    None
                }
            } else if is_low_surrogate(v) {
                None
            } else {
                Some((v as u32 as char, i + 5))
            }
        } else {
            None
        }
    }
}

/// Relies on char::from_u32: it returns the character of the given scalar
/// value exactly when the value is no surrogate and at most 0x10FFFF.
#[verifier::external_body]
pub(crate) fn char_from_u32(v: u32) -> (r: Option<char>)
    ensures
        r is Some <==> (v < 0xD800 || (0xE000 <= v && v <= 0x10FFFF)),
        r is Some ==> r->0 as u32 == v,
{
    char::from_u32(v)
}

/// A character equals the cast back of its own scalar value.
pub(crate) proof fn lemma_char_of_scalar(c: char, v: u32)
    requires
        v < 0xD800 || (0xE000 <= v && v <= 0x10FFFF),
        c as u32 == v,
    ensures
        c == v as char,
{
}

pub(crate) fn parse_escape_exec(s: &Vec<char>, i: usize) -> (r: Option<(char, usize)>)
    requires
        i <= s@.len(),
    ensures
        match r {
            Some((c, j)) => parse_escape(s@, i as int) == Some((c, j as int)) && i < j <= s@.len(),
            None => parse_escape(s@, i as int) is None,
        },
{
    if i >= s.len() {
        return None;
    }
    let c = s[i];
    if c == '"' {
        Some(('"', i + 1))
    } else if c == '\\' {
        Some(('\\', i + 1))
    } else if c == '/' {
        Some(('/', i + 1))
    } else if c == 'b' {
        Some(('\u{8}', i + 1))
    } else if c == 'f' {
        Some(('\u{c}', i + 1))
    } else if c == 'n' {
        Some(('\n', i + 1))
    } else if c == 'r' {
        Some(('\r', i + 1))
    } else if c == 't' {
        Some(('\t', i + 1))
    } else if c == 'u' {
        match hex4(s, i + 1) {
            None => None,
            Some(v) => {
                if 0xD800 <= v && v <= 0xDBFF {
                    if s.len() - i >= 7 && s[i + 5] == '\\' && s[i + 6] == 'u' {
                        match hex4(s, i + 7) {
                            None => None,
                            Some(w) => {
                                if 0xDC00 <= w && w <= 0xDFFF {
                                    let cp: u32 = 0x10000 + (v - 0xD800) * 0x400 + (w - 0xDC00);
                                    assert(cp as int == combine_surrogates(v as int, w as int));
                                    match char_from_u32(cp) {
                                        Some(ch) => {
                                            proof {
                                                lemma_char_of_scalar(ch, cp);
                                                assert(combine_surrogates(v as int, w as int) as u32
                                                    == cp);
                                            }
                                            Some((ch, i + 11))
                                        },
                                        None => {
                                            proof {
                                                assert(false);
                                            }
                                            None
                                        },
                                    }
                                } else {
                                    None
                                }
                            },
                        }
                    } else {
                        None
                    }
                } else if 0xDC00 <= v && v <= 0xDFFF {
                    None
                } else {
                    match char_from_u32(v) {
                        Some(ch) => {
                            proof {
                                lemma_char_of_scalar(ch, v);
                                assert(hex4_val(s@, i as int + 1) as u32 == v);
                            }
                            Some((ch, i + 5))
                        },
                        None => {
                            proof {
                                assert(false);
                            }
                            None
                        },
                    }
                }
            },
        }
    } else {
        None
    }
}

/// Body of a string literal, entered just inside the opening quote: the
/// denoted characters and the index past the closing quote. Unescaped
/// control characters do not conform.
pub open spec fn parse_string_body(s: Seq<char>, i: int) -> Option<(Seq<char>, int)>
    decreases s.len() - i,
{
    if i < 0 || i >= s.len() {
        None
    } else if s[i] == '"' {
        Some((Seq::empty(), i + 1))
    } else if s[i] == '\\' {
        match parse_escape(s, i + 1) {
            Some((c, j)) => {
                if i + 1 < j && j <= s.len() {
                    match parse_string_body(s, j) {
                        Some((rest, k)) => Some((seq![c] + rest, k)),
                        None => None,
                    }
                } else {
                    None
                }
            },
            None => None,
        }
    } else if (s[i] as u32) < 32 {
        None
    } else {
        match parse_string_body(s, i + 1) {
            Some((rest, k)) => Some((seq![s[i]] + rest, k)),
            None => None,
        }
    }
}

/// A string literal at `i`: its opening quote, body and closing quote.
pub open spec fn parse_string_at(s: Seq<char>, i: int) -> Option<(Seq<char>, int)> {
    if 0 <= i && i < s.len() && s[i] == '"' {
        parse_string_body(s, i + 1)
    } else {
        None
    }
}

pub(crate) fn parse_string_body_exec(s: &Vec<char>, i: usize) -> (r: Option<(Vec<char>, usize)>)
    requires
        i <= s@.len(),
    ensures
        match r {
            Some((v, j)) => parse_string_body(s@, i as int) == Some((v@, j as int)) && i < j
                <= s@.len(),
            None => parse_string_body(s@, i as int) is None,
        },
    decreases s@.len() - i,
{
    if i >= s.len() {
        return None;
    }
    let c = s[i];
    if c == '"' {
        let v: Vec<char> = Vec::new();
        assert(v@ =~= Seq::<char>::empty());
        Some((v, i + 1))
    } else if c == '\\' {
        match parse_escape_exec(s, i + 1) {
            Some((e, j)) => {
                match parse_string_body_exec(s, j) {
                    Some((mut rest, k)) => {
                        rest.insert(0, e);
                        proof {
                            assert(rest@ =~= seq![e] + rest@.drop_first());
                        }
                        Some((rest, k))
                    },
                    None => None,
                }
            },
            None => None,
        }
    } else if (c as u32) < 32 {
        None
    } else {
        match parse_string_body_exec(s, i + 1) {
            Some((mut rest, k)) => {
                rest.insert(0, c);
                proof {
                    assert(rest@ =~= seq![c] + rest@.drop_first());
                }
                Some((rest, k))
            },
            None => None,
        }
    }
}

pub(crate) fn parse_string_exec(s: &Vec<char>, i: usize) -> (r: Option<(Vec<char>, usize)>)
    requires
        i <= s@.len(),
    ensures
        match r {
            Some((v, j)) => parse_string_at(s@, i as int) == Some((v@, j as int)) && i < j
                <= s@.len(),
            None => parse_string_at(s@, i as int) is None,
        },
{
    if i < s.len() && s[i] == '"' {
        parse_string_body_exec(s, i + 1)
    } else {
        None
    }
}

// ===== numbers =====

/// End of the run of decimal digits starting at `i`.
pub open spec fn digits_end(s: Seq<char>, i: int) -> int
    decreases s.len() - i,
{
    if 0 <= i && i < s.len() && is_digit(s[i]) {
        digits_end(s, i + 1)
    } else {
        i
    }
}

pub proof fn lemma_digits_end_bounds(s: Seq<char>, i: int)
    requires
        0 <= i <= s.len(),
    ensures
        i <= digits_end(s, i) <= s.len(),
    decreases s.len() - i,
{
    if i < s.len() && is_digit(s[i]) {
        lemma_digits_end_bounds(s, i + 1);
    }
}

pub(crate) fn scan_digits(s: &Vec<char>, i: usize) -> (r: usize)
    requires
        i <= s@.len(),
    ensures
        r as int == digits_end(s@, i as int),
        i <= r <= s@.len(),
{
    let mut j: usize = i;
    while j < s.len() && 48 <= s[j] as u32 && s[j] as u32 <= 57
        invariant
            i <= j <= s@.len(),
            digits_end(s@, i as int) == digits_end(s@, j as int),
        decreases s@.len() - j,
    {
        j = j + 1;
    }
    j
}

/// End of a number at `i`, following the JSON number grammar: an optional
/// minus sign, an integer part without needless leading zero, an optional
/// fraction, an optional exponent.
pub open spec fn number_end(s: Seq<char>, i: int) -> Option<int> {
    let j = if 0 <= i && i < s.len() && s[i] == '-' {
        i + 1
    } else {
        i
    };
    if 0 <= j && j < s.len() && is_digit(s[j]) {
        let k = if s[j] == '0' {
            j + 1
        } else {
            digits_end(s, j)
        };
        let l = if k < s.len() && s[k] == '.' {
            if digits_end(s, k + 1) > k + 1 {
                digits_end(s, k + 1)
            } else {
                -1
            }
        } else {
            k
        };
        if l < 0 {
            None
        } else {
            let m = if l < s.len() && (s[l] == 'e' || s[l] == 'E') {
                let p = if l + 1 < s.len() && (s[l + 1] == '+' || s[l + 1] == '-') {
                    l + 2
                } else {
                    l + 1
                };
                if p < s.len() && is_digit(s[p]) {
                    digits_end(s, p)
                } else {
                    -1
                }
            } else {
                l
            };
            if m < 0 {
                None
            } else {
                Some(m)
            }
        }
    } else {
        None
    }
}

pub(crate) fn number_end_exec(s: &Vec<char>, i: usize) -> (r: Option<usize>)
    requires
        i <= s@.len(),
    ensures
        match r {
            Some(j) => number_end(s@, i as int) == Some(j as int) && i < j <= s@.len(),
            None => number_end(s@, i as int) is None,
        },
{
    let j: usize = if i < s.len() && s[i] == '-' {
        i + 1
    } else {
        i
    };
    if !(j < s.len() && {
        let u = s[j] as u32;
        48 <= u && u <= 57
    }) {
        return None;
    }
    let k: usize = if s[j] == '0' {
        j + 1
    } else {
        scan_digits(s, j)
    };
    proof {
        lemma_digits_end_bounds(s@, j as int + 1);
    }
    let l: usize = if k < s.len() && s[k] == '.' {
        let d = scan_digits(s, k + 1);
        if d > k + 1 {
            d
        } else {
            return None;
        }
    } else {
        k
    };
    let m: usize = if l < s.len() && (s[l] == 'e' || s[l] == 'E') {
        let p: usize = if l + 1 < s.len() && (s[l + 1] == '+' || s[l + 1] == '-') {
            l + 2
        } else {
            l + 1
        };
        if p < s.len() && {
            let u = s[p] as u32;
            48 <= u && u <= 57
        } {
            scan_digits(s, p)
        } else {
            return None;
        }
    } else {
        l
    };
    Some(m)
}

// ===== skipping arbitrary values =====
//
// Members of an object other than the ones this client reads are accepted
// and passed over, whatever well-formed value they hold. The five functions
// below recognize an arbitrary value; they are mutually recursive, ordered
// by a fixed rank so that every call either moves right in the text or
// drops in rank.

/// An arbitrary value at `i`: the index just past it.
pub open spec fn skip_value(s: Seq<char>, i: int) -> Option<int>
    decreases s.len() - i, 0int,
{
    if i < 0 || i >= s.len() {
        None
    } else if s[i] == '"' {
        match parse_string_at(s, i) {
            Some((_c, j)) => Some(j),
            None => None,
        }
    } else if s[i] == '{' {
        skip_object_rest(s, i + 1)
    } else if s[i] == '[' {
        skip_array_rest(s, i + 1)
    } else if s[i] == 't' {
        if i + 4 <= s.len() && s[i + 1] == 'r' && s[i + 2] == 'u' && s[i + 3] == 'e' {
            Some(i + 4)
        } else {
            None
        }
    } else if s[i] == 'f' {
        if i + 5 <= s.len() && s[i + 1] == 'a' && s[i + 2] == 'l' && s[i + 3] == 's' && s[i + 4]
            == 'e' {
            Some(i + 5)
        } else {
            None
        }
    } else if s[i] == 'n' {
        if i + 4 <= s.len() && s[i + 1] == 'u' && s[i + 2] == 'l' && s[i + 3] == 'l' {
            Some(i + 4)
        } else {
            None
        }
    } else {
        number_end(s, i)
    }
}

/// The rest of an object being skipped, entered just after `{`.
pub open spec fn skip_object_rest(s: Seq<char>, i: int) -> Option<int>
    decreases s.len() - i, 2int,
{
    if i < 0 || i >= s.len() {
        None
    } else if is_json_ws(s[i]) {
        skip_object_rest(s, i + 1)
    } else if s[i] == '}' {
        Some(i + 1)
    } else {
        skip_members(s, i)
    }
}

/// One or more `"key": value` members being skipped, entered at a key.
pub open spec fn skip_members(s: Seq<char>, i: int) -> Option<int>
    decreases s.len() - i, 1int,
{
    if i < 0 {
        None
    } else {
        match parse_string_at(s, i) {
            Some((_k, j)) => {
                if i < j && j <= s.len() {
                    let k = ws_end(s, j);
                    if j <= k && k < s.len() && s[k] == ':' {
                        let l = ws_end(s, k + 1);
                        if k + 1 <= l && l <= s.len() {
                            match skip_value(s, l) {
                                Some(m) => {
                                    if l < m && m <= s.len() {
                                        let n = ws_end(s, m);
                                        if m <= n && n < s.len() {
                                            if s[n] == ',' {
                                                let p = ws_end(s, n + 1);
                                                if n + 1 <= p && p <= s.len() {
                                                    skip_members(s, p)
                                                } else {
                                                    None
                                                }
                                            } else if s[n] == '}' {
                                                Some(n + 1)
                                            } else {
                                                None
                                            }
                                        } else {
                                            None
                                        }
                                    } else {
                                        None
                                    }
                                },
                                None => None,
                            }
                        } else {
                            None
                        }
                    } else {
                        None
                    }
                } else {
                    None
                }
            },
            None => None,
        }
    }
}

/// The rest of an array being skipped, entered just after `[`.
pub open spec fn skip_array_rest(s: Seq<char>, i: int) -> Option<int>
    decreases s.len() - i, 2int,
{
    if i < 0 || i >= s.len() {
        None
    } else if is_json_ws(s[i]) {
        skip_array_rest(s, i + 1)
    } else if s[i] == ']' {
        Some(i + 1)
    } else {
        skip_elements(s, i)
    }
}

/// One or more array elements being skipped, entered at a value.
pub open spec fn skip_elements(s: Seq<char>, i: int) -> Option<int>
    decreases s.len() - i, 1int,
{
    if i < 0 || i > s.len() {
        None
    } else {
        match skip_value(s, i) {
            Some(j) => {
                if i < j && j <= s.len() {
                    let k = ws_end(s, j);
                    if j <= k && k < s.len() {
                        if s[k] == ',' {
                            let l = ws_end(s, k + 1);
                            if k + 1 <= l && l <= s.len() {
                                skip_elements(s, l)
                            } else {
                                None
                            }
                        } else if s[k] == ']' {
                            Some(k + 1)
                        } else {
                            None
                        }
                    } else {
                        None
                    }
                } else {
                    None
                }
            },
            None => None,
        }
    }
}

pub(crate) fn skip_value_exec(s: &Vec<char>, i: usize) -> (r: Option<usize>)
    requires
        i <= s@.len(),
    ensures
        match r {
            Some(j) => skip_value(s@, i as int) == Some(j as int) && i < j <= s@.len(),
            None => skip_value(s@, i as int) is None,
        },
    decreases s@.len() - i, 0int,
{
    if i >= s.len() {
        return None;
    }
    let c = s[i];
    if c == '"' {
        match parse_string_exec(s, i) {
            Some((_k, j)) => Some(j),
            None => None,
        }
    } else if c == '{' {
        skip_object_rest_exec(s, i + 1)
    } else if c == '[' {
        skip_array_rest_exec(s, i + 1)
    } else if c == 't' {
        if s.len() - i >= 4 && s[i + 1] == 'r' && s[i + 2] == 'u' && s[i + 3] == 'e' {
            Some(i + 4)
        } else {
            None
        }
    } else if c == 'f' {
        if s.len() - i >= 5 && s[i + 1] == 'a' && s[i + 2] == 'l' && s[i + 3] == 's' && s[i + 4]
            == 'e' {
            Some(i + 5)
        } else {
            None
        }
    } else if c == 'n' {
        if s.len() - i >= 4 && s[i + 1] == 'u' && s[i + 2] == 'l' && s[i + 3] == 'l' {
            Some(i + 4)
        } else {
            None
        }
    } else {
        number_end_exec(s, i)
    }
}

pub(crate) fn skip_object_rest_exec(s: &Vec<char>, i: usize) -> (r: Option<usize>)
    requires
        i <= s@.len(),
    ensures
        match r {
            Some(j) => skip_object_rest(s@, i as int) == Some(j as int) && i <= j <= s@.len(),
            None => skip_object_rest(s@, i as int) is None,
        },
    decreases s@.len() - i, 2int,
{
    if i >= s.len() {
        return None;
    }
    let c = s[i];
    if c == ' ' || c == '\t' || c == '\n' || c == '\r' {
        skip_object_rest_exec(s, i + 1)
    } else if c == '}' {
        Some(i + 1)
    } else {
        skip_members_exec(s, i)
    }
}

pub(crate) fn skip_members_exec(s: &Vec<char>, i: usize) -> (r: Option<usize>)
    requires
        i <= s@.len(),
    ensures
        match r {
            Some(j) => skip_members(s@, i as int) == Some(j as int) && i < j <= s@.len(),
            None => skip_members(s@, i as int) is None,
        },
    decreases s@.len() - i, 1int,
{
    match parse_string_exec(s, i) {
        Some((_k, j)) => {
            let k = scan_ws(s, j);
            if k < s.len() && s[k] == ':' {
                let l = scan_ws(s, k + 1);
                match skip_value_exec(s, l) {
                    Some(m) => {
                        let n = scan_ws(s, m);
                        if n < s.len() {
                            if s[n] == ',' {
                                let p = scan_ws(s, n + 1);
                                skip_members_exec(s, p)
                            } else if s[n] == '}' {
                                Some(n + 1)
                            } else {
                                None
                            }
                        } else {
                            None
                        }
                    },
                    None => None,
                }
            } else {
                None
            }
        },
        None => None,
    }
}

pub(crate) fn skip_array_rest_exec(s: &Vec<char>, i: usize) -> (r: Option<usize>)
    requires
        i <= s@.len(),
    ensures
        match r {
            Some(j) => skip_array_rest(s@, i as int) == Some(j as int) && i <= j <= s@.len(),
            None => skip_array_rest(s@, i as int) is None,
        },
    decreases s@.len() - i, 2int,
{
    if i >= s.len() {
        return None;
    }
    let c = s[i];
    if c == ' ' || c == '\t' || c == '\n' || c == '\r' {
        skip_array_rest_exec(s, i + 1)
    } else if c == ']' {
        Some(i + 1)
    } else {
        skip_elements_exec(s, i)
    }
}

pub(crate) fn skip_elements_exec(s: &Vec<char>, i: usize) -> (r: Option<usize>)
    requires
        i <= s@.len(),
    ensures
        match r {
            Some(j) => skip_elements(s@, i as int) == Some(j as int) && i < j <= s@.len(),
            None => skip_elements(s@, i as int) is None,
        },
    decreases s@.len() - i, 1int,
{
    match skip_value_exec(s, i) {
        Some(j) => {
            let k = scan_ws(s, j);
            if k < s.len() {
                if s[k] == ',' {
                    let l = scan_ws(s, k + 1);
                    skip_elements_exec(s, l)
                } else if s[k] == ']' {
                    Some(k + 1)
                } else {
                    None
                }
            } else {
                None
            }
        },
        None => None,
    }
}

} // verus!
