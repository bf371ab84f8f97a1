//! The prompt read from standard input: trimming and the fail-fast check
//! that something is left. Whitespace is trimmed from both ends before any
//! request is built, and a prompt that trims to nothing is rejected.

use crate::error::{QueryError, QueryErrorView};
use crate::strutil::{chars_of, string_of_chars};
use vstd::prelude::*;

verus! {

/// A character with the Unicode white-space property.
pub open spec fn is_unicode_ws(c: char) -> bool {
    let u = c as u32;
    u == 0x09 || u == 0x0A || u == 0x0B || u == 0x0C || u == 0x0D || u == 0x20 || u == 0x85 || u
        == 0xA0 || u == 0x1680 || (0x2000 <= u && u <= 0x200A) || u == 0x2028 || u == 0x2029 || u
        == 0x202F || u == 0x205F || u == 0x3000
}

fn is_unicode_ws_exec(c: char) -> (r: bool)
    ensures
        r == is_unicode_ws(c),
{
    let u = c as u32;
    u == 0x09 || u == 0x0A || u == 0x0B || u == 0x0C || u == 0x0D || u == 0x20 || u == 0x85 || u
        == 0xA0 || u == 0x1680 || (0x2000 <= u && u <= 0x200A) || u == 0x2028 || u == 0x2029 || u
        == 0x202F || u == 0x205F || u == 0x3000
}

/// Index of the first character at or after `i` that is not whitespace.
pub open spec fn trim_start_idx(s: Seq<char>, i: int) -> int
    decreases s.len() - i,
{
    if i < 0 || i >= s.len() {
        i
    } else if is_unicode_ws(s[i]) {
        trim_start_idx(s, i + 1)
    } else {
        i
    }
}

/// Index just past the last character before `j` that is not whitespace.
pub open spec fn trim_end_idx(s: Seq<char>, j: int) -> int
    decreases j,
{
    if 0 < j && j <= s.len() && is_unicode_ws(s[j - 1]) {
        trim_end_idx(s, j - 1)
    } else {
        j
    }
}

/// The string with its leading and trailing whitespace removed.
pub open spec fn spec_trim(s: Seq<char>) -> Seq<char> {
    let a = trim_start_idx(s, 0);
    let b = trim_end_idx(s, s.len() as int);
    if 0 <= a && a < b && b <= s.len() {
        s.subrange(a, b)
    } else {
        Seq::empty()
    }
}

/// A string of nothing but whitespace trims to nothing.
pub proof fn lemma_trim_of_whitespace(s: Seq<char>)
    requires
        forall|k: int| 0 <= k < s.len() ==> is_unicode_ws(s[k]),
    ensures
        spec_trim(s).len() == 0,
{
    lemma_trim_start_all_ws(s, 0);
}

proof fn lemma_trim_end_le(s: Seq<char>, j: int)
    ensures
        trim_end_idx(s, j) <= j,
    decreases j,
{
    if 0 < j && j <= s.len() && is_unicode_ws(s[j - 1]) {
        lemma_trim_end_le(s, j - 1);
    }
}

proof fn lemma_trim_start_all_ws(s: Seq<char>, i: int)
    requires
        0 <= i <= s.len(),
        forall|k: int| 0 <= k < s.len() ==> is_unicode_ws(s[k]),
    ensures
        trim_start_idx(s, i) == s.len(),
    decreases s.len() - i,
{
    if i < s.len() {
        lemma_trim_start_all_ws(s, i + 1);
    }
}

/// Trim the input and reject what trims to nothing, before anything else
/// happens. A non-empty trimmed prompt is returned as it stands.
pub fn validate_prompt(input: &str) -> (r: Result<String, QueryError>)
    ensures
        spec_trim(input@).len() == 0 ==> (r matches Err(e) && e@ == QueryErrorView::EmptyInput),
        spec_trim(input@).len() > 0 ==> (r matches Ok(t) && t@ == spec_trim(input@)),
{
    let v = chars_of(input);
    let n = v.len();
    let mut a: usize = 0;
    while a < n && is_unicode_ws_exec(v[a])
        invariant
            n == v@.len(),
            a <= n,
            trim_start_idx(v@, 0) == trim_start_idx(v@, a as int),
        decreases n - a,
    {
        a = a + 1;
    }
    let mut b: usize = n;
    while b > a && is_unicode_ws_exec(v[b - 1])
        invariant
            n == v@.len(),
            a <= b <= n,
            trim_end_idx(v@, n as int) == trim_end_idx(v@, b as int),
        decreases b,
    {
        b = b - 1;
    }
    proof {
        assert(trim_start_idx(v@, a as int) == a as int);
    }
    if a >= b {
        proof {
            lemma_trim_end_le(v@, b as int);
            assert(trim_end_idx(v@, n as int) <= a as int);
            assert(spec_trim(input@).len() == 0);
        }
        return Err(QueryError::EmptyInput);
    }
    proof {
        assert(trim_end_idx(v@, b as int) == b as int);
    }
    let mut out: Vec<char> = Vec::new();
    let mut i: usize = a;
    while i < b
        invariant
            a <= i <= b <= n,
            n == v@.len(),
            out@ == v@.subrange(a as int, i as int),
        decreases b - i,
    {
        out.push(v[i]);
        proof {
            assert(out@ =~= v@.subrange(a as int, i as int + 1));
        }
        i = i + 1;
    }
    proof {
        assert(out@ =~= spec_trim(input@));
    }
    Ok(string_of_chars(&out))
}

} // verus!
