//! The line reader's pure decisions: the prompt text and the treatment of
//! raw input lines (trimming, skipping blank lines).

use vstd::prelude::*;
use vstd::string::*;
use crate::text::is_space;
use crate::text::is_space_char;

verus! {

/// Every character is whitespace.
pub open spec fn all_space(s: Seq<char>) -> bool {
    forall|i: int| 0 <= i < s.len() ==> is_space(#[trigger] s[i])
}

/// What `trim_line` returns for a non-blank line: the input without its
/// leading and trailing whitespace.
pub open spec fn is_trimmed_of(t: Seq<char>, s: Seq<char>) -> bool {
    exists|a: int, b: int|
        {
            &&& 0 <= a <= b <= s.len()
            &&& t == s.subrange(a, b)
            &&& (forall|i: int| 0 <= i < a ==> is_space(#[trigger] s[i]))
            &&& (forall|i: int| b <= i < s.len() ==> is_space(#[trigger] s[i]))
            &&& t.len() > 0
            &&& !is_space(t[0])
            &&& !is_space(t[t.len() - 1])
        }
}

/// The reader's treatment of one raw line: blank lines are skipped without
/// contacting the worker; any other line is trimmed and dispatched.
pub fn trim_line(line: &str) -> (r: Option<String>)
    ensures
        r is None <==> all_space(line@),
        r matches Some(t) ==> is_trimmed_of(t@, line@),
{
    let len = line.unicode_len();
    let mut a: usize = 0;
    while a < len && is_space_char(line.get_char(a))
        invariant
            len == line@.len(),
            0 <= a <= len,
            forall|i: int| 0 <= i < a ==> is_space(#[trigger] line@[i]),
        decreases len - a,
    {
        a += 1;
    }
    if a == len {
        return None;
    }
    let mut b: usize = len;
    while b > a && is_space_char(line.get_char(b - 1))
        invariant
            len == line@.len(),
            a <= b <= len,
            !is_space(line@[a as int]),
            forall|i: int| b <= i < len ==> is_space(#[trigger] line@[i]),
        decreases b,
    {
        b -= 1;
    }
    let t = line.substring_char(a, b).to_owned();
    proof {
        assert(!is_space(t@[0]));
        assert(t@[t@.len() - 1] == line@[b - 1]);
        assert(!all_space(line@)) by {
            assert(!is_space(line@[a as int]));
        }
    }
    Some(t)
}

/// The prompt carries a glyph for the previous exit status: one glyph for
/// success, another for failure.
pub fn prompt(prev: i32) -> (r: String)
    ensures
        r@ == if prev == 0 {
            "zerosh :) &> "@
        } else {
            "zerosh :( &> "@
        },
{
    if prev == 0 {
        String::from_str("zerosh :) &> ")
    } else {
        String::from_str("zerosh :( &> ")
    }
}

} // verus!
