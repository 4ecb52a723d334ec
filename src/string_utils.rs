//! Preparing a script file's text before it is handed to the engine.

use vstd::prelude::*;
use crate::text::{chars_of, is_white, is_white_space, string_of};

verus! {

/// The number of white-space characters at the start of `s`.
pub open spec fn leading_white(s: Seq<char>) -> nat
    decreases s.len(),
{
    if s.len() > 0 && is_white(s[0]) {
        1 + leading_white(s.drop_first())
    } else {
        0
    }
}

/// The script with its interpreter line turned into a comment: when the
/// first character after the leading white space is `#` (or there is none),
/// `-- ` is put before it; otherwise the script stays as it is.
pub open spec fn without_shebang(s: Seq<char>) -> Seq<char> {
    let k = leading_white(s);
    if k < s.len() && s[k as int] != '#' {
        s
    } else {
        s.take(k as int) + seq!['-', '-', ' '] + s.skip(k as int)
    }
}

proof fn lemma_leading_white_step(s: Seq<char>, k: int)
    requires
        0 <= k < s.len(),
        is_white(s[k]),
    ensures
        leading_white(s.skip(k)) == 1 + leading_white(s.skip(k + 1)),
{
    assert(s.skip(k).drop_first() =~= s.skip(k + 1));
}

/// Turns a leading interpreter line (`#!...`) into a comment of the
/// scripting language, so that an executable script can still be run.
pub fn remove_shebang(script: String) -> (r: String)
    ensures
        r@ == without_shebang(script@),
{
    let s = chars_of(script.as_str());
    let mut k: usize = 0;
    assert(s@.skip(0) =~= s@);
    while k < s.len() && is_white_space(s[k])
        invariant
            k <= s.len(),
            s@ == script@,
            leading_white(s@) == k + leading_white(s@.skip(k as int)),
        decreases s.len() - k,
    {
        proof {
            lemma_leading_white_step(s@, k as int);
        }
        k = k + 1;
    }
    assert(leading_white(s@.skip(k as int)) == 0);
    if k < s.len() && s[k] != '#' {
        return script;
    }
    let mut out: Vec<char> = Vec::new();
    let mut j: usize = 0;
    while j < k
        invariant
            j <= k <= s.len(),
            out@ == s@.take(j as int),
        decreases k - j,
    {
        out.push(s[j]);
        j = j + 1;
        assert(out@ =~= s@.take(j as int));
    }
    out.push('-');
    out.push('-');
    out.push(' ');
    while j < s.len()
        invariant
            k <= j <= s.len(),
            out@ == s@.take(k as int) + seq!['-', '-', ' '] + s@.subrange(k as int, j as int),
        decreases s.len() - j,
    {
        out.push(s[j]);
        j = j + 1;
        assert(out@ =~= s@.take(k as int) + seq!['-', '-', ' '] + s@.subrange(k as int, j as int));
    }
    assert(out@ =~= without_shebang(script@));
    string_of(&out)
}

} // verus!
