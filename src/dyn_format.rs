//! Formatting a pattern with positional (`{}`, `{2}`) and named
//! (`{user-id}`) placeholders whose values are supplied at run time.

use vstd::prelude::*;
use crate::decimal::{decimal_string, decimal_text, nat_digits, push_digits};
use crate::text::{
    append_chars, chars_of, find_from, first_at, lemma_first_at_bounds, slice_chars, string_of,
};

verus! {

/// A value that can fill a placeholder.
pub trait FormatValue {
    /// The text the value is shown as.
    spec fn text(&self) -> Seq<char>;

    fn render(&self) -> (r: String)
        ensures
            r@ == self.text(),
    ;
}

impl FormatValue for &str {
    open spec fn text(&self) -> Seq<char> {
        (*self)@
    }

    fn render(&self) -> (r: String) {
        (*self).to_string()
    }
}

impl FormatValue for String {
    open spec fn text(&self) -> Seq<char> {
        self@
    }

    fn render(&self) -> (r: String) {
        self.clone()
    }
}

impl FormatValue for i32 {
    open spec fn text(&self) -> Seq<char> {
        decimal_text(*self as int)
    }

    fn render(&self) -> (r: String) {
        decimal_string(*self as i64)
    }
}

impl FormatValue for i64 {
    open spec fn text(&self) -> Seq<char> {
        decimal_text(*self as int)
    }

    fn render(&self) -> (r: String) {
        decimal_string(*self)
    }
}

impl FormatValue for u32 {
    open spec fn text(&self) -> Seq<char> {
        decimal_text(*self as int)
    }

    fn render(&self) -> (r: String) {
        decimal_string(*self as i64)
    }
}

/// Why a pattern could not be formatted.
#[derive(Debug)]
pub enum FormatError {
    /// A `{` without its `}`, or a `}` alone; the offending text.
    InvalidPlaceholder(String),
    /// A placeholder without a value; which one.
    MissingArgument(String),
}

/// The model of a formatting error.
pub ghost enum FormatFault {
    InvalidPlaceholder(Seq<char>),
    MissingArgument(Seq<char>),
}

impl View for FormatError {
    type V = FormatFault;

    open spec fn view(&self) -> FormatFault {
        match self {
            FormatError::InvalidPlaceholder(s) => FormatFault::InvalidPlaceholder(s@),
            FormatError::MissingArgument(s) => FormatFault::MissingArgument(s@),
        }
    }
}

/// The values that placeholders are filled with.
pub struct FormatArgs {
    positional: Vec<String>,
    named: Vec<(String, String)>,
}

/// The named values given by a list of entries, a later entry replacing an
/// earlier one of the same name.
pub open spec fn named_map(entries: Seq<(String, String)>) -> Map<Seq<char>, Seq<char>>
    decreases entries.len(),
{
    if entries.len() == 0 {
        Map::empty()
    } else {
        named_map(entries.drop_last()).insert(entries.last().0@, entries.last().1@)
    }
}

impl FormatArgs {
    /// The positional values, the first of them numbered 1.
    pub closed spec fn positional_view(&self) -> Seq<Seq<char>> {
        self.positional@.map_values(|s: String| s@)
    }

    /// The named values.
    pub closed spec fn named_view(&self) -> Map<Seq<char>, Seq<char>> {
        named_map(self.named@)
    }

    /// No values at all.
    pub fn new() -> (r: FormatArgs)
        ensures
            r.positional_view() == Seq::<Seq<char>>::empty(),
            r.named_view() == Map::<Seq<char>, Seq<char>>::empty(),
    {
        let r = FormatArgs { positional: Vec::new(), named: Vec::new() };
        assert(r.positional_view() =~= Seq::<Seq<char>>::empty());
        r
    }

    /// Adds the next positional value.
    pub fn add_positional<T: FormatValue>(self, value: T) -> (r: FormatArgs)
        ensures
            r.positional_view() == self.positional_view().push(value.text()),
            r.named_view() == self.named_view(),
    {
        let mut positional = self.positional;
        let ghost before = positional@;
        positional.push(value.render());
        let r = FormatArgs { positional, named: self.named };
        assert(r.positional_view() =~= before.map_values(|s: String| s@).push(value.text()));
        r
    }

    /// Adds a named value, replacing any earlier value of that name.
    pub fn add_named<T: FormatValue>(self, name: &str, value: T) -> (r: FormatArgs)
        ensures
            r.positional_view() == self.positional_view(),
            r.named_view() == self.named_view().insert(name@, value.text()),
    {
        let mut named = self.named;
        let ghost before = named@;
        named.push((name.to_string(), value.render()));
        assert(named@.drop_last() =~= before);
        FormatArgs { positional: self.positional, named }
    }

    fn positional_count(&self) -> (n: usize)
        ensures
            n == self.positional_view().len(),
    {
        self.positional.len()
    }

    fn positional_at(&self, k: usize) -> (s: &String)
        requires
            k < self.positional_view().len(),
        ensures
            s@ == self.positional_view()[k as int],
    {
        &self.positional[k]
    }

    fn named_value(&self, name: &Vec<char>) -> (r: Option<&String>)
        ensures
            match r {
                Some(v) => self.named_view().contains_key(name@) && self.named_view()[name@]
                    == v@,
                None => !self.named_view().contains_key(name@),
            },
    {
        let mut k = self.named.len();
        assert(self.named@.take(k as int) =~= self.named@);
        while k > 0
            invariant
                k <= self.named.len(),
                forall|j: int| k <= j < self.named@.len() ==> (#[trigger] self.named@[j]).0@ != name@,
            decreases k,
        {
            let entry = &self.named[k - 1];
            let key = chars_of(entry.0.as_str());
            let same = key.len() == name.len() && crate::text::occurs_at_exec(&key, name, 0);
            assert(same == (key@ == name@)) by {
                assert(key@.subrange(0, key@.len() as int) =~= key@);
            }
            if same {
                assert(key@.subrange(0, name@.len() as int) =~= key@);
                proof {
                    lemma_named_suffix(self.named@, k as int, name@);
                    assert(self.named@.take(k as int).drop_last() =~= self.named@.take(k - 1));
                }
                return Some(&entry.1);
            }
            k = k - 1;
        }
        proof {
            lemma_named_suffix(self.named@, 0, name@);
            assert(self.named@.take(0) =~= Seq::<(String, String)>::empty());
        }
        None
    }
}

/// Entries after position `k` that do not name `key` leave its value as the
/// first `k` entries give it.
proof fn lemma_named_suffix(entries: Seq<(String, String)>, k: int, key: Seq<char>)
    requires
        0 <= k <= entries.len(),
        forall|j: int| k <= j < entries.len() ==> (#[trigger] entries[j]).0@ != key,
    ensures
        named_map(entries).contains_key(key) == named_map(entries.take(k)).contains_key(key),
        named_map(entries).contains_key(key) ==> named_map(entries)[key] == named_map(
            entries.take(k),
        )[key],
    decreases entries.len() - k,
{
    if k < entries.len() {
        let pre = entries.drop_last();
        assert(entries.last() == entries[entries.len() - 1]);
        assert forall|j: int| k <= j < pre.len() implies (#[trigger] pre[j]).0@ != key by {
            assert(pre[j] == entries[j]);
        }
        lemma_named_suffix(pre, k, key);
        assert(pre.take(k) =~= entries.take(k));
    } else {
        assert(entries.take(k) =~= entries);
    }
}

/// The value of a run of decimal digits.
pub open spec fn digits_value(s: Seq<char>) -> nat
    decreases s.len(),
{
    if s.len() == 0 {
        0
    } else {
        digits_value(s.drop_last()) * 10 + (s.last() as u32 - '0' as u32) as nat
    }
}

/// All characters are ASCII digits.
pub open spec fn all_digits(s: Seq<char>) -> bool {
    forall|i: int| 0 <= i < s.len() ==> '0' <= #[trigger] s[i] && s[i] <= '9'
}

/// The text after an optional leading `+`.
pub open spec fn unsigned_digits(s: Seq<char>) -> Seq<char> {
    if s.len() > 0 && s[0] == '+' {
        s.drop_first()
    } else {
        s
    }
}

/// The number a placeholder stands for: an optional `+`, then at least one
/// digit, with a value that fits a `usize`.
pub open spec fn index_of(s: Seq<char>) -> Option<nat> {
    let d = unsigned_digits(s);
    if d.len() > 0 && all_digits(d) && digits_value(d) <= usize::MAX {
        Some(digits_value(d))
    } else {
        None
    }
}

proof fn lemma_digits_grow(s: Seq<char>, k: int)
    requires
        0 <= k <= s.len(),
    ensures
        digits_value(s.take(k)) <= digits_value(s),
    decreases s.len() - k,
{
    if k < s.len() {
        lemma_digits_grow(s, k + 1);
        assert(s.take(k + 1).drop_last() =~= s.take(k));
    } else {
        assert(s.take(k) =~= s);
    }
}

fn parse_index(s: &Vec<char>) -> (r: Option<usize>)
    ensures
        match r {
            Some(n) => index_of(s@) == Some(n as nat),
            None => index_of(s@) is None,
        },
{
    let start: usize = if s.len() > 0 && s[0] == '+' {
        1
    } else {
        0
    };
    let ghost d = s@.skip(start as int);
    assert(d =~= unsigned_digits(s@));
    if start >= s.len() {
        return None;
    }
    let mut acc: u128 = 0;
    let mut i = start;
    assert(d.take(0) =~= Seq::<char>::empty());
    while i < s.len()
        invariant
            start <= i <= s.len(),
            d == s@.skip(start as int),
            d == unsigned_digits(s@),
            acc == digits_value(d.take(i - start)),
            acc <= usize::MAX,
            all_digits(d.take(i - start)),
        decreases s.len() - i,
    {
        let c = s[i];
        if !('0' <= c && c <= '9') {
            assert(d[i - start] == c);
            assert(!all_digits(d));
            return None;
        }
        assert(d.take(i - start + 1).drop_last() =~= d.take(i - start));
        assert(d.take(i - start + 1).last() == c);
        let digit = (c as u32 - '0' as u32) as u128;
        assert(acc * 10 + digit <= u128::MAX) by (nonlinear_arith)
            requires
                acc <= usize::MAX,
                digit <= 9,
        ;
        acc = acc * 10 + digit;
        i = i + 1;
        assert(all_digits(d.take(i - start)));
        if acc > usize::MAX as u128 {
            proof {
                lemma_digits_grow(d, i - start);
            }
            assert(digits_value(d) > usize::MAX);
            return None;
        }
    }
    assert(d.take(i - start) =~= d);
    Some(acc as usize)
}

/// A formatting result with `x` put in front of it, when it succeeds.
pub open spec fn prefixed(x: Seq<char>, r: Result<Seq<char>, FormatFault>) -> Result<
    Seq<char>,
    FormatFault,
> {
    match r {
        Ok(t) => Ok(x + t),
        Err(e) => Err(e),
    }
}

/// The message for a positional placeholder without a value.
pub open spec fn missing_positional(n: nat) -> FormatFault {
    FormatFault::MissingArgument("positional argument "@ + nat_digits(n))
}

/// The message for a named placeholder without a value.
pub open spec fn missing_named(name: Seq<char>) -> FormatFault {
    FormatFault::MissingArgument("named argument '"@ + name + seq!['\''])
}

/// The formatting of `p` from position `i` on, when `auto` is the number of
/// the value that the next `{}` takes. `{{` and `}}` stand for one brace;
/// `{}` takes the next value in turn; `{n}` the value numbered `n`, counting
/// from 1; any other `{name}` the value of that name.
pub open spec fn format_from(
    p: Seq<char>,
    i: int,
    auto: nat,
    positional: Seq<Seq<char>>,
    named: Map<Seq<char>, Seq<char>>,
) -> Result<Seq<char>, FormatFault>
    decreases p.len() + 1 - i,
{
    if i < 0 || i >= p.len() {
        Ok(seq![])
    } else if p[i] == '{' {
        if i + 1 < p.len() && p[i + 1] == '{' {
            prefixed(seq!['{'], format_from(p, i + 2, auto, positional, named))
        } else {
            match first_at(p, seq!['}'], i + 1) {
                None => Err(FormatFault::InvalidPlaceholder(p.skip(i))),
                Some(j) => if !(i < j < p.len()) {
                    // Not met: the brace is found after `i`, inside `p`.
                    Ok(seq![])
                } else {
                    let ph = p.subrange(i + 1, j);
                    if ph.len() == 0 {
                        if 1 <= auto <= positional.len() {
                            prefixed(
                                positional[auto - 1],
                                format_from(p, j + 1, auto + 1, positional, named),
                            )
                        } else {
                            Err(missing_positional(auto))
                        }
                    } else {
                        match index_of(ph) {
                            Some(n) => if 1 <= n <= positional.len() {
                                prefixed(
                                    positional[n - 1],
                                    format_from(p, j + 1, auto, positional, named),
                                )
                            } else {
                                Err(missing_positional(n))
                            },
                            None => if named.contains_key(ph) {
                                prefixed(named[ph], format_from(p, j + 1, auto, positional, named))
                            } else {
                                Err(missing_named(ph))
                            },
                        }
                    }
                },
            }
        }
    } else if p[i] == '}' {
        if i + 1 < p.len() && p[i + 1] == '}' {
            prefixed(seq!['}'], format_from(p, i + 2, auto, positional, named))
        } else {
            Err(FormatFault::InvalidPlaceholder(seq!['}']))
        }
    } else {
        prefixed(seq![p[i]], format_from(p, i + 1, auto, positional, named))
    }
}

/// The formatting of a whole pattern.
pub open spec fn formatted(p: Seq<char>, args: FormatArgs) -> Result<Seq<char>, FormatFault> {
    format_from(p, 0, 1, args.positional_view(), args.named_view())
}

proof fn lemma_prefixed(a: Seq<char>, b: Seq<char>, r: Result<Seq<char>, FormatFault>)
    ensures
        prefixed(a, prefixed(b, r)) == prefixed(a + b, r),
{
    match r {
        Ok(t) => {
            assert(a + (b + t) =~= (a + b) + t);
        },
        Err(_) => {},
    }
}

fn missing_positional_error(n: usize) -> (e: FormatError)
    ensures
        e@ == missing_positional(n as nat),
{
    let mut m = chars_of("positional argument ");
    push_digits(n as u64, &mut m);
    FormatError::MissingArgument(string_of(&m))
}

fn missing_named_error(name: &Vec<char>) -> (e: FormatError)
    ensures
        e@ == missing_named(name@),
{
    let mut m = chars_of("named argument '");
    append_chars(&mut m, name);
    m.push('\'');
    assert(m@ =~= "named argument '"@ + name@ + seq!['\'']);
    FormatError::MissingArgument(string_of(&m))
}

/// Formats `pattern`, filling each placeholder with its value: `{}` takes
/// the positional values in turn, `{n}` the positional value numbered `n`
/// (from 1), and `{name}` the named value; `{{` and `}}` stand for braces.
pub fn dynamic_format(pattern: &str, args: &FormatArgs) -> (r: Result<String, FormatError>)
    ensures
        match r {
            Ok(s) => formatted(pattern@, *args) == Ok::<Seq<char>, FormatFault>(s@),
            Err(e) => formatted(pattern@, *args) == Err::<Seq<char>, FormatFault>(e@),
        },
{
    let p = chars_of(pattern);
    let n = p.len();
    let close: Vec<char> = vec!['}'];
    assert(close@ =~= seq!['}']);
    let ghost pos = args.positional_view();
    let ghost named = args.named_view();
    let ghost whole = format_from(p@, 0, 1, pos, named);
    let mut out: Vec<char> = Vec::new();
    let mut i: usize = 0;
    let mut auto: usize = 1;
    proof {
        lemma_prefixed_empty(whole);
    }
    while i < n
        invariant
            n == p.len(),
            p@ == pattern@,
            close@ == seq!['}'],
            pos == args.positional_view(),
            named == args.named_view(),
            whole == format_from(p@, 0, 1, pos, named),
            i <= n,
            1 <= auto <= i + 1,
            whole == prefixed(out@, format_from(p@, i as int, auto as nat, pos, named)),
        decreases n - i,
    {
        let c = p[i];
        let ghost rest = format_from(p@, i as int, auto as nat, pos, named);
        if c == '{' {
            if i + 1 < n && p[i + 1] == '{' {
                assert(rest == prefixed(seq!['{'], format_from(p@, i + 2, auto as nat, pos, named)));
                proof {
                    lemma_prefixed(out@, seq!['{'], format_from(p@, i + 2, auto as nat, pos, named));
                }
                let ghost before = out@;
                out.push('{');
                assert(out@ =~= before + seq!['{']);
                i = i + 2;
            } else {
                match find_from(&p, &close, i + 1) {
                    None => {
                        let tail = slice_chars(&p, i, n);
                        assert(tail@ =~= p@.skip(i as int));
                        return Err(FormatError::InvalidPlaceholder(string_of(&tail)));
                    },
                    Some(j) => {
                        proof {
                            lemma_first_at_bounds(p@, close@, i + 1);
                        }
                        let ph = slice_chars(&p, i + 1, j);
                        if ph.len() == 0 {
                            if auto > args.positional_count() {
                                return Err(missing_positional_error(auto));
                            }
                            let value = chars_of(args.positional_at(auto - 1).as_str());
                            assert(ph@.len() == 0);
                            assert(rest == prefixed(
                                value@,
                                format_from(p@, j + 1, (auto + 1) as nat, pos, named),
                            ));
                            proof {
                                lemma_prefixed(
                                    out@,
                                    value@,
                                    format_from(p@, j + 1, (auto + 1) as nat, pos, named),
                                );
                            }
                            append_chars(&mut out, &value);
                            auto = auto + 1;
                        } else {
                            match parse_index(&ph) {
                                Some(k) => {
                                    if k == 0 || k > args.positional_count() {
                                        return Err(missing_positional_error(k));
                                    }
                                    let value = chars_of(args.positional_at(k - 1).as_str());
                                    assert(rest == prefixed(
                                        value@,
                                        format_from(p@, j + 1, auto as nat, pos, named),
                                    ));
                                    proof {
                                        lemma_prefixed(
                                            out@,
                                            value@,
                                            format_from(p@, j + 1, auto as nat, pos, named),
                                        );
                                    }
                                    append_chars(&mut out, &value);
                                },
                                None => {
                                    match args.named_value(&ph) {
                                        Some(v) => {
                                            let value = chars_of(v.as_str());
                                            assert(rest == prefixed(
                                                value@,
                                                format_from(p@, j + 1, auto as nat, pos, named),
                                            ));
                                            proof {
                                                lemma_prefixed(
                                                    out@,
                                                    value@,
                                                    format_from(p@, j + 1, auto as nat, pos, named),
                                                );
                                            }
                                            append_chars(&mut out, &value);
                                        },
                                        None => {
                                            return Err(missing_named_error(&ph));
                                        },
                                    }
                                },
                            }
                        }
                        i = j + 1;
                    },
                }
            }
        } else if c == '}' {
            if i + 1 < n && p[i + 1] == '}' {
                assert(rest == prefixed(seq!['}'], format_from(p@, i + 2, auto as nat, pos, named)));
                proof {
                    lemma_prefixed(out@, seq!['}'], format_from(p@, i + 2, auto as nat, pos, named));
                }
                let ghost before = out@;
                out.push('}');
                assert(out@ =~= before + seq!['}']);
                i = i + 2;
            } else {
                return Err(FormatError::InvalidPlaceholder(string_of(&close)));
            }
        } else {
            assert(rest == prefixed(seq![c], format_from(p@, i + 1, auto as nat, pos, named)));
            proof {
                lemma_prefixed(out@, seq![c], format_from(p@, i + 1, auto as nat, pos, named));
            }
            let ghost before = out@;
            out.push(c);
            assert(out@ =~= before + seq![c]);
            i = i + 1;
        }
    }
    assert(out@ + Seq::<char>::empty() =~= out@);
    Ok(string_of(&out))
}

proof fn lemma_prefixed_empty(r: Result<Seq<char>, FormatFault>)
    ensures
        prefixed(Seq::<char>::empty(), r) == r,
{
    match r {
        Ok(t) => {
            assert(Seq::<char>::empty() + t =~= t);
        },
        Err(_) => {},
    }
}

} // verus!
