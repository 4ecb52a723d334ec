//! Rewriting the shell syntax of a script into calls of the scripting
//! language before the script runs: `$> cmd | cmd` lines become
//! `os.pipe_exec(...)`, `$(cmd | cmd)` becomes `os.pipeline(...)`, and
//! `${expr}` inside double-quoted strings is spliced in with `tostring`.

use vstd::prelude::*;
use crate::text::{append_chars, chars_of, slice_chars, string_of, trimmed, trimmed_range};

verus! {

/// The state of the split of a shell command into words, after a prefix:
/// the finished words, the word being read, and whether a double quote is
/// open.
pub open spec fn split_state(s: Seq<char>) -> (Seq<Seq<char>>, Seq<char>, bool)
    decreases s.len(),
{
    if s.len() == 0 {
        (seq![], seq![], false)
    } else {
        let (words, cur, quoted) = split_state(s.drop_last());
        let c = s.last();
        if c == '"' {
            (words, cur, !quoted)
        } else if (c == ' ' || c == '\t') && !quoted {
            if cur.len() > 0 {
                (words.push(cur), seq![], quoted)
            } else {
                (words, cur, quoted)
            }
        } else {
            (words, cur.push(c), quoted)
        }
    }
}

/// The words of a shell command: split at spaces and tabs outside double
/// quotes, the quotes themselves dropped, and empty words left out.
pub open spec fn shell_words(s: Seq<char>) -> Seq<Seq<char>> {
    let (words, cur, _) = split_state(s);
    if cur.len() > 0 {
        words.push(cur)
    } else {
        words
    }
}

/// Splits a shell command into its words.
pub fn parse_shell_command(cmd: &str) -> (r: Vec<String>)
    ensures
        r@.map_values(|w: String| w@) == shell_words(cmd@),
{
    let s = chars_of(cmd);
    let mut words: Vec<String> = Vec::new();
    let mut cur: Vec<char> = Vec::new();
    let mut quoted = false;
    let mut i: usize = 0;
    assert(s@.take(0) =~= Seq::<char>::empty());
    while i < s.len()
        invariant
            i <= s.len(),
            s@ == cmd@,
            split_state(s@.take(i as int)) == (words@.map_values(|w: String| w@), cur@, quoted),
        decreases s.len() - i,
    {
        let c = s[i];
        assert(s@.take(i + 1).drop_last() =~= s@.take(i as int));
        let ghost before = words@;
        if c == '"' {
            quoted = !quoted;
        } else if (c == ' ' || c == '\t') && !quoted {
            if cur.len() > 0 {
                let ghost word = cur@;
                words.push(string_of(&cur));
                cur = Vec::new();
                assert(words@.map_values(|w: String| w@) =~= before.map_values(|w: String| w@).push(
                    word,
                ));
            }
        } else {
            cur.push(c);
        }
        i = i + 1;
    }
    assert(s@.take(s.len() as int) =~= s@);
    if cur.len() > 0 {
        let ghost before = words@;
        words.push(string_of(&cur));
        assert(words@.map_values(|w: String| w@) =~= before.map_values(|w: String| w@).push(cur@));
    }
    words
}

/// The parts joined, with `sep` between each two.
pub open spec fn joined(parts: Seq<Seq<char>>, sep: Seq<char>) -> Seq<char>
    decreases parts.len(),
{
    if parts.len() == 0 {
        seq![]
    } else if parts.len() == 1 {
        parts[0]
    } else {
        joined(parts.drop_last(), sep) + sep + parts.last()
    }
}

/// A word in double quotes.
pub open spec fn quoted_word(w: Seq<char>) -> Seq<char> {
    seq!['"'] + w + seq!['"']
}

/// The separator of the stages and words written out.
pub open spec fn comma() -> Seq<char> {
    seq![',', ' ']
}

/// A stage written between backquotes names a callable of the script.
pub open spec fn is_callable_ref(c: Seq<char>) -> bool {
    c.len() >= 2 && c[0] == '`' && c.last() == '`'
}

/// The stage list that one command of a shell line is written as: a
/// backquoted name as `{name}`, anything else as its words in quotes,
/// `{"ls", "-la"}`.
pub open spec fn stage_text(c: Seq<char>) -> Seq<char> {
    if is_callable_ref(c) {
        seq!['{'] + c.subrange(1, c.len() - 1) + seq!['}']
    } else {
        seq!['{'] + joined(shell_words(c).map_values(|w: Seq<char>| quoted_word(w)), comma())
            + seq!['}']
    }
}

fn join_chars(parts: &Vec<Vec<char>>) -> (r: Vec<char>)
    ensures
        r@ == joined(parts@.map_values(|p: Vec<char>| p@), comma()),
{
    let ghost views = parts@.map_values(|p: Vec<char>| p@);
    let mut out: Vec<char> = Vec::new();
    let mut k: usize = 0;
    assert(views.take(0) =~= Seq::<Seq<char>>::empty());
    while k < parts.len()
        invariant
            k <= parts.len(),
            views == parts@.map_values(|p: Vec<char>| p@),
            out@ == joined(views.take(k as int), comma()),
        decreases parts.len() - k,
    {
        let ghost pre = out@;
        if k > 0 {
            out.push(',');
            out.push(' ');
        }
        append_chars(&mut out, &parts[k]);
        k = k + 1;
        assert(views.take(k as int).drop_last() =~= views.take(k - 1));
        if k > 1 {
            assert(out@ =~= pre + comma() + views[k - 1]);
        } else {
            assert(out@ =~= views.take(k as int)[0]);
        }
    }
    assert(views.take(parts.len() as int) =~= views);
    out
}

/// Writes one command of a shell line as a stage list.
pub fn stage_list(cmd: &str) -> (r: String)
    ensures
        r@ == stage_text(cmd@),
{
    let c = chars_of(cmd);
    let n = c.len();
    let mut out: Vec<char> = vec!['{'];
    if n >= 2 && c[0] == '`' && c[n - 1] == '`' {
        let inner = slice_chars(&c, 1, n - 1);
        append_chars(&mut out, &inner);
    } else {
        let words = parse_shell_command(cmd);
        let mut quoted: Vec<Vec<char>> = Vec::new();
        let mut k: usize = 0;
        while k < words.len()
            invariant
                k <= words.len(),
                quoted@.map_values(|p: Vec<char>| p@) == words@.take(k as int).map_values(
                    |w: String| quoted_word(w@),
                ),
            decreases words.len() - k,
        {
            let mut q: Vec<char> = vec!['"'];
            let w = chars_of(words[k].as_str());
            append_chars(&mut q, &w);
            q.push('"');
            assert(q@ =~= quoted_word(words@[k as int]@));
            assert(words@.take(k + 1) =~= words@.take(k as int).push(words@[k as int]));
            let ghost before = quoted@;
            let ghost qv = q@;
            quoted.push(q);
            assert(quoted@.map_values(|p: Vec<char>| p@) =~= before.map_values(|p: Vec<char>| p@).push(
                qv,
            ));
            k = k + 1;
            assert(quoted@.map_values(|p: Vec<char>| p@) =~= words@.take(k as int).map_values(
                |w: String| quoted_word(w@),
            ));
        }
        assert(words@.take(words.len() as int) =~= words@);
        assert(words@.map_values(|w: String| quoted_word(w@)) =~= shell_words(cmd@).map_values(
            |w: Seq<char>| quoted_word(w),
        ));
        let body = join_chars(&quoted);
        append_chars(&mut out, &body);
    }
    out.push('}');
    assert(out@ =~= stage_text(cmd@));
    string_of(&out)
}

/// Writes each command of a shell line as a stage list.
pub fn get_lua_commands(commands: Vec<&str>) -> (r: Vec<String>)
    ensures
        r@.len() == commands@.len(),
        forall|i: int| 0 <= i < r@.len() ==> (#[trigger] r@[i])@ == stage_text(commands@[i]@),
{
    let mut r: Vec<String> = Vec::new();
    let mut k: usize = 0;
    while k < commands.len()
        invariant
            k <= commands.len(),
            r@.len() == k,
            forall|i: int| 0 <= i < k ==> (#[trigger] r@[i])@ == stage_text(commands@[i]@),
        decreases commands.len() - k,
    {
        r.push(stage_list(commands[k]));
        k = k + 1;
    }
    r
}

/// The pieces of `s` between the separators `sep`: one more piece than
/// there are separators, empty pieces kept.
pub open spec fn split_on(s: Seq<char>, sep: char) -> Seq<Seq<char>>
    decreases s.len(),
{
    if s.len() == 0 {
        seq![seq![]]
    } else {
        let p = split_on(s.drop_last(), sep);
        if s.last() == sep {
            p.push(seq![])
        } else {
            p.update(p.len() - 1, p.last().push(s.last()))
        }
    }
}

/// Whether a single-quoted string is open before `position` in `text`: a
/// quote opens or closes one, and a backslash takes the next character
/// with it.
pub open spec fn quote_state(s: Seq<char>) -> (bool, bool)
    decreases s.len(),
{
    if s.len() == 0 {
        (false, false)
    } else {
        let (open, escaped) = quote_state(s.drop_last());
        let c = s.last();
        if escaped {
            (open, false)
        } else if c == '\\' {
            (open, true)
        } else if c == '\'' {
            (!open, false)
        } else {
            (open, false)
        }
    }
}

/// A single-quoted string is open at `position` of `s`.
pub open spec fn inside_single_quotes(s: Seq<char>, position: int) -> bool {
    quote_state(s.take(if position < s.len() {
        position
    } else {
        s.len() as int
    })).0
}

fn inside_quotes(s: &Vec<char>, position: usize) -> (r: bool)
    ensures
        r == inside_single_quotes(s@, position as int),
{
    let end = if position < s.len() {
        position
    } else {
        s.len()
    };
    let mut open = false;
    let mut escaped = false;
    let mut i: usize = 0;
    assert(s@.take(0) =~= Seq::<char>::empty());
    while i < end
        invariant
            i <= end <= s.len(),
            quote_state(s@.take(i as int)) == (open, escaped),
        decreases end - i,
    {
        assert(s@.take(i + 1).drop_last() =~= s@.take(i as int));
        let c = s[i];
        if escaped {
            escaped = false;
        } else if c == '\\' {
            escaped = true;
        } else if c == '\'' {
            open = !open;
        }
        i = i + 1;
    }
    open
}

/// Whether `position` (counted in characters) of `text` lies inside a
/// single-quoted string.
pub fn is_inside_single_quotes(text: &str, position: usize) -> (r: bool)
    ensures
        r == inside_single_quotes(text@, position as int),
{
    let s = chars_of(text);
    inside_quotes(&s, position)
}

/// The arguments of the call that a shell line is written as: the line is
/// trimmed and split at `|`, and each command, trimmed, becomes a stage list.
pub open spec fn call_args(cmd: Seq<char>) -> Seq<char> {
    joined(
        split_on(trimmed(cmd), '|').map_values(|c: Seq<char>| stage_text(trimmed(c))),
        comma(),
    )
}

fn split_bars(s: &Vec<char>) -> (r: Vec<Vec<char>>)
    ensures
        r@.map_values(|p: Vec<char>| p@) == split_on(s@, '|'),
{
    let mut pieces: Vec<Vec<char>> = Vec::new();
    let mut cur: Vec<char> = Vec::new();
    let mut i: usize = 0;
    assert(s@.take(0) =~= Seq::<char>::empty());
    assert(pieces@.map_values(|p: Vec<char>| p@).push(cur@) =~= seq![Seq::<char>::empty()]);
    while i < s.len()
        invariant
            i <= s.len(),
            split_on(s@.take(i as int), '|') == pieces@.map_values(|p: Vec<char>| p@).push(cur@),
        decreases s.len() - i,
    {
        assert(s@.take(i + 1).drop_last() =~= s@.take(i as int));
        let c = s[i];
        let ghost before = pieces@.map_values(|p: Vec<char>| p@);
        let ghost cv = cur@;
        if c == '|' {
            let done = cur;
            pieces.push(done);
            cur = Vec::new();
            assert(pieces@.map_values(|p: Vec<char>| p@) =~= before.push(cv));
            assert(pieces@.map_values(|p: Vec<char>| p@).push(cur@) =~= before.push(cv).push(
                seq![],
            ));
        } else {
            cur.push(c);
            assert(before.push(cv).update(before.len() as int, cv.push(c)) =~= before.push(
                cur@,
            ));
        }
        i = i + 1;
    }
    assert(s@.take(s.len() as int) =~= s@);
    let ghost before = pieces@.map_values(|p: Vec<char>| p@);
    let ghost cv = cur@;
    pieces.push(cur);
    assert(pieces@.map_values(|p: Vec<char>| p@) =~= before.push(cv));
    pieces
}

fn call_args_of(s: &Vec<char>, lo: usize, hi: usize) -> (r: Vec<char>)
    requires
        lo <= hi <= s.len(),
    ensures
        r@ == call_args(s@.subrange(lo as int, hi as int)),
{
    let cmd = chars_of(trimmed_range(s, lo, hi).as_str());
    let pieces = split_bars(&cmd);
    let mut stages: Vec<Vec<char>> = Vec::new();
    let mut k: usize = 0;
    let ghost views = pieces@.map_values(|p: Vec<char>| p@);
    while k < pieces.len()
        invariant
            k <= pieces.len(),
            views == pieces@.map_values(|p: Vec<char>| p@),
            stages@.map_values(|p: Vec<char>| p@) == views.take(k as int).map_values(
                |c: Seq<char>| stage_text(trimmed(c)),
            ),
        decreases pieces.len() - k,
    {
        let piece = &pieces[k];
        let t = trimmed_range(piece, 0, piece.len());
        assert(piece@.subrange(0, piece@.len() as int) =~= piece@);
        let st = chars_of(stage_list(t.as_str()).as_str());
        let ghost before = stages@.map_values(|p: Vec<char>| p@);
        let ghost sv = st@;
        stages.push(st);
        assert(stages@.map_values(|p: Vec<char>| p@) =~= before.push(sv));
        assert(views.take(k + 1) =~= views.take(k as int).push(views[k as int]));
        k = k + 1;
        assert(stages@.map_values(|p: Vec<char>| p@) =~= views.take(k as int).map_values(
            |c: Seq<char>| stage_text(trimmed(c)),
        ));
    }
    assert(views.take(pieces.len() as int) =~= views);
    join_chars(&stages)
}

/// What `Regex::split` gives for `pattern` on `text`: the pieces between
/// successive matches, or nothing when `pattern` is not a valid pattern.
pub uninterp spec fn regex_pieces(pattern: Seq<char>, text: Seq<char>) -> Option<Seq<Seq<char>>>;

/// What `Regex::captures_iter` gives for `pattern` on `text`: each match's
/// text with the text of its first group, or nothing when `pattern` is not
/// a valid pattern.
pub uninterp spec fn regex_matches(pattern: Seq<char>, text: Seq<char>) -> Option<
    Seq<(Seq<char>, Option<Seq<char>>)>,
>;

/// The texts of a list of strings.
pub open spec fn texts(v: Seq<String>) -> Seq<Seq<char>> {
    v.map_values(|s: String| s@)
}

/// The texts of a list of matches.
pub open spec fn match_texts(v: Seq<(String, Option<String>)>) -> Seq<(Seq<char>, Option<Seq<char>>)> {
    v.map_values(
        |m: (String, Option<String>)|
            (
                m.0@,
                match m.1 {
                    Some(g) => Some(g@),
                    None => None,
                },
            ),
    )
}

/// Relies on the regex crate: `Regex::new` compiles `pattern` (failing on an
/// invalid one) and `Regex::split` gives the pieces of `text` between its
/// successive non-overlapping matches.
#[verifier::external_body]
pub(crate) fn regex_split(pattern: &str, text: &str) -> (r: Option<Vec<String>>)
    ensures
        match r {
            Some(v) => regex_pieces(pattern@, text@) == Some(texts(v@)),
            None => regex_pieces(pattern@, text@) is None,
        },
{
    regex::Regex::new(pattern).ok().map(|re| re.split(text).map(|p| p.to_string()).collect())
}

/// Relies on the regex crate: `Regex::new` compiles `pattern` (failing on an
/// invalid one) and `Regex::captures_iter` gives the successive
/// non-overlapping matches in `text`, each with its first group.
#[verifier::external_body]
pub(crate) fn regex_captures(pattern: &str, text: &str) -> (r: Option<Vec<(String, Option<String>)>>)
    ensures
        match r {
            Some(v) => regex_matches(pattern@, text@) == Some(match_texts(v@)),
            None => regex_matches(pattern@, text@) is None,
        },
{
    regex::Regex::new(pattern).ok().map(
        |re|
            re.captures_iter(text).map(
                |c| (c[0].to_string(), c.get(1).map(|g| g.as_str().to_string())),
            ).collect(),
    )
}

/// The pieces with `reps[k]` put after piece `k`, from piece `k` on; a
/// replacement goes only between two pieces.
pub open spec fn woven(pieces: Seq<Seq<char>>, reps: Seq<Seq<char>>, k: int) -> Seq<char>
    decreases pieces.len() - k,
{
    if k < 0 || k >= pieces.len() {
        seq![]
    } else if k < reps.len() && k + 1 < pieces.len() {
        pieces[k] + reps[k] + woven(pieces, reps, k + 1)
    } else {
        pieces[k] + woven(pieces, reps, k + 1)
    }
}

fn weave(pieces: &Vec<String>, reps: &Vec<Vec<char>>) -> (r: Vec<char>)
    ensures
        r@ == woven(texts(pieces@), reps@.map_values(|v: Vec<char>| v@), 0),
{
    let ghost ps = texts(pieces@);
    let ghost rs = reps@.map_values(|v: Vec<char>| v@);
    let mut out: Vec<char> = Vec::new();
    let mut k: usize = 0;
    while k < pieces.len()
        invariant
            k <= pieces.len(),
            ps == texts(pieces@),
            rs == reps@.map_values(|v: Vec<char>| v@),
            out@ + woven(ps, rs, k as int) == woven(ps, rs, 0),
        decreases pieces.len() - k,
    {
        let ghost before = out@;
        let piece = chars_of(pieces[k].as_str());
        append_chars(&mut out, &piece);
        if k < reps.len() && k + 1 < pieces.len() {
            append_chars(&mut out, &reps[k]);
        }
        k = k + 1;
        assert(before + woven(ps, rs, k - 1) =~= out@ + woven(ps, rs, k as int));
    }
    assert(out@ =~= woven(ps, rs, 0));
    out
}

/// The two shell forms.
#[derive(PartialEq, Eq, Structural, Clone, Copy)]
pub enum ShellForm {
    /// `$> cmd | cmd`, run for its effect.
    Exec,
    /// `$(cmd | cmd)`, whose output is the value.
    Sub,
}

/// The pattern of a shell form: `$>`, white space, then the command up to
/// the end of the line; or `$(`, a non-empty command without `)`, and `)`.
pub open spec fn form_pattern(f: ShellForm) -> Seq<char> {
    match f {
        ShellForm::Exec => "\\$>\\s*([^\\r\\n]+)"@,
        ShellForm::Sub => "\\$\\(([^)]+)\\)"@,
    }
}

/// The function that a shell form is written as a call of.
pub open spec fn form_call(f: ShellForm) -> Seq<char> {
    match f {
        ShellForm::Exec => "os.pipe_exec"@,
        ShellForm::Sub => "os.pipeline"@,
    }
}

/// The call that a match of a shell form is written as, from its command.
pub open spec fn shell_call(f: ShellForm, command: Option<Seq<char>>) -> Seq<char> {
    form_call(f) + seq!['('] + call_args(
        match command {
            Some(c) => c,
            None => seq![],
        },
    ) + seq![')']
}

/// The pieces and matches of a shell form woven back together from piece
/// `k` on, `before` being the text passed so far: a match that starts
/// inside a single-quoted string stays as it is, any other becomes its call.
pub open spec fn shell_woven(
    pieces: Seq<Seq<char>>,
    matches: Seq<(Seq<char>, Option<Seq<char>>)>,
    f: ShellForm,
    k: int,
    before: Seq<char>,
) -> Seq<char>
    decreases pieces.len() - k,
{
    if k < 0 || k >= pieces.len() {
        seq![]
    } else {
        let at = before + pieces[k];
        if k < matches.len() && k + 1 < pieces.len() {
            pieces[k] + (if quote_state(at).0 {
                matches[k].0
            } else {
                shell_call(f, matches[k].1)
            }) + shell_woven(pieces, matches, f, k + 1, at + matches[k].0)
        } else {
            pieces[k] + shell_woven(pieces, matches, f, k + 1, at)
        }
    }
}

/// `text` with each match of the shell form `f` outside single-quoted
/// strings written as a call.
pub open spec fn shell_rewritten(text: Seq<char>, f: ShellForm) -> Seq<char> {
    match (regex_pieces(form_pattern(f), text), regex_matches(form_pattern(f), text)) {
        (Some(p), Some(m)) => shell_woven(p, m, f, 0, seq![]),
        _ => text,
    }
}

/// The quote state after `before` and then `more`, from the state after
/// `before`.
fn feed_quotes(state: (bool, bool), more: &Vec<char>, before: Ghost<Seq<char>>) -> (r: (bool, bool))
    requires
        state == quote_state(before@),
    ensures
        r == quote_state(before@ + more@),
{
    let (mut open, mut escaped) = state;
    let mut i: usize = 0;
    assert(before@ + more@.take(0) =~= before@);
    while i < more.len()
        invariant
            i <= more.len(),
            (open, escaped) == quote_state(before@ + more@.take(i as int)),
        decreases more.len() - i,
    {
        assert((before@ + more@.take(i + 1)).drop_last() =~= before@ + more@.take(i as int));
        assert((before@ + more@.take(i + 1)).last() == more@[i as int]);
        let c = more[i];
        if escaped {
            escaped = false;
        } else if c == '\\' {
            escaped = true;
        } else if c == '\'' {
            open = !open;
        }
        i = i + 1;
    }
    assert(more@.take(more.len() as int) =~= more@);
    (open, escaped)
}

/// Weaves the pieces and matches of a shell form back together, writing
/// each match outside single-quoted strings as a call.
pub fn splice_shell_calls(
    pieces: &Vec<String>,
    matches: &Vec<(String, Option<String>)>,
    f: ShellForm,
) -> (r: String)
    ensures
        r@ == shell_woven(texts(pieces@), match_texts(matches@), f, 0, seq![]),
{
    let ghost ps = texts(pieces@);
    let ghost ms = match_texts(matches@);
    let call = match f {
        ShellForm::Exec => chars_of("os.pipe_exec"),
        ShellForm::Sub => chars_of("os.pipeline"),
    };
    let mut out: Vec<char> = Vec::new();
    let mut state: (bool, bool) = (false, false);
    let ghost mut before: Seq<char> = seq![];
    let mut k: usize = 0;
    while k < pieces.len()
        invariant
            k <= pieces.len(),
            ps == texts(pieces@),
            ms == match_texts(matches@),
            call@ == form_call(f),
            state == quote_state(before),
            out@ + shell_woven(ps, ms, f, k as int, before) == shell_woven(ps, ms, f, 0, seq![]),
        decreases pieces.len() - k,
    {
        let ghost prior = out@;
        let ghost was = before;
        let piece = chars_of(pieces[k].as_str());
        append_chars(&mut out, &piece);
        state = feed_quotes(state, &piece, Ghost(before));
        proof {
            before = before + piece@;
        }
        if k < matches.len() && k + 1 < pieces.len() {
            let whole = chars_of(matches[k].0.as_str());
            if state.0 {
                append_chars(&mut out, &whole);
            } else {
                let mut piece = Vec::new();
                append_chars(&mut piece, &call);
                piece.push('(');
                let command = match &matches[k].1 {
                    Some(g) => chars_of(g.as_str()),
                    None => Vec::new(),
                };
                let args = call_args_of(&command, 0, command.len());
                assert(command@.subrange(0, command@.len() as int) =~= command@);
                append_chars(&mut piece, &args);
                piece.push(')');
                assert(piece@ =~= shell_call(f, ms[k as int].1));
                append_chars(&mut out, &piece);
            }
            state = feed_quotes(state, &whole, Ghost(before));
            proof {
                before = before + whole@;
            }
        }
        k = k + 1;
        assert(prior + shell_woven(ps, ms, f, k - 1, was) =~= out@ + shell_woven(
            ps,
            ms,
            f,
            k as int,
            before,
        ));
    }
    assert(out@ =~= shell_woven(ps, ms, f, 0, seq![]));
    string_of(&out)
}

fn rewrite_form(text: &str, f: ShellForm) -> (r: String)
    ensures
        r@ == shell_rewritten(text@, f),
{
    let pattern = match f {
        ShellForm::Exec => "\\$>\\s*([^\\r\\n]+)",
        ShellForm::Sub => "\\$\\(([^)]+)\\)",
    };
    match (regex_split(pattern, text), regex_captures(pattern, text)) {
        (Some(pieces), Some(matches)) => splice_shell_calls(&pieces, &matches, f),
        _ => text.to_string(),
    }
}

/// Writes each `$> cmd | cmd` shell line outside single-quoted strings as a
/// call `os.pipe_exec({...}, {...})`.
pub fn replace_shell_exec(text: &str) -> (r: String)
    ensures
        r@ == shell_rewritten(text@, ShellForm::Exec),
{
    rewrite_form(text, ShellForm::Exec)
}

/// Writes each `$(cmd | cmd)` substitution outside single-quoted strings as
/// a call `os.pipeline({...}, {...})`.
pub fn replace_sub_shell(text: &str) -> (r: String)
    ensures
        r@ == shell_rewritten(text@, ShellForm::Sub),
{
    rewrite_form(text, ShellForm::Sub)
}

/// The pattern of a double-quoted string literal with backslash escapes.
pub open spec fn string_pattern() -> Seq<char> {
    "\"((?:[^\"\\\\]|\\\\.)*)\""@
}

/// The pattern of a `${expr}` piece, the expression ending at the first `}`.
pub open spec fn var_pattern() -> Seq<char> {
    "\\$\\{(.*?)}"@
}

/// The group of a match, or nothing.
pub open spec fn group_of(m: (Seq<char>, Option<Seq<char>>)) -> Seq<char> {
    match m.1 {
        Some(g) => g,
        None => seq![],
    }
}

/// What a `${expr}` piece is written as.
pub open spec fn var_text(m: (Seq<char>, Option<Seq<char>>)) -> Seq<char> {
    "\" .. tostring("@ + group_of(m) + ") .. \""@
}

/// The contents of a string with its `${expr}` pieces spliced in.
pub open spec fn vars_spliced(t: Seq<char>) -> Seq<char> {
    match (regex_pieces(var_pattern(), t), regex_matches(var_pattern(), t)) {
        (Some(p), Some(m)) => woven(p, m.map_values(|x: (Seq<char>, Option<Seq<char>>)| var_text(x)), 0),
        _ => t,
    }
}

/// What a double-quoted string is written as.
pub open spec fn string_text(m: (Seq<char>, Option<Seq<char>>)) -> Seq<char> {
    seq!['"'] + vars_spliced(group_of(m)) + seq!['"']
}

/// `text` with the `${expr}` pieces of its double-quoted strings spliced in.
pub open spec fn interpolated(text: Seq<char>) -> Seq<char> {
    match (regex_pieces(string_pattern(), text), regex_matches(string_pattern(), text)) {
        (Some(p), Some(m)) => woven(p, m.map_values(|x: (Seq<char>, Option<Seq<char>>)| string_text(x)), 0),
        _ => text,
    }
}

fn group_chars(m: &(String, Option<String>)) -> (r: Vec<char>)
    ensures
        r@ == group_of(match_texts(seq![*m])[0]),
{
    match &m.1 {
        Some(g) => chars_of(g.as_str()),
        None => Vec::new(),
    }
}

/// Weaves the pieces and matches of `${expr}` back together, each match
/// written as `" .. tostring(expr) .. "`.
pub fn splice_vars(pieces: &Vec<String>, matches: &Vec<(String, Option<String>)>) -> (r: Vec<char>)
    ensures
        r@ == woven(
            texts(pieces@),
            match_texts(matches@).map_values(|x: (Seq<char>, Option<Seq<char>>)| var_text(x)),
            0,
        ),
{
    let open = chars_of("\" .. tostring(");
    let close = chars_of(") .. \"");
    let mut reps: Vec<Vec<char>> = Vec::new();
    let mut k: usize = 0;
    let ghost want = match_texts(matches@).map_values(|x: (Seq<char>, Option<Seq<char>>)| var_text(x));
    while k < matches.len()
        invariant
            k <= matches.len(),
            open@ == "\" .. tostring("@,
            close@ == ") .. \""@,
            want == match_texts(matches@).map_values(|x: (Seq<char>, Option<Seq<char>>)| var_text(x)),
            reps@.map_values(|v: Vec<char>| v@) == want.take(k as int),
        decreases matches.len() - k,
    {
        let mut rep = Vec::new();
        append_chars(&mut rep, &open);
        let g = group_chars(&matches[k]);
        assert(match_texts(seq![matches@[k as int]])[0] == match_texts(matches@)[k as int]);
        append_chars(&mut rep, &g);
        append_chars(&mut rep, &close);
        let ghost before = reps@.map_values(|v: Vec<char>| v@);
        let ghost rv = rep@;
        reps.push(rep);
        assert(reps@.map_values(|v: Vec<char>| v@) =~= before.push(rv));
        assert(want.take(k + 1) =~= want.take(k as int).push(want[k as int]));
        k = k + 1;
    }
    assert(want.take(matches.len() as int) =~= want);
    weave(pieces, &reps)
}

fn splice_vars_of(t: &Vec<char>) -> (r: Vec<char>)
    ensures
        r@ == vars_spliced(t@),
{
    let text = string_of(t);
    let pattern = "\\$\\{(.*?)}";
    match (regex_split(pattern, text.as_str()), regex_captures(pattern, text.as_str())) {
        (Some(pieces), Some(matches)) => splice_vars(&pieces, &matches),
        _ => chars_of(text.as_str()),
    }
}

/// Splices `${expr}` pieces inside double-quoted strings of a script into
/// the string by concatenation: `"a ${x} b"` becomes
/// `"a " .. tostring(x) .. " b"`.
pub fn interpolate_strings(text: &str) -> (r: String)
    ensures
        r@ == interpolated(text@),
{
    let pattern = "\"((?:[^\"\\\\]|\\\\.)*)\"";
    let (pieces, matches) = match (regex_split(pattern, text), regex_captures(pattern, text)) {
        (Some(p), Some(m)) => (p, m),
        _ => {
            return text.to_string();
        },
    };
    let ghost want = match_texts(matches@).map_values(|x: (Seq<char>, Option<Seq<char>>)| string_text(x));
    let mut reps: Vec<Vec<char>> = Vec::new();
    let mut k: usize = 0;
    while k < matches.len()
        invariant
            k <= matches.len(),
            want == match_texts(matches@).map_values(|x: (Seq<char>, Option<Seq<char>>)| string_text(x)),
            reps@.map_values(|v: Vec<char>| v@) == want.take(k as int),
        decreases matches.len() - k,
    {
        let g = group_chars(&matches[k]);
        assert(match_texts(seq![matches@[k as int]])[0] == match_texts(matches@)[k as int]);
        let inner = splice_vars_of(&g);
        let mut rep: Vec<char> = vec!['"'];
        append_chars(&mut rep, &inner);
        rep.push('"');
        assert(rep@ =~= want[k as int]);
        let ghost before = reps@.map_values(|v: Vec<char>| v@);
        let ghost rv = rep@;
        reps.push(rep);
        assert(reps@.map_values(|v: Vec<char>| v@) =~= before.push(rv));
        assert(want.take(k + 1) =~= want.take(k as int).push(want[k as int]));
        k = k + 1;
    }
    assert(want.take(matches.len() as int) =~= want);
    let out = weave(&pieces, &reps);
    string_of(&out)
}

} // verus!
