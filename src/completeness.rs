//! Deciding whether the text typed so far at the interactive prompt forms a
//! complete statement, or whether the prompt should ask for more lines.

use vstd::prelude::*;
use crate::preprocessor::{regex_captures, regex_matches};
use crate::text::{
    chars_of, contains, contains_exec, find_from, first_at, lemma_first_at_bounds, is_white, is_white_space, is_word,
    lower_of, lowercase, occurs_at, occurs_at_exec, string_of, trimmed, trimmed_range,
};

verus! {

/// Where the scanner that blanks out string literals and comments stands.
pub ghost enum Lex {
    Code,
    /// Inside a string literal opened by the given quote.
    Quoted(char),
    /// Inside a long bracket string, this many levels deeper than its start.
    Long(nat),
    /// Inside a line comment.
    Comment,
}

/// What remains of `s` from position `i` on, in state `m`, once string
/// literals (quoted, with backslash escapes, or in nested double brackets)
/// and line comments are taken out. A comment keeps the newline that ends it.
pub open spec fn strip(s: Seq<char>, i: int, m: Lex) -> Seq<char>
    decreases s.len() + 1 - i,
{
    if i < 0 || i >= s.len() {
        seq![]
    } else {
        let c = s[i];
        let twin = i + 1 < s.len() && s[i + 1] == c;
        match m {
            Lex::Code => if c == '"' || c == '\'' {
                strip(s, i + 1, Lex::Quoted(c))
            } else if c == '[' && twin {
                strip(s, i + 2, Lex::Long(0))
            } else if c == '-' && twin {
                strip(s, i + 2, Lex::Comment)
            } else {
                seq![c] + strip(s, i + 1, Lex::Code)
            },
            Lex::Quoted(q) => if c == q {
                strip(s, i + 1, Lex::Code)
            } else if c == '\\' {
                strip(s, i + 2, Lex::Quoted(q))
            } else {
                strip(s, i + 1, Lex::Quoted(q))
            },
            Lex::Long(d) => if c == ']' && twin {
                if d == 0 {
                    strip(s, i + 2, Lex::Code)
                } else {
                    strip(s, i + 2, Lex::Long((d - 1) as nat))
                }
            } else if c == '[' && twin {
                strip(s, i + 2, Lex::Long(d + 1))
            } else {
                strip(s, i + 1, Lex::Long(d))
            },
            Lex::Comment => if c == '\n' {
                seq!['\n'] + strip(s, i + 1, Lex::Code)
            } else {
                strip(s, i + 1, Lex::Comment)
            },
        }
    }
}

/// `s` without its string literals and comments.
pub open spec fn stripped(s: Seq<char>) -> Seq<char> {
    strip(s, 0, Lex::Code)
}

enum Scan {
    Code,
    Quoted(char),
    Long(usize),
    Comment,
}

spec fn lex_of(m: Scan) -> Lex {
    match m {
        Scan::Code => Lex::Code,
        Scan::Quoted(q) => Lex::Quoted(q),
        Scan::Long(d) => Lex::Long(d as nat),
        Scan::Comment => Lex::Comment,
    }
}

/// Takes string literals and comments out of a piece of script, so that
/// brackets and keywords inside them are not counted.
pub fn remove_strings_and_comments(input: &str) -> (r: String)
    ensures
        r@ == stripped(input@),
{
    let s = chars_of(input);
    let mut out: Vec<char> = Vec::new();
    let mut mode = Scan::Code;
    let mut i: usize = 0;
    while i < s.len()
        invariant
            i <= s.len() + 1,
            s@ == input@,
            mode matches Scan::Long(d) ==> d <= i,
            out@ + strip(s@, i as int, lex_of(mode)) == stripped(s@),
        decreases s.len() + 1 - i,
    {
        let c = s[i];
        let twin = i + 1 < s.len() && s[i + 1] == c;
        let ghost before = out@;
        let ghost m = lex_of(mode);
        match mode {
            Scan::Code => {
                if c == '"' || c == '\'' {
                    mode = Scan::Quoted(c);
                    i = i + 1;
                } else if c == '[' && twin {
                    mode = Scan::Long(0);
                    i = i + 2;
                } else if c == '-' && twin {
                    mode = Scan::Comment;
                    i = i + 2;
                } else {
                    out.push(c);
                    i = i + 1;
                    assert(before + strip(s@, i - 1, m) =~= out@ + strip(s@, i as int, lex_of(mode)));
                }
            },
            Scan::Quoted(q) => {
                if c == q {
                    mode = Scan::Code;
                    i = i + 1;
                } else if c == '\\' {
                    // The escaped character goes with the backslash.
                    if i + 1 < s.len() {
                        i = i + 2;
                    } else {
                        assert(strip(s@, i + 2, m) =~= Seq::<char>::empty());
                        i = s.len();
                    }
                } else {
                    i = i + 1;
                }
            },
            Scan::Long(d) => {
                if c == ']' && twin {
                    if d == 0 {
                        mode = Scan::Code;
                    } else {
                        mode = Scan::Long(d - 1);
                    }
                    i = i + 2;
                } else if c == '[' && twin {
                    mode = Scan::Long(d + 1);
                    i = i + 2;
                } else {
                    i = i + 1;
                }
            },
            Scan::Comment => {
                if c == '\n' {
                    out.push('\n');
                    mode = Scan::Code;
                    i = i + 1;
                    assert(before + strip(s@, i - 1, m) =~= out@ + strip(s@, i as int, lex_of(mode)));
                } else {
                    i = i + 1;
                }
            },
        }
    }
    assert(strip(s@, i as int, lex_of(mode)) =~= Seq::<char>::empty());
    assert(out@ =~= stripped(s@));
    string_of(&out)
}

/// How many more `open` than `close` characters `s` holds.
pub open spec fn net(s: Seq<char>, open: char, close: char) -> int
    decreases s.len(),
{
    if s.len() == 0 {
        0
    } else {
        net(s.drop_last(), open, close) + if s.last() == open {
            1int
        } else if s.last() == close {
            -1int
        } else {
            0int
        }
    }
}

/// Every prefix of `s` closes no more than it opened, and `s` closes all it
/// opened.
pub open spec fn pair_balanced(s: Seq<char>, open: char, close: char) -> bool {
    &&& forall|k: int| 0 <= k <= s.len() ==> net(#[trigger] s.take(k), open, close) >= 0
    &&& net(s, open, close) == 0
}

/// Parentheses, braces and square brackets are each balanced.
pub open spec fn balanced(s: Seq<char>) -> bool {
    &&& pair_balanced(s, '(', ')')
    &&& pair_balanced(s, '{', '}')
    &&& pair_balanced(s, '[', ']')
}

/// Whether parentheses, braces and square brackets are each balanced: no
/// closing one before its opening one, and none left open.
pub fn is_balanced(input: &str) -> (r: bool)
    ensures
        r == balanced(input@),
{
    let s = chars_of(input);
    let mut paren: usize = 0;
    let mut brace: usize = 0;
    let mut bracket: usize = 0;
    let mut i: usize = 0;
    assert(s@.take(0) =~= Seq::<char>::empty());
    while i < s.len()
        invariant
            i <= s.len(),
            s@ == input@,
            paren == net(s@.take(i as int), '(', ')'),
            brace == net(s@.take(i as int), '{', '}'),
            bracket == net(s@.take(i as int), '[', ']'),
            paren <= i && brace <= i && bracket <= i,
            forall|k: int|
                0 <= k <= i ==> net(#[trigger] s@.take(k), '(', ')') >= 0 && net(
                    s@.take(k),
                    '{',
                    '}',
                ) >= 0 && net(s@.take(k), '[', ']') >= 0,
        decreases s.len() - i,
    {
        let c = s[i];
        assert(s@.take(i + 1).drop_last() =~= s@.take(i as int));
        let ghost next = s@.take(i + 1);
        if c == ')' && paren == 0 {
            assert(net(next, '(', ')') < 0);
            return false;
        }
        if c == '}' && brace == 0 {
            assert(net(next, '{', '}') < 0);
            return false;
        }
        if c == ']' && bracket == 0 {
            assert(net(next, '[', ']') < 0);
            return false;
        }
        if c == '(' {
            paren = paren + 1;
        } else if c == ')' {
            paren = paren - 1;
        } else if c == '{' {
            brace = brace + 1;
        } else if c == '}' {
            brace = brace - 1;
        } else if c == '[' {
            bracket = bracket + 1;
        } else if c == ']' {
            bracket = bracket - 1;
        }
        i = i + 1;
    }
    assert(s@.take(s.len() as int) =~= s@);
    paren == 0 && brace == 0 && bracket == 0
}

/// A whole white-space separated word `w` starts at position `i` of `s`.
pub open spec fn word_at(s: Seq<char>, i: int, w: Seq<char>) -> bool {
    &&& occurs_at(s, w, i)
    &&& (i == 0 || is_white(s[i - 1]))
    &&& (i + w.len() == s.len() || is_white(s[i + w.len()]))
}

/// How many times the word `w` starts before position `n` of `s`.
pub open spec fn word_count(s: Seq<char>, w: Seq<char>, n: int) -> nat
    decreases n,
{
    if n <= 0 {
        0
    } else {
        word_count(s, w, n - 1) + if word_at(s, n - 1, w) {
            1nat
        } else {
            0nat
        }
    }
}

/// How many times the word `w` stands in `s`.
pub open spec fn words(s: Seq<char>, w: Seq<char>) -> nat {
    word_count(s, w, s.len() as int)
}

/// More blocks are opened (by `if`, `for`, `while`, `repeat`, `function`)
/// than closed (by `end`, `until`). An `elseif` opens nothing.
pub open spec fn open_blocks(s: Seq<char>) -> bool {
    words(s, "if"@) + words(s, "for"@) + words(s, "while"@) + words(s, "repeat"@) + words(
        s,
        "function"@,
    ) > words(s, "end"@) + words(s, "until"@)
}

fn word_at_exec(s: &Vec<char>, i: usize, w: &Vec<char>) -> (r: bool)
    ensures
        r == word_at(s@, i as int, w@),
{
    if !occurs_at_exec(s, w, i) {
        return false;
    }
    let n = s.len();
    let starts = i == 0 || is_white_space(s[i - 1]);
    let ends = i + w.len() == n || is_white_space(s[i + w.len()]);
    starts && ends
}

fn count_word(s: &Vec<char>, w: &str) -> (n: usize)
    ensures
        n == words(s@, w@),
{
    let wv = chars_of(w);
    let mut n: usize = 0;
    let mut i: usize = 0;
    while i < s.len()
        invariant
            i <= s.len(),
            wv@ == w@,
            n == word_count(s@, w@, i as int),
            n <= i,
        decreases s.len() - i,
    {
        if word_at_exec(s, i, &wv) {
            n = n + 1;
        }
        i = i + 1;
    }
    n
}

/// Whether already lowercased text opens more blocks than it closes.
pub fn has_open_block(lowered: &str) -> (r: bool)
    ensures
        r == open_blocks(lowered@),
{
    let s = chars_of(lowered);
    let opened = count_word(&s, "if") as u128 + count_word(&s, "for") as u128 + count_word(
        &s,
        "while",
    ) as u128 + count_word(&s, "repeat") as u128 + count_word(&s, "function") as u128;
    let closed = count_word(&s, "end") as u128 + count_word(&s, "until") as u128;
    opened > closed
}

/// Whether a piece of script, in any letter case, opens more control blocks
/// than it closes.
pub fn has_incomplete_control_structure(input: &str) -> (r: bool)
    ensures
        r == open_blocks(lower_of(input@)),
{
    let lowered = lowercase(input);
    has_open_block(lowered.as_str())
}

/// A lowercased error message says that the input ended too early.
pub open spec fn mentions_incomplete(s: Seq<char>) -> bool {
    contains(s, "unexpected end of file"@) || contains(s, "'end' expected"@) || contains(
        s,
        "'until' expected"@,
    ) || contains(s, "unexpected symbol near <eof>"@) || contains(s, "unfinished string"@)
        || contains(s, "missing closing"@) || contains(s, "incomplete"@)
}

fn mentions(s: &Vec<char>, p: &str) -> (r: bool)
    ensures
        r == contains(s@, p@),
{
    let pv = chars_of(p);
    contains_exec(s, &pv)
}

/// Whether an already lowercased error message says that the input ended
/// too early.
pub fn mentions_incomplete_input(lowered: &str) -> (r: bool)
    ensures
        r == mentions_incomplete(lowered@),
{
    let s = chars_of(lowered);
    mentions(&s, "unexpected end of file") || mentions(&s, "'end' expected") || mentions(
        &s,
        "'until' expected",
    ) || mentions(&s, "unexpected symbol near <eof>") || mentions(&s, "unfinished string")
        || mentions(&s, "missing closing") || mentions(&s, "incomplete")
}

/// Whether a syntax error message, in any letter case, says that the input
/// ended too early, so that more lines may complete it.
pub fn is_incomplete_syntax_error(error: &str) -> (r: bool)
    ensures
        r == mentions_incomplete(lower_of(error@)),
{
    let lowered = lowercase(error);
    mentions_incomplete_input(lowered.as_str())
}

/// The text that ends the chunk name of code compiled from a Rust source
/// location (`path/file.rs:line:column`).
pub open spec fn chunk_marker() -> Seq<char> {
    ".rs:"@
}

/// An error message without the chunk location in front of it: after the
/// first chunk marker, the line and column are skipped up to the second
/// colon, and the rest is trimmed. A message without such a location stays
/// as it is.
pub open spec fn cleaned_error(s: Seq<char>) -> Seq<char> {
    match first_at(s, chunk_marker(), 0) {
        None => s,
        Some(p) => match first_at(s, seq![':'], p + chunk_marker().len()) {
            None => s,
            Some(a) => match first_at(s, seq![':'], a + 1) {
                None => s,
                Some(b) => trimmed(s.subrange(b + 1, s.len() as int)),
            },
        },
    }
}

/// Drops the chunk location from an error message of the engine.
pub fn clean_lua_error(err: &str) -> (r: String)
    ensures
        r@ == cleaned_error(err@),
{
    let s = chars_of(err);
    let n = s.len();
    let marker = chars_of(".rs:");
    let colon: Vec<char> = vec![':'];
    assert(colon@ =~= seq![':']);
    if let Some(p) = find_from(&s, &marker, 0) {
        proof {
            lemma_first_at_bounds(s@, marker@, 0);
        }
        if let Some(a) = find_from(&s, &colon, p + marker.len()) {
            proof {
                lemma_first_at_bounds(s@, colon@, (p + marker.len()) as int);
            }
            if let Some(b) = find_from(&s, &colon, a + 1) {
                proof {
                    lemma_first_at_bounds(s@, colon@, (a + 1) as int);
                }
                return trimmed_range(&s, b + 1, n);
            }
        }
    }
    err.to_string()
}

/// The reserved words of the scripting language.
pub open spec fn is_reserved(s: Seq<char>) -> bool {
    s == "and"@ || s == "break"@ || s == "do"@ || s == "else"@ || s == "elseif"@ || s == "end"@
        || s == "false"@ || s == "for"@ || s == "function"@ || s == "goto"@ || s == "if"@ || s
        == "in"@ || s == "local"@ || s == "nil"@ || s == "not"@ || s == "or"@ || s == "repeat"@
        || s == "return"@ || s == "then"@ || s == "true"@ || s == "until"@ || s == "while"@
}

fn reserved(s: &Vec<char>) -> (r: bool)
    ensures
        r == is_reserved(s@),
{
    is_word(s, "and") || is_word(s, "break") || is_word(s, "do") || is_word(s, "else") || is_word(
        s,
        "elseif",
    ) || is_word(s, "end") || is_word(s, "false") || is_word(s, "for") || is_word(s, "function")
        || is_word(s, "goto") || is_word(s, "if") || is_word(s, "in") || is_word(s, "local")
        || is_word(s, "nil") || is_word(s, "not") || is_word(s, "or") || is_word(s, "repeat")
        || is_word(s, "return") || is_word(s, "then") || is_word(s, "true") || is_word(s, "until")
        || is_word(s, "while")
}

/// The pattern of a name: a letter or underscore, then letters, digits and
/// underscores, and nothing else.
pub open spec fn name_pattern() -> Seq<char> {
    "^[a-zA-Z_][a-zA-Z0-9_]*$"@
}

/// `s` is a name of the scripting language: it matches the name pattern and
/// is not a reserved word.
pub open spec fn is_identifier(s: Seq<char>) -> bool {
    &&& match regex_matches(name_pattern(), s) {
        Some(m) => m.len() > 0,
        None => false,
    }
    &&& !is_reserved(s)
}

/// Whether `s` is one of the reserved words of the scripting language.
pub fn is_reserved_word(s: &str) -> (r: bool)
    ensures
        r == is_reserved(s@),
{
    let v = chars_of(s);
    reserved(&v)
}

/// Whether `s` is a plain name of the scripting language, so that evaluating
/// it reads a variable.
pub fn is_valid_lua_identifier(s: &str) -> (r: bool)
    ensures
        r == is_identifier(s@),
{
    let matched = match regex_captures("^[a-zA-Z_][a-zA-Z0-9_]*$", s) {
        Some(m) => m.len() > 0,
        None => false,
    };
    matched && !is_reserved_word(s)
}

/// What compiling a chunk of source yields: nothing when it compiles, or the
/// text of the error. It depends on the source alone.
pub uninterp spec fn compile_failure(source: Seq<char>) -> Option<Seq<char>>;

/// Relies on mlua's `Lua::load` and `Chunk::into_function`: the chunk is
/// compiled, not run, in a fresh engine; on failure the error's text is given.
#[verifier::external_body]
fn compile_check(source: &str) -> (r: Option<String>)
    ensures
        match r {
            Some(m) => compile_failure(source@) == Some(m@),
            None => compile_failure(source@) is None,
        },
{
    match mlua::Lua::new().load(source).into_function() {
        Ok(_) => None,
        Err(e) => Some(e.to_string()),
    }
}

/// The input forms a complete statement: with strings and comments taken
/// out it is balanced and closes every block it opens, and it compiles or
/// fails for a reason other than ending too early.
pub open spec fn complete_statement(s: Seq<char>) -> bool {
    let code = stripped(s);
    &&& balanced(code)
    &&& !open_blocks(lower_of(code))
    &&& match compile_failure(s) {
        None => true,
        Some(m) => !mentions_incomplete(lower_of(m)),
    }
}

/// Whether the lines typed so far form a complete statement, or the prompt
/// should ask for another line.
pub fn is_complete_statement(input: &str) -> (r: bool)
    ensures
        r == complete_statement(input@),
{
    let cleaned = remove_strings_and_comments(input);
    if !is_balanced(cleaned.as_str()) {
        return false;
    }
    if has_incomplete_control_structure(cleaned.as_str()) {
        return false;
    }
    match compile_check(input) {
        None => true,
        Some(m) => !is_incomplete_syntax_error(m.as_str()),
    }
}

} // verus!
