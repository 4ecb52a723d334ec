//! String helpers offered to scripts: splitting at a separator and testing
//! prefixes and suffixes.

use vstd::prelude::*;
use crate::text::{chars_of, find_from, first_at, lemma_first_at_bounds, occurs_at, occurs_at_exec, slice_chars, string_of};

verus! {

/// The pieces of `s` from `from` on, between the occurrences of a non-empty
/// separator `p`, each occurrence taken leftmost first.
pub open spec fn pieces_from(s: Seq<char>, p: Seq<char>, from: int) -> Seq<Seq<char>>
    decreases s.len() + 1 - from,
{
    if p.len() == 0 || from < 0 || from > s.len() {
        seq![]
    } else {
        match first_at(s, p, from) {
            None => seq![s.subrange(from, s.len() as int)],
            Some(k) => if from <= k && k + p.len() <= s.len() {
                seq![s.subrange(from, k)] + pieces_from(s, p, k + p.len())
            } else {
                // Not met: an occurrence lies at or after `from`, inside `s`.
                seq![]
            },
        }
    }
}

/// The pieces of `s` split at `p`. An empty separator splits between every
/// two characters, with an empty piece at either end.
pub open spec fn pieces(s: Seq<char>, p: Seq<char>) -> Seq<Seq<char>> {
    if p.len() == 0 {
        seq![seq![]] + s.map_values(|c: char| seq![c]) + seq![seq![]]
    } else {
        pieces_from(s, p, 0)
    }
}

/// The pieces that are not empty, in order.
pub open spec fn non_empty(parts: Seq<Seq<char>>) -> Seq<Seq<char>>
    decreases parts.len(),
{
    if parts.len() == 0 {
        seq![]
    } else if parts.last().len() == 0 {
        non_empty(parts.drop_last())
    } else {
        non_empty(parts.drop_last()).push(parts.last())
    }
}

/// The result of a split: all pieces, or only the non-empty ones.
pub open spec fn split_result(s: Seq<char>, p: Seq<char>, keep_empty: bool) -> Seq<Seq<char>> {
    if keep_empty {
        pieces(s, p)
    } else {
        non_empty(pieces(s, p))
    }
}

fn push_piece(out: &mut Vec<String>, piece: &Vec<char>, keep_empty: bool)
    ensures
        final(out)@.map_values(|w: String| w@) == if keep_empty || piece@.len() > 0 {
            old(out)@.map_values(|w: String| w@).push(piece@)
        } else {
            old(out)@.map_values(|w: String| w@)
        },
{
    if keep_empty || piece.len() > 0 {
        let ghost before = out@;
        out.push(string_of(piece));
        assert(out@.map_values(|w: String| w@) =~= before.map_values(|w: String| w@).push(piece@));
    }
}

proof fn lemma_non_empty_push(parts: Seq<Seq<char>>, x: Seq<char>)
    ensures
        non_empty(parts.push(x)) == if x.len() > 0 {
            non_empty(parts).push(x)
        } else {
            non_empty(parts)
        },
{
    assert(parts.push(x).drop_last() =~= parts);
}

/// Splits `buf` at each occurrence of `patt`; empty pieces are kept unless
/// `keep_empty` is `Some(false)`.
pub fn split(buf: String, patt: String, keep_empty: Option<bool>) -> (r: Vec<String>)
    ensures
        r@.map_values(|w: String| w@) == split_result(
            buf@,
            patt@,
            match keep_empty {
                Some(k) => k,
                None => true,
            },
        ),
{
    let keep = match keep_empty {
        Some(k) => k,
        None => true,
    };
    let s = chars_of(buf.as_str());
    let p = chars_of(patt.as_str());
    let n = s.len();
    let mut out: Vec<String> = Vec::new();
    let ghost all = pieces(s@, p@);
    if p.len() == 0 {
        let empty: Vec<char> = Vec::new();
        push_piece(&mut out, &empty, keep);
        let mut i: usize = 0;
        proof {
            lemma_non_empty_push(Seq::<Seq<char>>::empty(), seq![]);
            assert(all.take(1) =~= seq![Seq::<char>::empty()]);
            assert(Seq::<Seq<char>>::empty().push(seq![]) =~= all.take(1));
        }
        while i < n
            invariant
                i <= n,
                n == s.len(),
                s@ == buf@,
                p@ == patt@,
                p@.len() == 0,
                all == pieces(s@, p@),
                out@.map_values(|w: String| w@) == if keep {
                    all.take(i + 1)
                } else {
                    non_empty(all.take(i + 1))
                },
            decreases n - i,
        {
            let one: Vec<char> = vec![s[i]];
            assert(one@ =~= seq![s@[i as int]]);
            assert(all.len() == n + 2);
            assert(all[i + 1] == seq![s@[i as int]]);
            assert(all.take(i + 2) =~= all.take(i + 1).push(one@));
            proof {
                lemma_non_empty_push(all.take(i + 1), one@);
            }
            push_piece(&mut out, &one, keep);
            i = i + 1;
        }
        proof {
            assert(all.take(n + 2) =~= all.take(n + 1).push(seq![]));
            assert(all.take(n + 2) =~= all);
            lemma_non_empty_push(all.take(n + 1), seq![]);
        }
        push_piece(&mut out, &empty, keep);
        return out;
    }
    let mut from: usize = 0;
    let ghost done: Seq<Seq<char>> = seq![];
    assert(all == done + pieces_from(s@, p@, 0));
    loop
        invariant
            from <= n,
            n == s.len(),
            s@ == buf@,
            p@ == patt@,
            keep == match keep_empty {
                Some(k) => k,
                None => true,
            },
            p@.len() > 0,
            all == pieces(s@, p@),
            all == done + pieces_from(s@, p@, from as int),
            out@.map_values(|w: String| w@) == if keep {
                done
            } else {
                non_empty(done)
            },
        decreases n + 1 - from,
    {
        match find_from(&s, &p, from) {
            None => {
                let piece = slice_chars(&s, from, n);
                proof {
                    lemma_non_empty_push(done, piece@);
                    assert(all =~= done.push(piece@));
                }
                push_piece(&mut out, &piece, keep);
                return out;
            },
            Some(k) => {
                proof {
                    lemma_first_at_bounds(s@, p@, from as int);
                }
                let piece = slice_chars(&s, from, k);
                proof {
                    lemma_non_empty_push(done, piece@);
                    assert(done + pieces_from(s@, p@, from as int) =~= done.push(piece@)
                        + pieces_from(s@, p@, k + p@.len()));
                    done = done.push(piece@);
                }
                push_piece(&mut out, &piece, keep);
                from = k + p.len();
            },
        }
    }
}

/// Whether `buf` begins with `patt`.
pub fn startswith(buf: String, patt: String) -> (r: bool)
    ensures
        r == occurs_at(buf@, patt@, 0),
{
    let s = chars_of(buf.as_str());
    let p = chars_of(patt.as_str());
    occurs_at_exec(&s, &p, 0)
}

/// Whether `buf` ends with `patt`.
pub fn endswith(buf: String, patt: String) -> (r: bool)
    ensures
        r == (patt@.len() <= buf@.len() && occurs_at(
            buf@,
            patt@,
            buf@.len() - patt@.len(),
        )),
{
    let s = chars_of(buf.as_str());
    let p = chars_of(patt.as_str());
    if p.len() > s.len() {
        return false;
    }
    occurs_at_exec(&s, &p, s.len() - p.len())
}

} // verus!
