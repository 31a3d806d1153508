//! Text primitives: whitespace classification, tokenisation of a line into
//! whitespace-delimited tokens, and trimming of surrounding whitespace.

use vstd::prelude::*;
use vstd::string::*;

verus! {

/// A whitespace character, in the sense of Unicode's `White_Space` property
/// (the set that `str::split_whitespace` and `str::trim` go by).
pub open spec fn is_ws(c: char) -> bool {
    ||| c == ' '
    ||| c == '\t'
    ||| c == '\n'
    ||| c == '\u{0B}'
    ||| c == '\u{0C}'
    ||| c == '\r'
    ||| c == '\u{85}'
    ||| c == '\u{A0}'
    ||| c == '\u{1680}'
    ||| c == '\u{2000}'
    ||| c == '\u{2001}'
    ||| c == '\u{2002}'
    ||| c == '\u{2003}'
    ||| c == '\u{2004}'
    ||| c == '\u{2005}'
    ||| c == '\u{2006}'
    ||| c == '\u{2007}'
    ||| c == '\u{2008}'
    ||| c == '\u{2009}'
    ||| c == '\u{200A}'
    ||| c == '\u{2028}'
    ||| c == '\u{2029}'
    ||| c == '\u{202F}'
    ||| c == '\u{205F}'
    ||| c == '\u{3000}'
}

/// Runtime check for `is_ws`.
pub fn char_is_ws(c: char) -> (b: bool)
    ensures
        b == is_ws(c),
{
    c == ' ' || c == '\t' || c == '\n' || c == '\u{0B}' || c == '\u{0C}' || c == '\r'
        || c == '\u{85}' || c == '\u{A0}' || c == '\u{1680}' || c == '\u{2000}'
        || c == '\u{2001}' || c == '\u{2002}' || c == '\u{2003}' || c == '\u{2004}'
        || c == '\u{2005}' || c == '\u{2006}' || c == '\u{2007}' || c == '\u{2008}'
        || c == '\u{2009}' || c == '\u{200A}' || c == '\u{2028}' || c == '\u{2029}'
        || c == '\u{202F}' || c == '\u{205F}' || c == '\u{3000}'
}

/// The whitespace-delimited tokens of `s`, in order: the maximal runs of
/// non-whitespace characters. Defined by folding over the characters from
/// the left; a non-whitespace character either extends the token in
/// progress or starts a new one.
pub open spec fn tokens_of(s: Seq<char>) -> Seq<Seq<char>>
    decreases s.len(),
{
    if s.len() == 0 {
        Seq::empty()
    } else {
        let prefix = s.drop_last();
        let toks = tokens_of(prefix);
        let c = s.last();
        if is_ws(c) {
            toks
        } else if prefix.len() > 0 && !is_ws(prefix.last()) {
            toks.update(toks.len() - 1, toks.last().push(c))
        } else {
            toks.push(seq![c])
        }
    }
}

/// Every token is a non-empty run of non-whitespace characters.
pub proof fn lemma_tokens_wf(s: Seq<char>)
    ensures
        forall|j: int| 0 <= j < tokens_of(s).len() ==> (#[trigger] tokens_of(s)[j]).len() > 0,
        forall|j: int, k: int|
            0 <= j < tokens_of(s).len() && 0 <= k < tokens_of(s)[j].len() ==> !is_ws(
                #[trigger] tokens_of(s)[j][k],
            ),
    decreases s.len(),
{
    if s.len() > 0 {
        let prefix = s.drop_last();
        lemma_tokens_wf(prefix);
        if prefix.len() > 0 && !is_ws(prefix.last()) {
            lemma_tokens_last_nonws(prefix);
        }
    }
}

/// A string that ends in a non-whitespace character has at least one token.
pub proof fn lemma_tokens_last_nonws(s: Seq<char>)
    requires
        s.len() > 0,
        !is_ws(s.last()),
    ensures
        tokens_of(s).len() > 0,
    decreases s.len(),
{
    let prefix = s.drop_last();
    if prefix.len() > 0 && !is_ws(prefix.last()) {
        lemma_tokens_last_nonws(prefix);
    }
}

/// The views of a sequence of strings.
pub open spec fn views_of(v: Seq<String>) -> Seq<Seq<char>> {
    v.map_values(|t: String| t@)
}

/// The elements of `ts` joined by single occurrences of `sep`.
pub open spec fn join_sep(ts: Seq<Seq<char>>, sep: char) -> Seq<char>
    decreases ts.len(),
{
    if ts.len() == 0 {
        Seq::empty()
    } else if ts.len() == 1 {
        ts[0]
    } else {
        join_sep(ts.drop_last(), sep) + seq![sep] + ts.last()
    }
}

/// A non-empty run of non-whitespace characters is a single token.
pub proof fn lemma_tokens_single(t: Seq<char>)
    requires
        t.len() > 0,
        forall|k: int| 0 <= k < t.len() ==> !is_ws(#[trigger] t[k]),
    ensures
        tokens_of(t) == seq![t],
    decreases t.len(),
{
    let prefix = t.drop_last();
    assert(!is_ws(t[t.len() - 1]));
    if prefix.len() == 0 {
        assert(tokens_of(prefix) == Seq::<Seq<char>>::empty());
        assert(tokens_of(t) =~= seq![t]) by {
            assert(seq![t.last()] =~= t);
        }
    } else {
        lemma_tokens_single(prefix);
        assert(prefix.last() == t[t.len() - 2]);
        assert(!is_ws(t[t.len() - 2]));
        assert(tokens_of(t) =~= seq![t]) by {
            assert(prefix.push(t.last()) =~= t);
        }
    }
}

/// Trailing whitespace does not change the tokens.
pub proof fn lemma_tokens_ws_suffix(t: Seq<char>, p: Seq<char>)
    requires
        forall|k: int| 0 <= k < p.len() ==> is_ws(#[trigger] p[k]),
    ensures
        tokens_of(t + p) == tokens_of(t),
    decreases p.len(),
{
    if p.len() == 0 {
        assert(t + p =~= t);
    } else {
        lemma_tokens_ws_suffix(t, p.drop_last());
        assert((t + p).drop_last() =~= t + p.drop_last());
        assert((t + p).last() == p.last());
    }
}

/// Tokenisation distributes over a concatenation whose left side is empty
/// or ends in whitespace: no token spans the boundary.
pub proof fn lemma_tokens_concat(a: Seq<char>, b: Seq<char>)
    requires
        a.len() == 0 || is_ws(a.last()),
    ensures
        tokens_of(a + b) == tokens_of(a) + tokens_of(b),
    decreases b.len(),
{
    if b.len() == 0 {
        assert(a + b =~= a);
        assert(tokens_of(a) + tokens_of(b) =~= tokens_of(a));
    } else {
        let b2 = b.drop_last();
        let c = b.last();
        lemma_tokens_concat(a, b2);
        assert((a + b).drop_last() =~= a + b2);
        assert((a + b).last() == c);
        let ta = tokens_of(a);
        let tb2 = tokens_of(b2);
        if is_ws(c) {
            // both sides drop the trailing whitespace character
        } else if b2.len() > 0 && !is_ws(b2.last()) {
            lemma_tokens_last_nonws(b2);
            assert((a + b2).last() == b2.last());
            assert((ta + tb2).update(ta.len() + tb2.len() - 1, tb2.last().push(c)) =~= ta
                + tb2.update(tb2.len() - 1, tb2.last().push(c)));
            assert((ta + tb2).last() == tb2.last());
        } else {
            if b2.len() == 0 {
                assert(a + b2 =~= a);
            } else {
                assert((a + b2).last() == b2.last());
            }
            assert((ta + tb2).push(seq![c]) =~= ta + tb2.push(seq![c]));
        }
    }
}

/// `s` with leading and trailing whitespace removed.
pub open spec fn trimmed(s: Seq<char>) -> Seq<char>
    decreases s.len(),
{
    if s.len() == 0 {
        s
    } else if is_ws(s.first()) {
        trimmed(s.drop_first())
    } else if is_ws(s.last()) {
        trimmed(s.drop_last())
    } else {
        s
    }
}

/// Splits a line into its whitespace-delimited tokens, as
/// `str::split_whitespace` does.
pub fn split_tokens(line: &str) -> (r: Vec<String>)
    ensures
        r@.len() == tokens_of(line@).len(),
        forall|j: int| 0 <= j < r@.len() ==> (#[trigger] r@[j])@ == tokens_of(line@)[j],
        views_of(r@) == tokens_of(line@),
{
    let n = line.unicode_len();
    let mut toks: Vec<String> = Vec::new();
    let mut i: usize = 0;
    let mut start: usize = 0;
    let mut in_tok: bool = false;
    proof {
        assert(line@.subrange(0, 0) =~= Seq::<char>::empty());
    }
    while i < n
        invariant
            n == line@.len(),
            i <= n,
            !in_tok ==> {
                &&& toks@.len() == tokens_of(line@.subrange(0, i as int)).len()
                &&& i == 0 || is_ws(line@[i as int - 1])
            },
            in_tok ==> {
                &&& start < i
                &&& !is_ws(line@[start as int])
                &&& forall|k: int| start <= k < i ==> !is_ws(line@[k])
                &&& start == 0 || is_ws(line@[start as int - 1])
                &&& tokens_of(line@.subrange(0, i as int)).len() == toks@.len() + 1
                &&& tokens_of(line@.subrange(0, i as int)).last() == line@.subrange(
                    start as int,
                    i as int,
                )
            },
            forall|j: int|
                0 <= j < toks@.len() ==> (#[trigger] toks@[j])@ == tokens_of(
                    line@.subrange(0, i as int),
                )[j],
        decreases n - i,
    {
        let ghost pre = line@.subrange(0, i as int);
        let ghost pre2 = line@.subrange(0, i as int + 1);
        proof {
            assert(pre2.drop_last() =~= pre);
            assert(pre2.last() == line@[i as int]);
        }
        let c = line.get_char(i);
        if char_is_ws(c) {
            if in_tok {
                let t = line.substring_char(start, i);
                toks.push(t.to_owned());
                in_tok = false;
            }
        } else {
            if !in_tok {
                start = i;
                in_tok = true;
            }
            proof {
                assert(line@.subrange(start as int, i as int + 1) =~= if start == i {
                    seq![line@[i as int]]
                } else {
                    line@.subrange(start as int, i as int).push(line@[i as int])
                });
            }
        }
        i += 1;
    }
    proof {
        assert(line@.subrange(0, n as int) =~= line@);
    }
    if in_tok {
        let t = line.substring_char(start, n);
        toks.push(t.to_owned());
    }
    proof {
        assert(views_of(toks@) =~= tokens_of(line@));
    }
    toks
}

/// Joins the first `m` strings of `items` with the single-character
/// separator `sep`.
pub fn join_with(items: &Vec<String>, m: usize, sep: &str) -> (r: String)
    requires
        1 <= m <= items@.len(),
        sep@.len() == 1,
    ensures
        r@ == join_sep(views_of(items@).subrange(0, m as int), sep@[0]),
{
    let first = &items[0];
    let r0 = first.clone();
    proof {
        assert(views_of(items@).subrange(0, 1) =~= seq![items@[0]@]);
    }
    let mut r = r0;
    let mut j: usize = 1;
    while j < m
        invariant
            1 <= j <= m <= items@.len(),
            sep@.len() == 1,
            r@ == join_sep(views_of(items@).subrange(0, j as int), sep@[0]),
        decreases m - j,
    {
        r.append(sep);
        let x = &items[j];
        r.append(x.as_str());
        proof {
            let v = views_of(items@);
            assert(v.subrange(0, j as int + 1).drop_last() =~= v.subrange(0, j as int));
            assert(v.subrange(0, j as int + 1).last() == items@[j as int]@);
            assert(seq![sep@[0]] =~= sep@);
            assert((join_sep(v.subrange(0, j as int), sep@[0]) + sep@) + items@[j as int]@
                =~= join_sep(v.subrange(0, j as int + 1), sep@[0]));
        }
        j += 1;
    }
    r
}

/// Removes leading and trailing whitespace, as `str::trim` does.
pub fn trim_whitespace(s: &str) -> (r: String)
    ensures
        r@ == trimmed(s@),
{
    let n = s.unicode_len();
    let mut lo: usize = 0;
    proof {
        assert(s@.subrange(0, n as int) =~= s@);
    }
    while lo < n && char_is_ws(s.get_char(lo))
        invariant
            n == s@.len(),
            lo <= n,
            trimmed(s@) == trimmed(s@.subrange(lo as int, n as int)),
        decreases n - lo,
    {
        proof {
            assert(s@.subrange(lo as int, n as int).drop_first() =~= s@.subrange(
                lo as int + 1,
                n as int,
            ));
        }
        lo += 1;
    }
    if lo == n {
        proof {
            assert(s@.subrange(lo as int, n as int) =~= Seq::<char>::empty());
        }
        return String::new();
    }
    let mut hi: usize = n;
    while hi > lo + 1 && char_is_ws(s.get_char(hi - 1))
        invariant
            n == s@.len(),
            lo < hi <= n,
            !is_ws(s@[lo as int]),
            trimmed(s@) == trimmed(s@.subrange(lo as int, hi as int)),
        decreases hi,
    {
        proof {
            assert(s@.subrange(lo as int, hi as int).drop_last() =~= s@.subrange(
                lo as int,
                hi as int - 1,
            ));
            assert(s@.subrange(lo as int, hi as int).first() == s@[lo as int]);
        }
        hi -= 1;
    }
    proof {
        let sub = s@.subrange(lo as int, hi as int);
        assert(sub.first() == s@[lo as int]);
        assert(sub.last() == s@[hi as int - 1]);
    }
    let t = s.substring_char(lo, hi);
    t.to_owned()
}

} // verus!
