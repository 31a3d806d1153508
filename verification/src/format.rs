//! The column formatter: turns one raw inventory line into a fixed-width
//! display row with six left-aligned fields (name, identifier, version,
//! branch, origin, installation).

use vstd::prelude::*;
use vstd::string::*;

use crate::text::{join_sep, join_with, split_tokens, tokens_of, views_of};

verus! {

/// The marker appended to a truncated field.
pub open spec fn ellipsis() -> Seq<char> {
    seq!['.', '.', '.']
}

/// `n` space characters.
pub open spec fn spaces(n: nat) -> Seq<char>
    decreases n,
{
    if n == 0 {
        Seq::empty()
    } else {
        spaces((n - 1) as nat).push(' ')
    }
}

/// `s`, left-aligned in a field of width `w`: padded with trailing spaces
/// up to `w`, or unchanged if it is already at least that long.
pub open spec fn pad_spec(s: Seq<char>, w: int) -> Seq<char> {
    if s.len() >= w {
        s
    } else {
        s + spaces((w - s.len()) as nat)
    }
}

/// `s`, cut down to its cap: a string longer than `cap` keeps its first
/// `cap - 3` characters and gets the ellipsis marker appended; a string
/// within the cap is unchanged.
pub open spec fn trunc_spec(s: Seq<char>, cap: int) -> Seq<char> {
    if s.len() > cap {
        s.subrange(0, cap - 3) + ellipsis()
    } else {
        s
    }
}

/// The display row for one raw inventory line.
///
/// A line with fewer than six whitespace-delimited tokens passes through
/// unchanged. Otherwise the last five tokens are identifier, version,
/// branch, origin and installation, all preceding tokens joined by single
/// spaces form the name, and the six fields are truncated (name to 20,
/// identifier to 34, version to 10), left-aligned in widths
/// 20/40/10/10/20/15, and joined with single spaces.
pub open spec fn format_row_spec(s: Seq<char>) -> Seq<char> {
    let ts = tokens_of(s);
    if ts.len() < 6 {
        s
    } else {
        let n = ts.len() as int;
        let name = join_sep(ts.subrange(0, n - 5), ' ');
        pad_spec(trunc_spec(name, 20), 20) + seq![' '] + pad_spec(trunc_spec(ts[n - 5], 34), 40)
            + seq![' '] + pad_spec(trunc_spec(ts[n - 4], 10), 10) + seq![' '] + pad_spec(
            ts[n - 3],
            10,
        ) + seq![' '] + pad_spec(ts[n - 2], 20) + seq![' '] + pad_spec(ts[n - 1], 15)
    }
}

/// Padding consists of spaces: its length is `n` and every character is `' '`.
pub proof fn lemma_spaces(n: nat)
    ensures
        spaces(n).len() == n,
        forall|k: int| 0 <= k < n ==> spaces(n)[k] == ' ',
    decreases n,
{
    if n > 0 {
        lemma_spaces((n - 1) as nat);
    }
}

/// A padded field is left-aligned: it starts with the field's text, is
/// exactly the field width long when the text fits (and as long as the
/// text otherwise), and everything after the text is spaces.
pub proof fn lemma_pad(s: Seq<char>, w: int)
    requires
        w >= 0,
    ensures
        pad_spec(s, w).len() == if s.len() >= w {
            s.len() as int
        } else {
            w
        },
        pad_spec(s, w).subrange(0, s.len() as int) == s,
        forall|k: int| s.len() <= k < pad_spec(s, w).len() ==> pad_spec(s, w)[k] == ' ',
{
    if s.len() < w {
        lemma_spaces((w - s.len()) as nat);
    }
    assert(pad_spec(s, w).subrange(0, s.len() as int) =~= s);
}

/// A string longer than a field's cap is rendered as its first `cap - 3`
/// characters followed by the ellipsis marker, for a total of exactly
/// `cap` characters.
pub proof fn lemma_truncation(s: Seq<char>, cap: int)
    requires
        cap >= 3,
        s.len() > cap,
    ensures
        trunc_spec(s, cap) == s.subrange(0, cap - 3) + ellipsis(),
        trunc_spec(s, cap).len() == cap,
        trunc_spec(s, cap).subrange(cap - 3, cap) == ellipsis(),
{
    assert(trunc_spec(s, cap).subrange(cap - 3, cap) =~= ellipsis());
}

/// A line with fewer than six tokens passes through the formatter
/// unchanged.
pub proof fn lemma_short_line_unchanged(s: Seq<char>)
    requires
        tokens_of(s).len() < 6,
    ensures
        format_row_spec(s) == s,
{
}

/// A line with at least six tokens is formatted into six left-aligned
/// fields joined by single spaces; the first three fields (name,
/// identifier, version) are capped, so their rendered widths are exactly
/// 20, 40 and 10, while the last three are at least 10, 20 and 15.
pub proof fn lemma_row_fields(s: Seq<char>)
    requires
        tokens_of(s).len() >= 6,
    ensures
        ({
            let ts = tokens_of(s);
            let n = ts.len() as int;
            let f1 = pad_spec(trunc_spec(join_sep(ts.subrange(0, n - 5), ' '), 20), 20);
            let f2 = pad_spec(trunc_spec(ts[n - 5], 34), 40);
            let f3 = pad_spec(trunc_spec(ts[n - 4], 10), 10);
            let f4 = pad_spec(ts[n - 3], 10);
            let f5 = pad_spec(ts[n - 2], 20);
            let f6 = pad_spec(ts[n - 1], 15);
            &&& format_row_spec(s) == f1 + seq![' '] + f2 + seq![' '] + f3 + seq![' '] + f4
                + seq![' '] + f5 + seq![' '] + f6
            &&& f1.len() == 20
            &&& f2.len() == 40
            &&& f3.len() == 10
            &&& f4.len() >= 10
            &&& f5.len() >= 20
            &&& f6.len() >= 15
        }),
{
    let ts = tokens_of(s);
    let n = ts.len() as int;
    let name = join_sep(ts.subrange(0, n - 5), ' ');
    lemma_pad(trunc_spec(name, 20), 20);
    lemma_pad(trunc_spec(ts[n - 5], 34), 40);
    lemma_pad(trunc_spec(ts[n - 4], 10), 10);
    lemma_pad(ts[n - 3], 10);
    lemma_pad(ts[n - 2], 20);
    lemma_pad(ts[n - 1], 15);
}

/// Cuts `s` down to at most `cap` characters as `trunc_spec` says.
fn truncate_field(s: String, cap: usize) -> (r: String)
    requires
        cap >= 3,
    ensures
        r@ == trunc_spec(s@, cap as int),
{
    let len = s.as_str().unicode_len();
    if len > cap {
        let t = s.as_str().substring_char(0, cap - 3);
        let mut r = t.to_owned();
        r.append("...");
        proof {
            reveal_strlit("...");
            assert("..."@ =~= ellipsis());
        }
        r
    } else {
        s
    }
}

/// Left-aligns `s` in a field of `width` characters.
fn pad_to(s: String, width: usize) -> (r: String)
    ensures
        r@ == pad_spec(s@, width as int),
{
    let ghost orig = s@;
    let mut r = s;
    let mut len = r.as_str().unicode_len();
    while len < width
        invariant
            len == r@.len(),
            orig.len() >= width ==> r@ == orig,
            orig.len() < width ==> orig.len() <= len <= width && r@ == orig + spaces(
                (len - orig.len()) as nat,
            ),
        decreases width - len,
    {
        r.append(" ");
        proof {
            reveal_strlit(" ");
            assert(" "@ =~= seq![' ']);
            if orig.len() < width {
                assert((orig + spaces((len - orig.len()) as nat)) + seq![' '] =~= orig + spaces(
                    (len + 1 - orig.len()) as nat,
                ));
            }
        }
        len = len + 1;
    }
    proof {
        if orig.len() < width {
            assert(orig + spaces((len - orig.len()) as nat) =~= pad_spec(orig, width as int));
        }
    }
    r
}

/// Formats one raw inventory line into a display row, as
/// `format_row_spec` says: a line of fewer than six tokens is returned
/// unchanged, any other is split into six fixed-width fields.
pub fn format_columns(line: &str) -> (r: String)
    ensures
        r@ == format_row_spec(line@),
{
    let toks = split_tokens(line);
    let m = toks.len();
    if m < 6 {
        line.to_owned()
    } else {
        proof {
            reveal_strlit(" ");
            assert(" "@ =~= seq![' ']);
            assert(views_of(toks@).subrange(0, m - 5) =~= tokens_of(line@).subrange(0, m - 5));
        }
        let name = join_with(&toks, m - 5, " ");
        let f1 = pad_to(truncate_field(name, 20), 20);
        let app_id = &toks[m - 5];
        let f2 = pad_to(truncate_field(app_id.clone(), 34), 40);
        let version = &toks[m - 4];
        let f3 = pad_to(truncate_field(version.clone(), 10), 10);
        let branch = &toks[m - 3];
        let f4 = pad_to(branch.clone(), 10);
        let origin = &toks[m - 2];
        let f5 = pad_to(origin.clone(), 20);
        let installation = &toks[m - 1];
        let f6 = pad_to(installation.clone(), 15);
        let mut r = f1;
        r.append(" ");
        r.append(f2.as_str());
        r.append(" ");
        r.append(f3.as_str());
        r.append(" ");
        r.append(f4.as_str());
        r.append(" ");
        r.append(f5.as_str());
        r.append(" ");
        r.append(f6.as_str());
        proof {
            assert(r@ =~= format_row_spec(line@));
        }
        r
    }
}

} // verus!
