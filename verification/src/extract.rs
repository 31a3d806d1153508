//! The fallback identifier extractor: re-parses the application
//! identifier out of a bare display row's text. The launch path carries
//! the identifier alongside the row instead (see `entry`), because
//! re-parsing recovers it only for single-word names and identifiers
//! within their cap; the round-trip law here states exactly that narrower
//! guarantee.

use vstd::prelude::*;
use vstd::string::*;

use crate::format::{ellipsis, format_row_spec, pad_spec, spaces, trunc_spec};
use crate::text::{
    is_ws, join_sep, lemma_tokens_concat, lemma_tokens_single, lemma_tokens_wf,
    lemma_tokens_ws_suffix, split_tokens, tokens_of,
};

verus! {

/// The identifier field of a display row: its second whitespace-delimited
/// token, or the empty string if the row has fewer than two tokens.
pub open spec fn extract_spec(s: Seq<char>) -> Seq<char> {
    if tokens_of(s).len() > 1 {
        tokens_of(s)[1]
    } else {
        Seq::empty()
    }
}

/// Returns the second whitespace-delimited token of `selected_app`, the
/// identifier field of a display row, or the empty string if the row has
/// fewer than two tokens. A fallback for a bare row whose entry is not at
/// hand: prefer resolving through `entry::resolve_app_id`, which also
/// recovers identifiers of rows with multi-word names or truncated
/// identifier fields.
pub fn extract_app_id(selected_app: &str) -> (r: String)
    ensures
        r@ == extract_spec(selected_app@),
{
    let toks = split_tokens(selected_app);
    if toks.len() > 1 {
        let t = &toks[1];
        t.clone()
    } else {
        String::new()
    }
}

/// A capped field rendered from a token is itself a non-empty run of
/// non-whitespace characters.
proof fn lemma_trunc_token_nonws(t: Seq<char>, cap: int)
    requires
        cap >= 3,
        t.len() > 0,
        forall|k: int| 0 <= k < t.len() ==> !is_ws(#[trigger] t[k]),
    ensures
        trunc_spec(t, cap).len() > 0,
        forall|k: int|
            0 <= k < trunc_spec(t, cap).len() ==> !is_ws(#[trigger] trunc_spec(t, cap)[k]),
{
    if t.len() > cap {
        assert forall|k: int| 0 <= k < trunc_spec(t, cap).len() implies !is_ws(
            trunc_spec(t, cap)[k],
        ) by {
            if k < cap - 3 {
                assert(trunc_spec(t, cap)[k] == t[k]);
            } else {
                assert(trunc_spec(t, cap)[k] == ellipsis()[k - (cap - 3)]);
            }
        }
    }
}

/// The tokens of `t + padding + " "` are exactly `[t]`, for a non-empty
/// non-whitespace `t` padded to width `w`.
proof fn lemma_field_tokens(t: Seq<char>, w: int)
    requires
        w >= 0,
        t.len() > 0,
        forall|k: int| 0 <= k < t.len() ==> !is_ws(#[trigger] t[k]),
    ensures
        tokens_of(pad_spec(t, w) + seq![' ']) == seq![t],
        (pad_spec(t, w) + seq![' ']).last() == ' ',
{
    crate::format::lemma_spaces((w - t.len()) as nat);
    lemma_tokens_single(t);
    if t.len() >= w {
        assert(pad_spec(t, w) + seq![' '] =~= t + seq![' ']);
        lemma_tokens_ws_suffix(t, seq![' ']);
    } else {
        let p = spaces((w - t.len()) as nat) + seq![' '];
        assert(pad_spec(t, w) + seq![' '] =~= t + p);
        assert forall|k: int| 0 <= k < p.len() implies is_ws(#[trigger] p[k]) by {
            if k < p.len() - 1 {
                assert(p[k] == spaces((w - t.len()) as nat)[k]);
            }
        }
        lemma_tokens_ws_suffix(t, p);
    }
}

/// Round trip from formatting to re-parsing: for a raw line of exactly
/// six tokens whose identifier token is within its cap, extracting the
/// identifier from the formatted display row gives back exactly the
/// identifier token of the raw line (its fifth-from-last, here second,
/// token).
///
/// The two premises mark the inputs on which this fallback genuinely
/// fails: a line of seven or more tokens has a multi-word name, so the
/// row's second token is the name's second word, and an identifier over
/// its cap leaves only its truncated form in the row. The launch path is
/// not bound by either limit: `entry::lemma_pipeline_round_trip` gives
/// the round trip for every line of at least six tokens.
pub proof fn lemma_format_extract_round_trip(s: Seq<char>)
    requires
        tokens_of(s).len() == 6,
        tokens_of(s)[1].len() <= 34,
    ensures
        extract_spec(format_row_spec(s)) == tokens_of(s)[1],
{
    let ts = tokens_of(s);
    lemma_tokens_wf(s);
    let name = join_sep(ts.subrange(0, 1), ' ');
    assert(ts.subrange(0, 1) =~= seq![ts[0]]);
    assert(name == ts[0]);
    let t1 = trunc_spec(ts[0], 20);
    lemma_trunc_token_nonws(ts[0], 20);
    let f1 = pad_spec(t1, 20);
    let f2 = pad_spec(trunc_spec(ts[1], 34), 40);
    let f3 = pad_spec(trunc_spec(ts[2], 10), 10);
    let f4 = pad_spec(ts[3], 10);
    let f5 = pad_spec(ts[4], 20);
    let f6 = pad_spec(ts[5], 15);
    let row = format_row_spec(s);
    assert(row == f1 + seq![' '] + f2 + seq![' '] + f3 + seq![' '] + f4 + seq![' '] + f5
        + seq![' '] + f6);
    assert(trunc_spec(ts[1], 34) == ts[1]);

    let a1 = f1 + seq![' '];
    let rest1 = f2 + seq![' '] + f3 + seq![' '] + f4 + seq![' '] + f5 + seq![' '] + f6;
    assert(row =~= a1 + rest1);
    lemma_field_tokens(t1, 20);
    lemma_tokens_concat(a1, rest1);

    let a2 = f2 + seq![' '];
    let rest2 = f3 + seq![' '] + f4 + seq![' '] + f5 + seq![' '] + f6;
    assert(rest1 =~= a2 + rest2);
    lemma_field_tokens(ts[1], 40);
    lemma_tokens_concat(a2, rest2);

    assert(tokens_of(row) == seq![t1] + (seq![ts[1]] + tokens_of(rest2)));
    assert(tokens_of(row)[1] == ts[1]);
}

} // verus!
