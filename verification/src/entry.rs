//! Inventory entries: each raw inventory line yields a display row paired
//! with the application identifier taken from the raw line itself, so the
//! identifier used to launch never has to be re-parsed out of a formatted
//! row (where a multi-word name would shift the tokens, and a long
//! identifier shows only truncated).

use vstd::prelude::*;
use vstd::string::*;

use crate::format::{format_columns, format_row_spec};
use crate::text::{split_tokens, tokens_of, trim_whitespace, trimmed, views_of};

verus! {

/// One inventory entry: the fixed-width row shown to the user, and the
/// identifier of the raw line it was formatted from.
pub struct DisplayRow {
    /// The formatted fixed-width row, as the fuzzy-finder displays it.
    pub display: String,
    /// The untruncated identifier token of the raw inventory line, or
    /// empty for a line of fewer than six tokens.
    pub app_id: String,
}

/// The display texts of a sequence of entries.
pub open spec fn displays_of(es: Seq<DisplayRow>) -> Seq<Seq<char>> {
    es.map_values(|e: DisplayRow| e.display@)
}

/// The identifiers of a sequence of entries.
pub open spec fn idents_of(es: Seq<DisplayRow>) -> Seq<Seq<char>> {
    es.map_values(|e: DisplayRow| e.app_id@)
}

/// The identifier of a raw inventory line: its fifth-from-last
/// whitespace-delimited token, or empty for a line of fewer than six
/// tokens.
pub open spec fn line_ident_spec(s: Seq<char>) -> Seq<char> {
    let ts = tokens_of(s);
    if ts.len() >= 6 {
        ts[ts.len() - 5]
    } else {
        Seq::empty()
    }
}

/// Returns the identifier token of a raw inventory line, as
/// `line_ident_spec` says.
pub fn line_identifier(line: &str) -> (r: String)
    ensures
        r@ == line_ident_spec(line@),
{
    let toks = split_tokens(line);
    let m = toks.len();
    if m >= 6 {
        let t = &toks[m - 5];
        t.clone()
    } else {
        String::new()
    }
}

/// Builds the entry for one raw inventory line: the formatted display
/// row, and the line's own identifier token carried alongside it,
/// untruncated, whatever the name's word count.
pub fn format_row_with_id(line: &str) -> (r: DisplayRow)
    ensures
        r.display@ == format_row_spec(line@),
        r.app_id@ == line_ident_spec(line@),
{
    let display = format_columns(line);
    let app_id = line_identifier(line);
    DisplayRow { display, app_id }
}

/// The display texts of `entries`, in order.
pub fn entry_displays(entries: &Vec<DisplayRow>) -> (r: Vec<String>)
    ensures
        views_of(r@) == displays_of(entries@),
{
    let n = entries.len();
    let mut r: Vec<String> = Vec::new();
    let mut i: usize = 0;
    while i < n
        invariant
            n == entries@.len(),
            i <= n,
            r@.len() == i,
            forall|j: int| 0 <= j < i ==> (#[trigger] r@[j])@ == entries@[j].display@,
        decreases n - i,
    {
        let e = &entries[i];
        r.push(e.display.clone());
        i += 1;
    }
    proof {
        assert(views_of(r@) =~= displays_of(entries@));
    }
    r
}

/// The identifier of the first entry whose display text, trimmed of the
/// surrounding whitespace that the fuzzy-finder strips, is `chosen`; or
/// nothing when no entry matches.
pub open spec fn resolve_spec(es: Seq<DisplayRow>, chosen: Seq<char>) -> Option<Seq<char>>
    decreases es.len(),
{
    if es.len() == 0 {
        None
    } else if trimmed(es[0].display@) == chosen {
        Some(es[0].app_id@)
    } else {
        resolve_spec(es.drop_first(), chosen)
    }
}

/// Resolves a chosen row text back to its entry's identifier, as
/// `resolve_spec` says: the identifier travels with the row instead of
/// being re-parsed out of it.
pub fn resolve_app_id(entries: &Vec<DisplayRow>, chosen: &str) -> (r: Option<String>)
    ensures
        match r {
            Some(id) => resolve_spec(entries@, chosen@) == Some(id@),
            None => resolve_spec(entries@, chosen@) is None,
        },
{
    let c = chosen.to_owned();
    let n = entries.len();
    let mut i: usize = 0;
    proof {
        assert(entries@.subrange(0, n as int) =~= entries@);
    }
    while i < n
        invariant
            n == entries@.len(),
            i <= n,
            c@ == chosen@,
            resolve_spec(entries@, chosen@) == resolve_spec(
                entries@.subrange(i as int, n as int),
                chosen@,
            ),
        decreases n - i,
    {
        let e = &entries[i];
        let t = trim_whitespace(e.display.as_str());
        proof {
            assert(entries@.subrange(i as int, n as int)[0] == entries@[i as int]);
            assert(entries@.subrange(i as int, n as int).drop_first() =~= entries@.subrange(
                i as int + 1,
                n as int,
            ));
        }
        if t == c {
            let id = e.app_id.clone();
            return Some(id);
        }
        i += 1;
    }
    proof {
        assert(entries@.subrange(n as int, n as int) =~= Seq::<DisplayRow>::empty());
    }
    None
}

/// Resolution finds the entry whose trimmed display text was chosen: for
/// an entry preceded by no entry with the same trimmed display text,
/// resolving that text returns exactly its identifier.
pub proof fn lemma_resolve_round_trip(es: Seq<DisplayRow>, j: int)
    requires
        0 <= j < es.len(),
        forall|k: int|
            0 <= k < j ==> trimmed(#[trigger] es[k].display@) != trimmed(es[j].display@),
    ensures
        resolve_spec(es, trimmed(es[j].display@)) == Some(es[j].app_id@),
    decreases j,
{
    if j > 0 {
        let tail = es.drop_first();
        assert(trimmed(es[0].display@) != trimmed(es[j].display@));
        assert(tail[j - 1] == es[j]);
        assert forall|k: int| 0 <= k < j - 1 implies trimmed(#[trigger] tail[k].display@)
            != trimmed(tail[j - 1].display@) by {
            assert(tail[k] == es[k + 1]);
        }
        lemma_resolve_round_trip(tail, j - 1);
    }
}

/// Round trip from formatting to selection: choosing the displayed row of
/// the entry built from a raw line of at least six tokens resolves to
/// exactly that line's fifth-from-last token — its identifier — whatever
/// the name's word count and however long the identifier.
pub proof fn lemma_pipeline_round_trip(es: Seq<DisplayRow>, j: int, s: Seq<char>)
    requires
        0 <= j < es.len(),
        forall|k: int|
            0 <= k < j ==> trimmed(#[trigger] es[k].display@) != trimmed(es[j].display@),
        es[j].app_id@ == line_ident_spec(s),
        tokens_of(s).len() >= 6,
    ensures
        resolve_spec(es, trimmed(es[j].display@)) == Some(
            tokens_of(s)[tokens_of(s).len() - 5],
        ),
{
    lemma_resolve_round_trip(es, j);
}

} // verus!
