//! The compute stages around the two external programs: turning the
//! inventory command's captured text into display rows, assembling the
//! text fed to the fuzzy-finder, and building the final run command.

use vstd::prelude::*;
use vstd::string::*;

use crate::entry::{
    displays_of, entry_displays, format_row_with_id, idents_of, line_ident_spec, DisplayRow,
};
use crate::format::format_row_spec;
use crate::text::{join_sep, join_with, trim_whitespace, trimmed, views_of};

verus! {

/// One completed line: a carriage return directly before the line feed is
/// not part of it.
pub open spec fn strip_cr(l: Seq<char>) -> Seq<char> {
    if l.len() > 0 && l.last() == '\r' {
        l.drop_last()
    } else {
        l
    }
}

/// The segments of `s` between line feeds, folding over the characters
/// from the left. There is always at least one (possibly empty) segment
/// in progress; a line feed completes the current segment, stripping a
/// carriage return directly before it.
pub open spec fn raw_segments(s: Seq<char>) -> Seq<Seq<char>>
    decreases s.len(),
{
    if s.len() == 0 {
        seq![Seq::empty()]
    } else {
        let segs = raw_segments(s.drop_last());
        let c = s.last();
        if c == '\n' {
            segs.update(segs.len() - 1, strip_cr(segs.last())).push(Seq::empty())
        } else {
            segs.update(segs.len() - 1, segs.last().push(c))
        }
    }
}

/// There is always at least one segment.
pub proof fn lemma_segments_nonempty(s: Seq<char>)
    ensures
        raw_segments(s).len() > 0,
    decreases s.len(),
{
    if s.len() > 0 {
        lemma_segments_nonempty(s.drop_last());
    }
}

/// The lines of `s`, as `str::lines` yields them: the segments between
/// line feeds, a final line feed ending the text rather than opening an
/// empty last line.
pub open spec fn lines_of(s: Seq<char>) -> Seq<Seq<char>> {
    let segs = raw_segments(s);
    if segs.last().len() == 0 {
        segs.drop_last()
    } else {
        segs
    }
}

/// The display rows for a sequence of lines: every non-empty line is
/// formatted, in order; empty lines are dropped.
pub open spec fn formatted_rows(ls: Seq<Seq<char>>) -> Seq<Seq<char>>
    decreases ls.len(),
{
    if ls.len() == 0 {
        Seq::empty()
    } else {
        let rest = formatted_rows(ls.drop_last());
        if ls.last().len() == 0 {
            rest
        } else {
            rest.push(format_row_spec(ls.last()))
        }
    }
}

/// The display rows for the inventory command's captured text.
pub open spec fn inventory_rows_spec(s: Seq<char>) -> Seq<Seq<char>> {
    formatted_rows(lines_of(s))
}

/// The identifiers for a sequence of lines, in step with
/// `formatted_rows`: every non-empty line's identifier token, in order.
pub open spec fn ident_rows(ls: Seq<Seq<char>>) -> Seq<Seq<char>>
    decreases ls.len(),
{
    if ls.len() == 0 {
        Seq::empty()
    } else {
        let rest = ident_rows(ls.drop_last());
        if ls.last().len() == 0 {
            rest
        } else {
            rest.push(line_ident_spec(ls.last()))
        }
    }
}

/// The identifiers for the inventory command's captured text, in step
/// with `inventory_rows_spec`.
pub open spec fn inventory_idents_spec(s: Seq<char>) -> Seq<Seq<char>> {
    ident_rows(lines_of(s))
}

/// Splits the inventory command's captured text into lines and builds an
/// entry for every non-empty one, preserving order: the formatted display
/// row, paired with the identifier taken from the raw line. An empty
/// result means no applications were found.
pub fn inventory_entries(text: &str) -> (r: Vec<DisplayRow>)
    ensures
        displays_of(r@) == inventory_rows_spec(text@),
        idents_of(r@) == inventory_idents_spec(text@),
{
    let n = text.unicode_len();
    let mut rows: Vec<DisplayRow> = Vec::new();
    let mut seg_start: usize = 0;
    let mut i: usize = 0;
    proof {
        assert(text@.subrange(0, 0) =~= Seq::<char>::empty());
        assert(text@.subrange(0, 0).subrange(0, 0) =~= Seq::<char>::empty());
    }
    while i < n
        invariant
            n == text@.len(),
            seg_start <= i <= n,
            raw_segments(text@.subrange(0, i as int)).last() == text@.subrange(
                seg_start as int,
                i as int,
            ),
            displays_of(rows@) == formatted_rows(
                raw_segments(text@.subrange(0, i as int)).drop_last(),
            ),
            idents_of(rows@) == ident_rows(
                raw_segments(text@.subrange(0, i as int)).drop_last(),
            ),
        decreases n - i,
    {
        let ghost pre = text@.subrange(0, i as int);
        let ghost pre2 = text@.subrange(0, i as int + 1);
        proof {
            lemma_segments_nonempty(pre);
            assert(pre2.drop_last() =~= pre);
            assert(pre2.last() == text@[i as int]);
        }
        let c = text.get_char(i);
        if c == '\n' {
            let end = if i > seg_start && text.get_char(i - 1) == '\r' {
                i - 1
            } else {
                i
            };
            proof {
                let seg = text@.subrange(seg_start as int, i as int);
                if i > seg_start && text@[i as int - 1] == '\r' {
                    assert(seg.last() == '\r');
                    assert(strip_cr(seg) =~= text@.subrange(seg_start as int, i as int - 1));
                } else {
                    if seg.len() > 0 {
                        assert(seg.last() == text@[i as int - 1]);
                    }
                    assert(strip_cr(seg) == seg);
                }
            }
            if end > seg_start {
                let line = text.substring_char(seg_start, end);
                let row = format_row_with_id(line);
                rows.push(row);
            }
            proof {
                let segs = raw_segments(pre);
                let segs2 = raw_segments(pre2);
                let seg = text@.subrange(seg_start as int, i as int);
                let nl = strip_cr(seg);
                assert(segs.last() == seg);
                assert(segs2 == segs.update(segs.len() - 1, nl).push(Seq::empty()));
                let xs = segs2.drop_last();
                assert(xs =~= segs.drop_last().push(nl));
                assert(xs.drop_last() =~= segs.drop_last());
                assert(xs.last() == nl);
                if end > seg_start {
                    assert(nl == text@.subrange(seg_start as int, end as int));
                    assert(nl.len() > 0);
                } else {
                    assert(nl.len() == 0);
                }
                assert(displays_of(rows@) =~= formatted_rows(xs));
                assert(idents_of(rows@) =~= ident_rows(xs));
            }
            seg_start = i + 1;
            proof {
                assert(text@.subrange(seg_start as int, i as int + 1) =~= Seq::<char>::empty());
            }
        } else {
            proof {
                let segs = raw_segments(pre);
                let segs2 = raw_segments(pre2);
                assert(segs2 == segs.update(segs.len() - 1, segs.last().push(text@[i as int])));
                assert(segs2.drop_last() =~= segs.drop_last());
                assert(segs2.last() == segs.last().push(text@[i as int]));
                assert(text@.subrange(seg_start as int, i as int).push(text@[i as int])
                    =~= text@.subrange(seg_start as int, i as int + 1));
            }
        }
        i += 1;
    }
    proof {
        assert(text@.subrange(0, n as int) =~= text@);
        lemma_segments_nonempty(text@);
    }
    if seg_start < n {
        let line = text.substring_char(seg_start, n);
        let row = format_row_with_id(line);
        rows.push(row);
        proof {
            let segs = raw_segments(text@);
            assert(segs.last().len() > 0);
            assert(lines_of(text@) == segs);
            assert(segs =~= segs.drop_last().push(segs.last()));
            assert(formatted_rows(segs) == formatted_rows(segs.drop_last()).push(
                format_row_spec(segs.last()),
            ));
            assert(ident_rows(segs) == ident_rows(segs.drop_last()).push(
                line_ident_spec(segs.last()),
            ));
            assert(displays_of(rows@) =~= inventory_rows_spec(text@));
            assert(idents_of(rows@) =~= inventory_idents_spec(text@));
        }
    } else {
        proof {
            let segs = raw_segments(text@);
            assert(segs.last() =~= Seq::<char>::empty());
            assert(lines_of(text@) == segs.drop_last());
        }
    }
    rows
}

/// Splits the inventory command's captured text into lines and formats
/// every non-empty one into a display row, preserving order: the display
/// texts of `inventory_entries`.
pub fn format_inventory(text: &str) -> (r: Vec<String>)
    ensures
        views_of(r@) == inventory_rows_spec(text@),
{
    let entries = inventory_entries(text);
    entry_displays(&entries)
}

/// The header line shown above the display rows in the fuzzy-finder,
/// naming the six columns.
pub open spec fn selector_header() -> Seq<char> {
    "Name                 AppID                                    Version     Branch     Origin               Installation    \n"@
}

/// The text fed to the fuzzy-finder: the header line, then every display
/// row, joined by line feeds.
pub open spec fn fzf_input_spec(rows: Seq<Seq<char>>) -> Seq<char> {
    selector_header() + join_sep(rows, '\n')
}

/// Assembles the fuzzy-finder's input from the display rows: the column
/// header line followed by the rows joined with line feeds.
pub fn build_fzf_input(rows: &Vec<String>) -> (r: String)
    ensures
        r@ == fzf_input_spec(views_of(rows@)),
{
    let mut r = String::from_str(
        "Name                 AppID                                    Version     Branch     Origin               Installation    \n",
    );
    if rows.len() == 0 {
        proof {
            assert(views_of(rows@) =~= Seq::<Seq<char>>::empty());
            assert(r@ =~= fzf_input_spec(views_of(rows@)));
        }
        return r;
    }
    proof {
        reveal_strlit("\n");
    }
    let joined = join_with(rows, rows.len(), "\n");
    r.append(joined.as_str());
    proof {
        assert(views_of(rows@).subrange(0, rows@.len() as int) =~= views_of(rows@));
        assert("\n"@[0] == '\n');
    }
    r
}

/// The prefix of every run command.
pub open spec fn run_prefix() -> Seq<char> {
    "flatpak run "@
}

/// The run command for an identifier and one line of raw user input: the
/// fixed prefix, the identifier, a space, and the user's trailing
/// arguments trimmed of surrounding whitespace. With no extra arguments
/// the command keeps its trailing space.
pub open spec fn run_command_spec(id: Seq<char>, input: Seq<char>) -> Seq<char> {
    run_prefix() + id + seq![' '] + trimmed(input)
}

/// Builds the command line that launches the selected application,
/// appending the user's trailing arguments as `run_command_spec` says.
pub fn build_run_command(id: &str, user_input: &str) -> (r: String)
    ensures
        r@ == run_command_spec(id@, user_input@),
{
    let mut r = String::from_str("flatpak run ");
    r.append(id);
    r.append(" ");
    let t = trim_whitespace(user_input);
    r.append(t.as_str());
    proof {
        reveal_strlit(" ");
        assert(" "@ =~= seq![' ']);
        assert(r@ =~= run_command_spec(id@, user_input@));
    }
    r
}

/// The uncommitted command preview shown while the user may still type
/// trailing arguments: the run prefix followed by the identifier.
pub fn command_preview(id: &str) -> (r: String)
    ensures
        r@ == run_prefix() + id@,
{
    let mut r = String::from_str("flatpak run ");
    r.append(id);
    r
}

} // verus!
