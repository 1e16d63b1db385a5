//! Properties of the transformer that hold across functions: the state
//! invariant, the heading-anchor law, and the spoiler delimiter laws.

use vstd::prelude::*;
use crate::events::EventModel;
use crate::render::{
    anchor_html, anchor_mid, anchor_post, anchor_pre, details_open, summary_close, summary_open,
};
use crate::text::{
    first_where, hyphenate, is_ws_char, lemma_first_where_of, spec_lines, spec_trim_end,
    starts_with,
};
use crate::transform::{
    colons_lit, spec_process_line, spec_process_lines, spec_step, spoiler_lit, wf, StateModel,
};

verus! {

proof fn lemma_process_line_wf(s: StateModel, line: Seq<char>)
    requires
        wf(s),
    ensures
        wf(spec_process_line(s, line).0),
{
}

proof fn lemma_process_lines_wf(s: StateModel, ls: Seq<Seq<char>>)
    requires
        wf(s),
    ensures
        wf(spec_process_lines(s, ls).0),
    decreases ls.len(),
{
    if ls.len() > 0 {
        lemma_process_line_wf(s, ls[0]);
        lemma_process_lines_wf(spec_process_line(s, ls[0]).0, ls.drop_first());
    }
}

/// The state invariant is preserved by every step, whatever the event and
/// whatever fragment the external renderer returned: the recorded language
/// stays a member of the allow-list or the plain-text sentinel, and a
/// summary is only ever pending inside an open spoiler.
pub proof fn lemma_step_preserves_wf(s: StateModel, e: EventModel, ext: Option<Seq<char>>)
    requires
        wf(s),
    ensures
        wf(spec_step(s, e, ext).0),
{
    match e {
        EventModel::Text(t) => {
            if !s.in_code_block && !s.in_heading {
                lemma_process_lines_wf(s, spec_lines(t));
            }
        },
        _ => {},
    }
}

/// The lines of a text with no newline are that text alone.
proof fn lemma_single_line(t: Seq<char>)
    requires
        t.len() > 0,
        forall|i: int| 0 <= i < t.len() ==> t[i] != '\n',
    ensures
        spec_lines(t) == seq![t],
{
    lemma_first_where_of(t, |c: char| c == '\n', t.len() as int);
    assert(spec_lines(t) =~= seq![t]);
}

/// Folding the line processor over a single line is processing that line.
proof fn lemma_process_lines_singleton(s: StateModel, line: Seq<char>)
    ensures
        spec_process_lines(s, seq![line]).0 == spec_process_line(s, line).0,
        spec_process_lines(s, seq![line]).1 == spec_process_line(s, line).1,
{
    let ls = seq![line];
    let h = spec_process_line(s, line);
    assert(ls[0] == line);
    assert(ls.drop_first() =~= Seq::<Seq<char>>::empty());
    assert(spec_process_lines(h.0, ls.drop_first()).0 == h.0);
    assert(spec_process_lines(h.0, ls.drop_first()).1 =~= Seq::<EventModel>::empty());
    assert(spec_process_lines(s, ls).1 =~= h.1 + Seq::<EventModel>::empty());
    assert(h.1 + Seq::<EventModel>::empty() =~= h.1);
}

/// Every heading text is forwarded unchanged and followed by a synthesized
/// self-link anchor whose identifier is the heading text with every space
/// replaced by a hyphen and nothing else changed; the anchor's `id` and its
/// `href` fragment are one and the same identifier.
pub proof fn lemma_heading_anchor_law(s: StateModel, t: Seq<char>, ext: Option<Seq<char>>)
    requires
        !s.in_code_block,
        s.in_heading,
    ensures
        ({
            let ident = hyphenate(t);
            &&& spec_step(s, EventModel::Text(t), ext).1 == seq![
                EventModel::Text(t),
                EventModel::Html(
                    anchor_pre() + ident + anchor_mid() + ident + anchor_post(),
                ),
            ]
            &&& ident.len() == t.len()
            &&& forall|i: int| 0 <= i < t.len() ==> ident[i] == (if t[i] == ' ' {
                '-'
            } else {
                t[i]
            })
        }),
{
    assert(anchor_html(hyphenate(t)) == anchor_pre() + hyphenate(t) + anchor_mid() + hyphenate(t)
        + anchor_post());
}

/// A spoiler opened with an inline argument: the line `:::spoiler Title`
/// (no newline, nothing trailing) emits the disclosure-open marker and a
/// summary holding exactly `Title`, and opens the spoiler.
pub proof fn lemma_spoiler_inline_summary(s: StateModel, title: Seq<char>)
    requires
        !s.in_spoiler,
        !s.pending_summary,
        !s.in_code_block,
        !s.in_heading,
        title.len() > 0,
        forall|i: int| 0 <= i < title.len() ==> title[i] != '\n',
        !is_ws_char(title.last()),
    ensures
        ({
            let line = ":::spoiler "@ + title;
            &&& spec_step(s, EventModel::Text(line), None).0 == StateModel {
                in_spoiler: true,
                ..s
            }
            &&& spec_step(s, EventModel::Text(line), None).1 == seq![
                EventModel::InlineHtml(details_open()),
                EventModel::Html(summary_open() + title + summary_close()),
            ]
        }),
{
    reveal_strlit(":::spoiler ");
    reveal_strlit(":::spoiler");
    let pre = ":::spoiler "@;
    let line = pre + title;
    assert(pre.len() == 11);
    assert(spoiler_lit().len() == 10);
    assert forall|i: int| 0 <= i < line.len() implies line[i] != '\n' by {
        if i < 11 {
            assert(line[i] == pre[i]);
        } else {
            assert(line[i] == title[i - 11]);
        }
    }
    lemma_single_line(line);
    lemma_process_lines_singleton(s, line);
    assert(line.take(10) =~= spoiler_lit());
    assert(starts_with(line, spoiler_lit()));
    assert(line.last() == title.last());
    assert(spec_trim_end(line) == line);
    assert forall|i: int| 0 <= i < 10 implies !((|c: char| c == ' ')(line[i])) by {
        assert(line[i] == pre[i]);
    }
    assert(line[10] == ' ');
    lemma_first_where_of(line, |c: char| c == ' ', 10);
    assert(first_where(spec_trim_end(line), |c: char| c == ' ') == 10);
    assert(line.skip(11) =~= title);
    assert(spec_process_line(s, line).0 =~= StateModel { in_spoiler: true, ..s });
    assert(spec_process_line(s, line).1 =~= seq![
        EventModel::InlineHtml(details_open()),
        EventModel::Html(summary_open() + title + summary_close()),
    ]);
}

/// A spoiler opened with no argument makes the next plain text line the
/// summary: it is emitted inside summary markers, not as ordinary body
/// content, and the pending flag is cleared by exactly this one wrap.
pub proof fn lemma_pending_summary_claimed_by_text(s: StateModel, t: Seq<char>)
    requires
        s.in_spoiler,
        s.pending_summary,
        !s.in_code_block,
        !s.in_heading,
        t.len() > 0,
        forall|i: int| 0 <= i < t.len() ==> t[i] != '\n',
        !starts_with(t, colons_lit()),
    ensures
        spec_step(s, EventModel::Text(t), None).0 == (StateModel { pending_summary: false, ..s }),
        spec_step(s, EventModel::Text(t), None).1 == (seq![
            EventModel::InlineHtml(summary_open()),
            EventModel::Text(t),
            EventModel::InlineHtml(summary_close()),
        ]),
{
    lemma_single_line(t);
    lemma_process_lines_singleton(s, t);
    assert(spec_process_line(s, t).0 =~= StateModel { pending_summary: false, ..s });
}

/// A close-delimiter line with no preceding open is not consumed as a
/// control marker: it is emitted as literal text (with its explicit
/// newline), and the state does not change.
pub proof fn lemma_stray_close_is_literal_text(s: StateModel, t: Seq<char>)
    requires
        !s.in_spoiler,
        !s.pending_summary,
        !s.in_code_block,
        !s.in_heading,
        starts_with(t, colons_lit()),
        !starts_with(t, spoiler_lit()),
        forall|i: int| 0 <= i < t.len() ==> t[i] != '\n',
    ensures
        spec_step(s, EventModel::Text(t), None).0 == s,
        spec_step(s, EventModel::Text(t), None).1 == (seq![
            EventModel::Text(t),
            EventModel::Text("\n"@),
        ]),
{
    reveal_strlit(":::");
    assert(t.len() >= 3);
    lemma_single_line(t);
    lemma_process_lines_singleton(s, t);
}

} // verus!
