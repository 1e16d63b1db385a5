//! The event-stream transformer: a single pass over the parse events that
//! highlights code blocks, injects heading anchors, substitutes rendered
//! math and lowers the `:::spoiler` syntax to a disclosure widget.
//!
//! External typesetting and highlighting are capabilities of the caller: for
//! each event, `required_action` names the fragment the caller must render,
//! and `step` consumes the event together with that fragment. The functional
//! behaviour of `step` is pinned down exactly by `spec_step`.

use vstd::prelude::*;
use vstd::string::*;
use crate::directive::{parse_code_directive, spec_directive};
use crate::events::{EventModel, ExtRequest, MdEvent, RequestModel};
use crate::lang::{is_supported_lang, plain_text};
use crate::render::{
    add_line_numbers, anchor_html, details_close, details_open, heading_anchor, math_div_close,
    math_div_open, spec_number_lines, summary_close, summary_open, wrap_math_display, wrap_summary,
};
use crate::text::{
    find_space, first_where, hyphenate, lemma_first_where_of, spec_lines, spec_trim_end,
    split_lines, starts_with, starts_with_lit, trim_end_idx,
};

verus! {

/// The line-initial literal that opens a spoiler block.
pub open spec fn spoiler_lit() -> Seq<char> {
    ":::spoiler"@
}

/// The line-initial literal that closes a spoiler block.
pub open spec fn colons_lit() -> Seq<char> {
    ":::"@
}

/// The transformer's contextual state while scanning the stream.
#[verifier::ext_equal]
pub struct StateModel {
    pub in_code_block: bool,
    pub language: Seq<char>,
    pub line_numbers: bool,
    pub in_heading: bool,
    pub heading_level: u8,
    pub in_spoiler: bool,
    pub pending_summary: bool,
}

/// The state a conversion starts from.
pub open spec fn initial_state() -> StateModel {
    StateModel {
        in_code_block: false,
        language: plain_text(),
        line_numbers: false,
        in_heading: false,
        heading_level: 1,
        in_spoiler: false,
        pending_summary: false,
    }
}

/// The state invariant: the recorded language is always a member of the
/// allow-list or the plain-text sentinel, and a summary can only be pending
/// inside a spoiler.
pub open spec fn wf(s: StateModel) -> bool {
    &&& is_supported_lang(s.language) || s.language == plain_text()
    &&& s.pending_summary ==> s.in_spoiler
}

/// What must be rendered externally before an event can be processed:
/// math is always typeset; text inside a code block is highlighted under
/// the current language. Nothing else needs outside work.
pub open spec fn spec_required(s: StateModel, e: EventModel) -> Option<RequestModel> {
    match e {
        EventModel::InlineMath(t) => Some(RequestModel::Math { source: t, display: false }),
        EventModel::DisplayMath(t) => Some(RequestModel::Math { source: t, display: true }),
        EventModel::Text(t) => if s.in_code_block {
            Some(RequestModel::Highlight { code: t, language: s.language })
        } else {
            None
        },
        _ => None,
    }
}

pub open spec fn needs_ext(s: StateModel, e: EventModel) -> bool {
    spec_required(s, e) is Some
}

/// A pending spoiler summary claims the next emitted content: the event is
/// wrapped in summary markers and the flag is cleared; otherwise the event
/// passes through alone.
pub open spec fn spec_wrap_pending(s: StateModel, e: EventModel) -> (StateModel, Seq<EventModel>) {
    if s.pending_summary {
        (
            StateModel { pending_summary: false, ..s },
            seq![
                EventModel::InlineHtml(summary_open()),
                e,
                EventModel::InlineHtml(summary_close()),
            ],
        )
    } else {
        (s, seq![e])
    }
}

/// One line of body text. A line starting with the spoiler-open literal
/// while no spoiler is open emits a disclosure-open marker; its remainder
/// after the first space of the end-trimmed line, if any, becomes an
/// explicit summary, and otherwise the summary stays pending. A line
/// starting with the triple-colon literal while a spoiler is open emits the
/// disclosure-close marker and discards a still-pending summary. Any other
/// line becomes the pending summary if one is owed, and otherwise is
/// emitted as text followed by an explicit newline.
pub open spec fn spec_process_line(s: StateModel, line: Seq<char>) -> (StateModel, Seq<
    EventModel,
>) {
    if starts_with(line, spoiler_lit()) && !s.in_spoiler {
        let t = spec_trim_end(line);
        let k = first_where(t, |c: char| c == ' ');
        if k < t.len() {
            (
                StateModel { in_spoiler: true, ..s },
                seq![
                    EventModel::InlineHtml(details_open()),
                    EventModel::Html(summary_open() + t.skip(k as int + 1) + summary_close()),
                ],
            )
        } else {
            (
                StateModel { in_spoiler: true, pending_summary: true, ..s },
                seq![EventModel::InlineHtml(details_open())],
            )
        }
    } else if starts_with(line, colons_lit()) && s.in_spoiler {
        (
            StateModel { in_spoiler: false, pending_summary: false, ..s },
            seq![EventModel::InlineHtml(details_close())],
        )
    } else if s.pending_summary {
        (
            StateModel { pending_summary: false, ..s },
            seq![
                EventModel::InlineHtml(summary_open()),
                EventModel::Text(line),
                EventModel::InlineHtml(summary_close()),
            ],
        )
    } else {
        (s, seq![EventModel::Text(line), EventModel::Text("\n"@)])
    }
}

/// Folds `spec_process_line` over the lines of a text run, in order.
pub open spec fn spec_process_lines(s: StateModel, ls: Seq<Seq<char>>) -> (StateModel, Seq<
    EventModel,
>)
    decreases ls.len(),
{
    if ls.len() == 0 {
        (s, Seq::empty())
    } else {
        let h = spec_process_line(s, ls[0]);
        let r = spec_process_lines(h.0, ls.drop_first());
        (r.0, h.1 + r.1)
    }
}

pub proof fn lemma_process_lines_snoc(s: StateModel, ls: Seq<Seq<char>>, x: Seq<char>)
    ensures
        spec_process_lines(s, ls.push(x)).0 == spec_process_line(
            spec_process_lines(s, ls).0,
            x,
        ).0,
        spec_process_lines(s, ls.push(x)).1 == spec_process_lines(s, ls).1 + spec_process_line(
            spec_process_lines(s, ls).0,
            x,
        ).1,
    decreases ls.len(),
{
    if ls.len() == 0 {
        let h = spec_process_line(s, x);
        assert(ls.push(x)[0] == x);
        assert(ls.push(x).drop_first() =~= Seq::<Seq<char>>::empty());
        assert(spec_process_lines(h.0, ls.push(x).drop_first()).0 == h.0);
        assert(spec_process_lines(h.0, ls.push(x).drop_first()).1 =~= Seq::<EventModel>::empty());
        assert(spec_process_lines(s, ls).0 == s);
        assert(spec_process_lines(s, ls).1 =~= Seq::<EventModel>::empty());
        assert(spec_process_lines(s, ls.push(x)).0 == h.0);
        assert(spec_process_lines(s, ls.push(x)).1 =~= spec_process_lines(s, ls).1
            + spec_process_line(spec_process_lines(s, ls).0, x).1);
    } else {
        assert(ls.push(x)[0] == ls[0]);
        assert(ls.push(x).drop_first() =~= ls.drop_first().push(x));
        let h = spec_process_line(s, ls[0]);
        let a = spec_process_lines(h.0, ls.drop_first());
        lemma_process_lines_snoc(h.0, ls.drop_first(), x);
        let b = spec_process_line(a.0, x);
        assert(spec_process_lines(s, ls.push(x)).0 == spec_process_lines(
            h.0,
            ls.drop_first().push(x),
        ).0);
        assert(spec_process_lines(s, ls.push(x)).1 =~= h.1 + spec_process_lines(
            h.0,
            ls.drop_first().push(x),
        ).1);
        assert(spec_process_lines(s, ls).0 == a.0);
        assert(spec_process_lines(s, ls).1 =~= h.1 + a.1);
        assert(h.1 + (a.1 + b.1) =~= (h.1 + a.1) + b.1);
        assert(spec_process_lines(s, ls.push(x)).1 =~= spec_process_lines(s, ls).1
            + spec_process_line(spec_process_lines(s, ls).0, x).1);
    }
}

/// One transformation step: the new state and the events emitted for `e`,
/// given the externally rendered fragment `ext` where one is needed.
pub open spec fn spec_step(s: StateModel, e: EventModel, ext: Option<Seq<char>>) -> (StateModel,
    Seq<EventModel>) {
    match e {
        EventModel::InlineMath(_) => spec_wrap_pending(s, EventModel::Html(ext->0)),
        EventModel::DisplayMath(_) => spec_wrap_pending(
            s,
            EventModel::Html(math_div_open() + ext->0 + math_div_close()),
        ),
        EventModel::HeadingStart(level, tok) => (
            StateModel { in_heading: true, heading_level: level, ..s },
            seq![EventModel::HeadingStart(level, tok)],
        ),
        EventModel::FencedCodeStart(info) => (
            StateModel {
                in_code_block: true,
                language: spec_directive(info).0,
                line_numbers: spec_directive(info).1,
                ..s
            },
            seq![EventModel::FencedCodeStart(spec_directive(info).0)],
        ),
        EventModel::IndentedCodeStart => (
            StateModel { in_code_block: true, language: plain_text(), line_numbers: false, ..s },
            seq![EventModel::IndentedCodeStart],
        ),
        EventModel::Text(t) => if s.in_code_block {
            (
                s,
                seq![
                    EventModel::Html(
                        if s.line_numbers {
                            spec_number_lines(ext->0)
                        } else {
                            ext->0
                        },
                    ),
                ],
            )
        } else if s.in_heading {
            (s, seq![EventModel::Text(t), EventModel::Html(anchor_html(hyphenate(t)))])
        } else {
            spec_process_lines(s, spec_lines(t))
        },
        EventModel::HeadingEnd(level) => (
            StateModel { in_heading: false, ..s },
            seq![EventModel::HeadingEnd(level)],
        ),
        EventModel::CodeEnd => (
            StateModel { in_code_block: false, ..s },
            seq![EventModel::CodeEnd],
        ),
        EventModel::OtherStart(tok) => (s, seq![EventModel::OtherStart(tok)]),
        EventModel::OtherEnd(tok) => (s, seq![EventModel::OtherEnd(tok)]),
        EventModel::Html(_) => spec_wrap_pending(s, e),
        EventModel::InlineHtml(_) => spec_wrap_pending(s, e),
        EventModel::Other(_) => spec_wrap_pending(s, e),
    }
}

/// The transformer's state, fresh per conversion call.
pub struct Transformer {
    in_code_block: bool,
    language: String,
    line_numbers: bool,
    in_heading: bool,
    heading_level: u8,
    in_spoiler: bool,
    pending_summary: bool,
}

impl View for Transformer {
    type V = StateModel;

    closed spec fn view(&self) -> StateModel {
        StateModel {
            in_code_block: self.in_code_block,
            language: self.language@,
            line_numbers: self.line_numbers,
            in_heading: self.in_heading,
            heading_level: self.heading_level,
            in_spoiler: self.in_spoiler,
            pending_summary: self.pending_summary,
        }
    }
}

impl Transformer {
    /// A transformer in the initial state.
    pub fn new() -> (r: Transformer)
        ensures
            r@ == initial_state(),
    {
        let r = Transformer {
            in_code_block: false,
            language: "plaintext".to_owned(),
            line_numbers: false,
            in_heading: false,
            heading_level: 1,
            in_spoiler: false,
            pending_summary: false,
        };
        proof {
            assert(r@ =~= initial_state());
        }
        r
    }

    /// The level recorded at the open heading; a heading-end event must
    /// close exactly this level.
    pub fn heading_level(&self) -> (r: u8)
        ensures
            r == self@.heading_level,
    {
        self.heading_level
    }

    /// Names the external rendering `step` will need for `e`, if any.
    pub fn required_action(&self, e: &MdEvent) -> (r: Option<ExtRequest>)
        ensures
            r.deep_view() == spec_required(self@, e@),
    {
        match e {
            MdEvent::InlineMath(t) => Some(
                ExtRequest::Math { source: t.clone(), display: false },
            ),
            MdEvent::DisplayMath(t) => Some(ExtRequest::Math { source: t.clone(), display: true }),
            MdEvent::Text(t) => if self.in_code_block {
                Some(ExtRequest::Highlight { code: t.clone(), language: self.language.clone() })
            } else {
                None
            },
            _ => None,
        }
    }

    /// Emits an event, wrapped as the pending spoiler summary if one is owed.
    fn emit_default(&mut self, e: MdEvent, out: &mut Vec<MdEvent>)
        ensures
            final(self)@ == spec_wrap_pending(old(self)@, e@).0,
            final(out).deep_view() == old(out).deep_view() + spec_wrap_pending(old(self)@, e@).1,
    {
        let ghost em = e@;
        if self.pending_summary {
            self.pending_summary = false;
            out.push(MdEvent::InlineHtml("<summary>".to_owned()));
            out.push(e);
            out.push(MdEvent::InlineHtml("</summary>".to_owned()));
            proof {
                assert(self@ =~= spec_wrap_pending(old(self)@, em).0);
                assert(out.deep_view() =~= old(out).deep_view() + spec_wrap_pending(
                    old(self)@,
                    em,
                ).1);
            }
        } else {
            out.push(e);
            proof {
                assert(out.deep_view() =~= old(out).deep_view() + spec_wrap_pending(
                    old(self)@,
                    em,
                ).1);
            }
        }
    }

    /// Processes one line of body text, per `spec_process_line`.
    fn do_line(&mut self, line: &str, out: &mut Vec<MdEvent>)
        ensures
            final(self)@ == spec_process_line(old(self)@, line@).0,
            final(out).deep_view() == old(out).deep_view() + spec_process_line(
                old(self)@,
                line@,
            ).1,
    {
        if starts_with_lit(line, ":::spoiler") && !self.in_spoiler {
            out.push(MdEvent::InlineHtml("<details>".to_owned()));
            self.in_spoiler = true;
            let e = trim_end_idx(line);
            let trimmed = line.substring_char(0, e);
            proof {
                assert(trimmed@ =~= spec_trim_end(line@));
            }
            let tn = e;
            let k = find_space(trimmed, 0);
            proof {
                lemma_first_where_of(trimmed@, |c: char| c == ' ', k as int);
            }
            if k < tn {
                let rest = trimmed.substring_char(k + 1, tn);
                proof {
                    assert(rest@ =~= spec_trim_end(line@).skip(k as int + 1));
                }
                let summary = wrap_summary(rest);
                out.push(MdEvent::Html(summary));
                proof {
                    assert(self@ =~= spec_process_line(old(self)@, line@).0);
                    assert(out.deep_view() =~= old(out).deep_view() + spec_process_line(
                        old(self)@,
                        line@,
                    ).1);
                }
            } else {
                self.pending_summary = true;
                proof {
                    assert(self@ =~= spec_process_line(old(self)@, line@).0);
                    assert(out.deep_view() =~= old(out).deep_view() + spec_process_line(
                        old(self)@,
                        line@,
                    ).1);
                }
            }
        } else if starts_with_lit(line, ":::") && self.in_spoiler {
            out.push(MdEvent::InlineHtml("</details>".to_owned()));
            self.in_spoiler = false;
            self.pending_summary = false;
            proof {
                assert(self@ =~= spec_process_line(old(self)@, line@).0);
                assert(out.deep_view() =~= old(out).deep_view() + spec_process_line(
                    old(self)@,
                    line@,
                ).1);
            }
        } else if self.pending_summary {
            self.pending_summary = false;
            out.push(MdEvent::InlineHtml("<summary>".to_owned()));
            out.push(MdEvent::Text(line.to_owned()));
            out.push(MdEvent::InlineHtml("</summary>".to_owned()));
            proof {
                assert(self@ =~= spec_process_line(old(self)@, line@).0);
                assert(out.deep_view() =~= old(out).deep_view() + spec_process_line(
                    old(self)@,
                    line@,
                ).1);
            }
        } else {
            out.push(MdEvent::Text(line.to_owned()));
            out.push(MdEvent::Text("\n".to_owned()));
            proof {
                reveal_strlit("\n");
                assert(out.deep_view() =~= old(out).deep_view() + spec_process_line(
                    old(self)@,
                    line@,
                ).1);
            }
        }
    }

    /// Consumes one event and returns the events emitted for it, per
    /// `spec_step`. `ext` must be present exactly when `required_action`
    /// names a rendering, and a heading end must close the recorded level
    /// (a mismatch is a structural defect of the upstream stream, which
    /// this transformer does not accept).
    pub fn step(&mut self, e: MdEvent, ext: Option<String>) -> (out: Vec<MdEvent>)
        requires
            (ext is Some) == needs_ext(old(self)@, e@),
            e@ matches EventModel::HeadingEnd(level) ==> level == old(self)@.heading_level,
        ensures
            final(self)@ == spec_step(old(self)@, e@, ext.deep_view()).0,
            out.deep_view() == spec_step(old(self)@, e@, ext.deep_view()).1,
    {
        let ghost em = e@;
        let ghost extm = ext.deep_view();
        let mut out: Vec<MdEvent> = Vec::new();
        proof {
            assert(out.deep_view() =~= Seq::<EventModel>::empty());
        }
        match e {
            MdEvent::InlineMath(_t) => {
                let rendered = ext.unwrap();
                self.emit_default(MdEvent::Html(rendered), &mut out);
                proof {
                    assert(out.deep_view() =~= Seq::<EventModel>::empty() + spec_step(
                        old(self)@,
                        em,
                        extm,
                    ).1);
                }
            },
            MdEvent::DisplayMath(_t) => {
                let rendered = ext.unwrap();
                let wrapped = wrap_math_display(rendered.as_str());
                self.emit_default(MdEvent::Html(wrapped), &mut out);
                proof {
                    assert(out.deep_view() =~= Seq::<EventModel>::empty() + spec_step(
                        old(self)@,
                        em,
                        extm,
                    ).1);
                }
            },
            MdEvent::HeadingStart(level, tok) => {
                self.in_heading = true;
                self.heading_level = level;
                out.push(MdEvent::HeadingStart(level, tok));
                proof {
                    assert(self@ =~= spec_step(old(self)@, em, extm).0);
                    assert(out.deep_view() =~= spec_step(old(self)@, em, extm).1);
                }
            },
            MdEvent::FencedCodeStart(info) => {
                self.in_code_block = true;
                let (lang, num) = parse_code_directive(info.as_str());
                self.line_numbers = num;
                self.language = lang.clone();
                out.push(MdEvent::FencedCodeStart(lang));
                proof {
                    assert(self@ =~= spec_step(old(self)@, em, extm).0);
                    assert(out.deep_view() =~= spec_step(old(self)@, em, extm).1);
                }
            },
            MdEvent::IndentedCodeStart => {
                self.in_code_block = true;
                self.language = "plaintext".to_owned();
                self.line_numbers = false;
                out.push(MdEvent::IndentedCodeStart);
                proof {
                    assert(self@ =~= spec_step(old(self)@, em, extm).0);
                    assert(out.deep_view() =~= spec_step(old(self)@, em, extm).1);
                }
            },
            MdEvent::Text(t) => {
                if self.in_code_block {
                    let hl = ext.unwrap();
                    if self.line_numbers {
                        out.push(MdEvent::Html(add_line_numbers(hl.as_str())));
                    } else {
                        out.push(MdEvent::Html(hl));
                    }
                    proof {
                        assert(out.deep_view() =~= spec_step(old(self)@, em, extm).1);
                    }
                } else if self.in_heading {
                    let anchor = heading_anchor(t.as_str());
                    out.push(MdEvent::Text(t));
                    out.push(MdEvent::Html(anchor));
                    proof {
                        assert(out.deep_view() =~= spec_step(old(self)@, em, extm).1);
                    }
                } else {
                    let lines = split_lines(t.as_str());
                    let ghost ls = lines.deep_view();
                    let ghost s0 = self@;
                    let n = lines.len();
                    let mut i: usize = 0;
                    proof {
                        assert(ls.take(0) =~= Seq::<Seq<char>>::empty());
                        assert(out.deep_view() =~= spec_process_lines(s0, ls.take(0)).1);
                    }
                    while i < n
                        invariant
                            i <= n,
                            n == lines@.len(),
                            ls == lines.deep_view(),
                            self@ == spec_process_lines(s0, ls.take(i as int)).0,
                            out.deep_view() == spec_process_lines(s0, ls.take(i as int)).1,
                        decreases n - i,
                    {
                        proof {
                            assert(lines[i as int].deep_view() == ls[i as int]);
                            lemma_process_lines_snoc(s0, ls.take(i as int), ls[i as int]);
                            assert(ls.take(i as int).push(ls[i as int]) =~= ls.take(i as int + 1));
                        }
                        self.do_line(lines[i].as_str(), &mut out);
                        i += 1;
                    }
                    proof {
                        assert(ls.take(n as int) =~= ls);
                        assert(self@ == spec_step(old(self)@, em, extm).0);
                        assert(out.deep_view() == spec_step(old(self)@, em, extm).1);
                    }
                }
            },
            MdEvent::HeadingEnd(level) => {
                self.in_heading = false;
                out.push(MdEvent::HeadingEnd(level));
                proof {
                    assert(self@ =~= spec_step(old(self)@, em, extm).0);
                    assert(out.deep_view() =~= spec_step(old(self)@, em, extm).1);
                }
            },
            MdEvent::CodeEnd => {
                self.in_code_block = false;
                out.push(MdEvent::CodeEnd);
                proof {
                    assert(self@ =~= spec_step(old(self)@, em, extm).0);
                    assert(out.deep_view() =~= spec_step(old(self)@, em, extm).1);
                }
            },
            MdEvent::OtherStart(tok) => {
                out.push(MdEvent::OtherStart(tok));
                proof {
                    assert(out.deep_view() =~= spec_step(old(self)@, em, extm).1);
                }
            },
            MdEvent::OtherEnd(tok) => {
                out.push(MdEvent::OtherEnd(tok));
                proof {
                    assert(out.deep_view() =~= spec_step(old(self)@, em, extm).1);
                }
            },
            MdEvent::Html(t) => {
                self.emit_default(MdEvent::Html(t), &mut out);
                proof {
                    assert(out.deep_view() =~= Seq::<EventModel>::empty() + spec_step(
                        old(self)@,
                        em,
                        extm,
                    ).1);
                }
            },
            MdEvent::InlineHtml(t) => {
                self.emit_default(MdEvent::InlineHtml(t), &mut out);
                proof {
                    assert(out.deep_view() =~= Seq::<EventModel>::empty() + spec_step(
                        old(self)@,
                        em,
                        extm,
                    ).1);
                }
            },
            MdEvent::Other(tok) => {
                self.emit_default(MdEvent::Other(tok), &mut out);
                proof {
                    assert(out.deep_view() =~= Seq::<EventModel>::empty() + spec_step(
                        old(self)@,
                        em,
                        extm,
                    ).1);
                }
            },
        }
        out
    }
}

} // verus!
