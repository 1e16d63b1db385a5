//! The parse events the transformer consumes and produces. Events the
//! transformer only forwards are carried as opaque tokens that the caller
//! resolves back to the collaborator's own event values; everything the
//! transformer reads or synthesizes is held as plain text.

use vstd::prelude::*;

verus! {

/// One unit of Markdown structure or content.
///
/// `HeadingStart` and the three `Other` variants carry a token under which
/// the caller keeps the collaborator's original event, so that forwarding
/// preserves it verbatim (a heading start also carries its level, which the
/// transformer reads). `FencedCodeStart` carries the info string on input
/// and the normalized language tag on output.
#[derive(Debug, Clone, PartialEq, Eq)]
pub enum MdEvent {
    Text(String),
    InlineMath(String),
    DisplayMath(String),
    Html(String),
    InlineHtml(String),
    HeadingStart(u8, u64),
    HeadingEnd(u8),
    FencedCodeStart(String),
    IndentedCodeStart,
    CodeEnd,
    OtherStart(u64),
    OtherEnd(u64),
    Other(u64),
}

/// The mathematical model of an event: text as a character sequence.
#[verifier::ext_equal]
pub enum EventModel {
    Text(Seq<char>),
    InlineMath(Seq<char>),
    DisplayMath(Seq<char>),
    Html(Seq<char>),
    InlineHtml(Seq<char>),
    HeadingStart(u8, u64),
    HeadingEnd(u8),
    FencedCodeStart(Seq<char>),
    IndentedCodeStart,
    CodeEnd,
    OtherStart(u64),
    OtherEnd(u64),
    Other(u64),
}

impl View for MdEvent {
    type V = EventModel;

    open spec fn view(&self) -> EventModel {
        match self {
            MdEvent::Text(t) => EventModel::Text(t@),
            MdEvent::InlineMath(t) => EventModel::InlineMath(t@),
            MdEvent::DisplayMath(t) => EventModel::DisplayMath(t@),
            MdEvent::Html(t) => EventModel::Html(t@),
            MdEvent::InlineHtml(t) => EventModel::InlineHtml(t@),
            MdEvent::HeadingStart(level, tok) => EventModel::HeadingStart(*level, *tok),
            MdEvent::HeadingEnd(level) => EventModel::HeadingEnd(*level),
            MdEvent::FencedCodeStart(info) => EventModel::FencedCodeStart(info@),
            MdEvent::IndentedCodeStart => EventModel::IndentedCodeStart,
            MdEvent::CodeEnd => EventModel::CodeEnd,
            MdEvent::OtherStart(tok) => EventModel::OtherStart(*tok),
            MdEvent::OtherEnd(tok) => EventModel::OtherEnd(*tok),
            MdEvent::Other(tok) => EventModel::Other(*tok),
        }
    }
}

impl DeepView for MdEvent {
    type V = EventModel;

    open spec fn deep_view(&self) -> EventModel {
        self.view()
    }
}

/// What the transformer needs an external collaborator to render before it
/// can process an event: LaTeX math typeset to HTML, or source code
/// highlighted under a language of the allow-list.
#[derive(Debug, Clone, PartialEq, Eq)]
pub enum ExtRequest {
    Math { source: String, display: bool },
    Highlight { code: String, language: String },
}

#[verifier::ext_equal]
pub enum RequestModel {
    Math { source: Seq<char>, display: bool },
    Highlight { code: Seq<char>, language: Seq<char> },
}

impl View for ExtRequest {
    type V = RequestModel;

    open spec fn view(&self) -> RequestModel {
        match self {
            ExtRequest::Math { source, display } => RequestModel::Math {
                source: source@,
                display: *display,
            },
            ExtRequest::Highlight { code, language } => RequestModel::Highlight {
                code: code@,
                language: language@,
            },
        }
    }
}

impl DeepView for ExtRequest {
    type V = RequestModel;

    open spec fn deep_view(&self) -> RequestModel {
        self.view()
    }
}

} // verus!
