//! Whole-pipeline scenarios: pulldown-cmark parses, the verified transformer
//! rewrites the event stream, and pulldown-cmark serializes the result. The
//! external math and highlighting capabilities are stubbed, as the core only
//! assumes they return some HTML fragment.

use markdown_render::{ExtRequest, MdEvent, Transformer};
use pulldown_cmark::{
    CodeBlockKind, CowStr, Event, HeadingLevel, Options, Parser, Tag, TagEnd, TextMergeStream,
};

fn parser_options() -> Options {
    let mut options = Options::empty();
    options.insert(Options::ENABLE_STRIKETHROUGH);
    options.insert(Options::ENABLE_TABLES);
    options.insert(Options::ENABLE_MATH);
    options.insert(Options::ENABLE_YAML_STYLE_METADATA_BLOCKS);
    options
}

fn to_model<'a>(e: Event<'a>, table: &mut Vec<Event<'a>>) -> MdEvent {
    match e {
        Event::Text(t) => MdEvent::Text(t.to_string()),
        Event::InlineMath(t) => MdEvent::InlineMath(t.to_string()),
        Event::DisplayMath(t) => MdEvent::DisplayMath(t.to_string()),
        Event::Html(t) => MdEvent::Html(t.to_string()),
        Event::InlineHtml(t) => MdEvent::InlineHtml(t.to_string()),
        Event::Start(Tag::Heading { level, id, classes, attrs }) => {
            let lvl = level as u8;
            let tok = table.len() as u64;
            table.push(Event::Start(Tag::Heading { level, id, classes, attrs }));
            MdEvent::HeadingStart(lvl, tok)
        }
        Event::Start(Tag::CodeBlock(CodeBlockKind::Fenced(info))) => {
            MdEvent::FencedCodeStart(info.to_string())
        }
        Event::Start(Tag::CodeBlock(CodeBlockKind::Indented)) => MdEvent::IndentedCodeStart,
        Event::Start(other) => {
            let tok = table.len() as u64;
            table.push(Event::Start(other));
            MdEvent::OtherStart(tok)
        }
        Event::End(TagEnd::Heading(level)) => MdEvent::HeadingEnd(level as u8),
        Event::End(TagEnd::CodeBlock) => MdEvent::CodeEnd,
        Event::End(other) => {
            let tok = table.len() as u64;
            table.push(Event::End(other));
            MdEvent::OtherEnd(tok)
        }
        other => {
            let tok = table.len() as u64;
            table.push(other);
            MdEvent::Other(tok)
        }
    }
}

fn from_model<'a>(m: MdEvent, table: &[Event<'a>]) -> Event<'a> {
    match m {
        MdEvent::Text(s) => Event::Text(CowStr::from(s)),
        MdEvent::InlineMath(s) => Event::InlineMath(CowStr::from(s)),
        MdEvent::DisplayMath(s) => Event::DisplayMath(CowStr::from(s)),
        MdEvent::Html(s) => Event::Html(CowStr::from(s)),
        MdEvent::InlineHtml(s) => Event::InlineHtml(CowStr::from(s)),
        MdEvent::HeadingStart(_, tok) => table[tok as usize].clone(),
        MdEvent::HeadingEnd(l) => {
            Event::End(TagEnd::Heading(HeadingLevel::try_from(l as usize).unwrap()))
        }
        MdEvent::FencedCodeStart(lang) => {
            Event::Start(Tag::CodeBlock(CodeBlockKind::Fenced(CowStr::from(lang))))
        }
        MdEvent::IndentedCodeStart => Event::Start(Tag::CodeBlock(CodeBlockKind::Indented)),
        MdEvent::CodeEnd => Event::End(TagEnd::CodeBlock),
        MdEvent::OtherStart(tok) => table[tok as usize].clone(),
        MdEvent::OtherEnd(tok) => table[tok as usize].clone(),
        MdEvent::Other(tok) => table[tok as usize].clone(),
    }
}

fn math_stub(source: &str, _display: bool) -> String {
    let mut s = String::from("<span class=\"katex\">");
    s.push_str(source);
    s.push_str("</span>");
    s
}

fn highlight_stub(code: &str, _language: &str) -> String {
    code.to_string()
}

fn md_to_html(input: &str) -> String {
    let mut table: Vec<Event> = Vec::new();
    let mut tx = Transformer::new();
    let mut events: Vec<Event> = Vec::new();
    for event in TextMergeStream::new(Parser::new_ext(input, parser_options())) {
        let m = to_model(event, &mut table);
        if let MdEvent::HeadingEnd(level) = &m {
            assert_eq!(*level, tx.heading_level(), "heading level mismatch");
        }
        let ext = match tx.required_action(&m) {
            Some(ExtRequest::Math { source, display }) => Some(math_stub(&source, display)),
            Some(ExtRequest::Highlight { code, language }) => {
                Some(highlight_stub(&code, &language))
            }
            None => None,
        };
        for o in tx.step(m, ext) {
            events.push(from_model(o, &table));
        }
    }
    let mut html = String::new();
    pulldown_cmark::html::push_html(&mut html, events.into_iter());
    html
}

#[test]
fn heading_then_paragraph() {
    let html = md_to_html("# Title\n\ncontent");
    assert!(html.contains("<h1>Title<a id=\"Title\" href=\"#Title\">"), "html: {}", html);
    assert!(
        html.contains(
            "<a id=\"Title\" href=\"#Title\"><i class=\"bi bi-link mdrd-hl\"></i></a></h1>"
        ),
        "html: {}",
        html
    );
    assert!(html.contains("<p>content"), "html: {}", html);
}

#[test]
fn fenced_python_block_with_line_numbers() {
    let html = md_to_html("```python=\nprint(1)\n```\n");
    assert!(html.contains("language-python"), "html: {}", html);
    assert!(
        html.contains("<span class=\"mdrd-ln\">1</span>print(1)\n"),
        "html: {}",
        html
    );
    assert_eq!(html.matches("mdrd-ln").count(), 1, "html: {}", html);
}

#[test]
fn unsupported_fence_tag_renders_as_plaintext() {
    let html = md_to_html("```cobol\nSTOP RUN.\n```\n");
    assert!(html.contains("language-plaintext"), "html: {}", html);
    assert!(html.contains("STOP RUN."), "html: {}", html);
    assert!(!html.contains("mdrd-ln"), "html: {}", html);
    assert!(!html.contains("cobol"), "html: {}", html);
}

#[test]
fn spoiler_paragraph_round_trip() {
    let html = md_to_html(":::spoiler Hint\nhidden text\n:::\n");
    assert!(html.contains("<details>"), "html: {}", html);
    assert!(html.contains("<summary>Hint</summary>"), "html: {}", html);
    assert!(html.contains("hidden text"), "html: {}", html);
    assert!(html.contains("</details>"), "html: {}", html);
}

#[test]
fn pending_spoiler_summary_takes_the_next_paragraph() {
    let html = md_to_html(":::spoiler\n\nThe Summary\n\n:::\n");
    assert!(html.contains("<summary>The Summary</summary>"), "html: {}", html);
    assert_eq!(html.matches("The Summary").count(), 1, "html: {}", html);
}

#[test]
fn inline_math_is_rendered_through_the_capability() {
    let html = md_to_html("a $x+1$ b");
    assert!(html.contains("<span class=\"katex\">x+1</span>"), "html: {}", html);
}

#[test]
fn display_math_gets_the_block_container() {
    let html = md_to_html("$$\nx = 1\n$$\n");
    assert!(html.contains("<div class=\"math-display\">"), "html: {}", html);
    assert!(html.contains("</div>"), "html: {}", html);
}

#[test]
fn stray_close_stays_literal() {
    let html = md_to_html("::: nothing was open\n");
    assert!(html.contains(":::"), "html: {}", html);
    assert!(!html.contains("<details>"), "html: {}", html);
    assert!(!html.contains("</details>"), "html: {}", html);
}
