use markdown_render::{ExtRequest, MdEvent, Transformer};

#[test]
fn heading_text_gets_self_link_anchor() {
    let mut tx = Transformer::new();
    let out = tx.step(MdEvent::HeadingStart(2, 0), None);
    assert_eq!(out, vec![MdEvent::HeadingStart(2, 0)]);
    let out = tx.step(MdEvent::Text(String::from("My Heading")), None);
    assert_eq!(
        out,
        vec![
            MdEvent::Text(String::from("My Heading")),
            MdEvent::Html(String::from(
                "<a id=\"My-Heading\" href=\"#My-Heading\"><i class=\"bi bi-link mdrd-hl\"></i></a>"
            )),
        ]
    );
    assert_eq!(tx.heading_level(), 2);
    let out = tx.step(MdEvent::HeadingEnd(2), None);
    assert_eq!(out, vec![MdEvent::HeadingEnd(2)]);
}

#[test]
fn anchor_keeps_case_punctuation_and_doubles_hyphens() {
    let mut tx = Transformer::new();
    tx.step(MdEvent::HeadingStart(1, 0), None);
    let out = tx.step(MdEvent::Text(String::from("A  B, c!")), None);
    match &out[1] {
        MdEvent::Html(a) => {
            assert!(a.contains("id=\"A--B,-c!\""));
            assert!(a.contains("href=\"#A--B,-c!\""));
        }
        other => panic!("expected an anchor, got {:?}", other),
    }
}

#[test]
fn spoiler_with_inline_argument_has_explicit_summary() {
    let mut tx = Transformer::new();
    let out = tx.step(MdEvent::Text(String::from(":::spoiler Title")), None);
    assert_eq!(
        out,
        vec![
            MdEvent::InlineHtml(String::from("<details>")),
            MdEvent::Html(String::from("<summary>Title</summary>")),
        ]
    );
    let out = tx.step(MdEvent::Text(String::from("body")), None);
    assert_eq!(
        out,
        vec![
            MdEvent::Text(String::from("body")),
            MdEvent::Text(String::from("\n")),
        ]
    );
    let out = tx.step(MdEvent::Text(String::from(":::")), None);
    assert_eq!(out, vec![MdEvent::InlineHtml(String::from("</details>"))]);
}

#[test]
fn spoiler_without_argument_claims_next_text_as_summary() {
    let mut tx = Transformer::new();
    let out = tx.step(MdEvent::Text(String::from(":::spoiler")), None);
    assert_eq!(out, vec![MdEvent::InlineHtml(String::from("<details>"))]);
    let out = tx.step(MdEvent::Text(String::from("The Summary")), None);
    assert_eq!(
        out,
        vec![
            MdEvent::InlineHtml(String::from("<summary>")),
            MdEvent::Text(String::from("The Summary")),
            MdEvent::InlineHtml(String::from("</summary>")),
        ]
    );
    let out = tx.step(MdEvent::Text(String::from("after")), None);
    assert_eq!(
        out,
        vec![
            MdEvent::Text(String::from("after")),
            MdEvent::Text(String::from("\n")),
        ]
    );
}

#[test]
fn spoiler_without_argument_claims_next_math_as_summary() {
    let mut tx = Transformer::new();
    tx.step(MdEvent::Text(String::from(":::spoiler")), None);
    let e = MdEvent::InlineMath(String::from("x"));
    let req = tx.required_action(&e);
    assert_eq!(
        req,
        Some(ExtRequest::Math { source: String::from("x"), display: false })
    );
    let out = tx.step(e, Some(String::from("RENDERED")));
    assert_eq!(
        out,
        vec![
            MdEvent::InlineHtml(String::from("<summary>")),
            MdEvent::Html(String::from("RENDERED")),
            MdEvent::InlineHtml(String::from("</summary>")),
        ]
    );
}

#[test]
fn stray_close_delimiter_is_literal_text() {
    let mut tx = Transformer::new();
    let out = tx.step(MdEvent::Text(String::from(":::")), None);
    assert_eq!(
        out,
        vec![
            MdEvent::Text(String::from(":::")),
            MdEvent::Text(String::from("\n")),
        ]
    );
}

#[test]
fn display_math_is_wrapped_in_its_container() {
    let mut tx = Transformer::new();
    let e = MdEvent::DisplayMath(String::from("e=mc^2"));
    let req = tx.required_action(&e);
    assert_eq!(
        req,
        Some(ExtRequest::Math { source: String::from("e=mc^2"), display: true })
    );
    let out = tx.step(e, Some(String::from("FRAGMENT")));
    assert_eq!(
        out,
        vec![MdEvent::Html(String::from("<div class=\"math-display\">FRAGMENT</div>"))]
    );
}

#[test]
fn inline_math_is_not_wrapped() {
    let mut tx = Transformer::new();
    let out = tx.step(MdEvent::InlineMath(String::from("x")), Some(String::from("FRAGMENT")));
    assert_eq!(out, vec![MdEvent::Html(String::from("FRAGMENT"))]);
}

#[test]
fn fenced_block_routes_text_through_the_highlighter() {
    let mut tx = Transformer::new();
    let out = tx.step(MdEvent::FencedCodeStart(String::from("python=")), None);
    assert_eq!(out, vec![MdEvent::FencedCodeStart(String::from("python"))]);

    let e = MdEvent::Text(String::from("print(1)\n"));
    let req = tx.required_action(&e);
    assert_eq!(
        req,
        Some(ExtRequest::Highlight {
            code: String::from("print(1)\n"),
            language: String::from("python"),
        })
    );
    let out = tx.step(e, Some(String::from("print(1)\n")));
    assert_eq!(
        out,
        vec![MdEvent::Html(String::from("<span class=\"mdrd-ln\">1</span>print(1)\n"))]
    );
    let out = tx.step(MdEvent::CodeEnd, None);
    assert_eq!(out, vec![MdEvent::CodeEnd]);
}

#[test]
fn fenced_block_without_numbering_emits_fragment_unchanged() {
    let mut tx = Transformer::new();
    tx.step(MdEvent::FencedCodeStart(String::from("rust")), None);
    let out = tx.step(MdEvent::Text(String::from("fn main() {}\n")), Some(String::from("HL")));
    assert_eq!(out, vec![MdEvent::Html(String::from("HL"))]);
}

#[test]
fn unsupported_language_is_normalized_before_the_highlighter_runs() {
    let mut tx = Transformer::new();
    let out = tx.step(MdEvent::FencedCodeStart(String::from("cobol")), None);
    assert_eq!(out, vec![MdEvent::FencedCodeStart(String::from("plaintext"))]);
    let e = MdEvent::Text(String::from("STOP RUN.\n"));
    let req = tx.required_action(&e);
    assert_eq!(
        req,
        Some(ExtRequest::Highlight {
            code: String::from("STOP RUN.\n"),
            language: String::from("plaintext"),
        })
    );
}

#[test]
fn indented_block_resets_to_default_state() {
    let mut tx = Transformer::new();
    tx.step(MdEvent::FencedCodeStart(String::from("python=")), None);
    tx.step(MdEvent::Text(String::from("x\n")), Some(String::from("x\n")));
    tx.step(MdEvent::CodeEnd, None);
    let out = tx.step(MdEvent::IndentedCodeStart, None);
    assert_eq!(out, vec![MdEvent::IndentedCodeStart]);
    let e = MdEvent::Text(String::from("raw\n"));
    let req = tx.required_action(&e);
    assert_eq!(
        req,
        Some(ExtRequest::Highlight {
            code: String::from("raw\n"),
            language: String::from("plaintext"),
        })
    );
    let out = tx.step(e, Some(String::from("raw\n")));
    assert_eq!(out, vec![MdEvent::Html(String::from("raw\n"))]);
}

#[test]
fn other_events_claim_a_pending_summary() {
    let mut tx = Transformer::new();
    tx.step(MdEvent::Text(String::from(":::spoiler")), None);
    let out = tx.step(MdEvent::Other(7), None);
    assert_eq!(
        out,
        vec![
            MdEvent::InlineHtml(String::from("<summary>")),
            MdEvent::Other(7),
            MdEvent::InlineHtml(String::from("</summary>")),
        ]
    );
    let out = tx.step(MdEvent::Other(8), None);
    assert_eq!(out, vec![MdEvent::Other(8)]);
}

#[test]
fn start_and_end_tags_pass_through_unchanged() {
    let mut tx = Transformer::new();
    let out = tx.step(MdEvent::OtherStart(3), None);
    assert_eq!(out, vec![MdEvent::OtherStart(3)]);
    let out = tx.step(MdEvent::OtherEnd(3), None);
    assert_eq!(out, vec![MdEvent::OtherEnd(3)]);
}

#[test]
fn close_delimiter_discards_an_unclaimed_pending_summary() {
    let mut tx = Transformer::new();
    tx.step(MdEvent::Text(String::from(":::spoiler")), None);
    let out = tx.step(MdEvent::Text(String::from(":::")), None);
    assert_eq!(out, vec![MdEvent::InlineHtml(String::from("</details>"))]);
    let out = tx.step(MdEvent::Text(String::from("plain")), None);
    assert_eq!(
        out,
        vec![
            MdEvent::Text(String::from("plain")),
            MdEvent::Text(String::from("\n")),
        ]
    );
}

#[test]
fn multi_line_text_is_scanned_line_by_line() {
    let mut tx = Transformer::new();
    let out = tx.step(
        MdEvent::Text(String::from(":::spoiler Hint\nhidden\n:::")),
        None,
    );
    assert_eq!(
        out,
        vec![
            MdEvent::InlineHtml(String::from("<details>")),
            MdEvent::Html(String::from("<summary>Hint</summary>")),
            MdEvent::Text(String::from("hidden")),
            MdEvent::Text(String::from("\n")),
            MdEvent::InlineHtml(String::from("</details>")),
        ]
    );
}
