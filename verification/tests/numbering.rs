use markdown_render::add_line_numbers;

#[test]
fn three_lines_numbered_in_order() {
    let out = add_line_numbers("a\nb\nc");
    assert_eq!(
        out,
        "<span class=\"mdrd-ln\">1</span>a\n<span class=\"mdrd-ln\">2</span>b\n<span class=\"mdrd-ln\">3</span>c\n"
    );
}

#[test]
fn line_count_is_preserved() {
    let input = "one\ntwo\nthree\nfour";
    let out = add_line_numbers(input);
    assert_eq!(input.lines().count(), 4);
    assert_eq!(out.lines().count(), 4);
    let numbered: Vec<&str> = out.lines().collect();
    for (i, line) in numbered.iter().enumerate() {
        let prefix = format!("<span class=\"mdrd-ln\">{}</span>", i + 1);
        assert!(line.starts_with(&prefix), "line {} lacks its number", i + 1);
    }
}

#[test]
fn trailing_newline_adds_no_line() {
    let out = add_line_numbers("a\nb\n");
    assert_eq!(out, "<span class=\"mdrd-ln\">1</span>a\n<span class=\"mdrd-ln\">2</span>b\n");
}

#[test]
fn two_digit_numbers_are_rendered() {
    let input = "x\nx\nx\nx\nx\nx\nx\nx\nx\nx\nx";
    let out = add_line_numbers(input);
    assert_eq!(out.lines().count(), 11);
    assert!(out.contains("<span class=\"mdrd-ln\">10</span>x"));
    assert!(out.contains("<span class=\"mdrd-ln\">11</span>x"));
}

#[test]
fn empty_fragment_has_no_lines() {
    assert_eq!(add_line_numbers(""), "");
}

#[test]
fn markup_inside_lines_is_kept() {
    let out = add_line_numbers("<em>hi</em>");
    assert_eq!(out, "<span class=\"mdrd-ln\">1</span><em>hi</em>\n");
}
