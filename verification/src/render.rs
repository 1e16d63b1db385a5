//! The HTML fragments the transformer synthesizes: heading anchors, spoiler
//! disclosure markers, the display-math container, and per-line numbering of
//! highlighted code.

use vstd::prelude::*;
use vstd::string::*;
use crate::text::{
    dec_digits, digit_char, hyphenate, hyphenate_str, lemma_first_where_of,
    lemma_lines_have_no_newline, spec_lines, split_lines, strip_cr, u64_to_dec,
};

verus! {

pub open spec fn details_open() -> Seq<char> {
    "<details>"@
}

pub open spec fn details_close() -> Seq<char> {
    "</details>"@
}

pub open spec fn summary_open() -> Seq<char> {
    "<summary>"@
}

pub open spec fn summary_close() -> Seq<char> {
    "</summary>"@
}

pub open spec fn math_div_open() -> Seq<char> {
    "<div class=\"math-display\">"@
}

pub open spec fn math_div_close() -> Seq<char> {
    "</div>"@
}

pub open spec fn anchor_pre() -> Seq<char> {
    "<a id=\""@
}

pub open spec fn anchor_mid() -> Seq<char> {
    "\" href=\"#"@
}

pub open spec fn anchor_post() -> Seq<char> {
    "\"><i class=\"bi bi-link mdrd-hl\"></i></a>"@
}

/// The self-link anchor element for a heading whose identifier is `ident`:
/// its `id` and its `href` fragment are the same `ident`.
pub open spec fn anchor_html(ident: Seq<char>) -> Seq<char> {
    anchor_pre() + ident + anchor_mid() + ident + anchor_post()
}

pub open spec fn ln_open() -> Seq<char> {
    "<span class=\"mdrd-ln\">"@
}

pub open spec fn ln_close() -> Seq<char> {
    "</span>"@
}

/// The lines `ls`, each prefixed with an inline element holding its
/// 1-indexed decimal number (counting from `k`) and terminated by a newline.
pub open spec fn number_from(ls: Seq<Seq<char>>, k: nat) -> Seq<char>
    decreases ls.len(),
{
    if ls.len() == 0 {
        Seq::empty()
    } else {
        ln_open() + dec_digits(k) + ln_close() + ls[0] + "\n"@ + number_from(
            ls.drop_first(),
            k + 1,
        )
    }
}

/// A highlighted fragment with line-number markup added to every line.
pub open spec fn spec_number_lines(hl: Seq<char>) -> Seq<char> {
    number_from(spec_lines(hl), 1)
}

/// Wraps a summary text in the summary markers.
pub fn wrap_summary(s: &str) -> (r: String)
    ensures
        r@ == summary_open() + s@ + summary_close(),
{
    let mut out = "<summary>".to_owned();
    out.append(s);
    out.append("</summary>");
    out
}

/// Wraps rendered display math in its block-level container.
pub fn wrap_math_display(rendered: &str) -> (r: String)
    ensures
        r@ == math_div_open() + rendered@ + math_div_close(),
{
    let mut out = "<div class=\"math-display\">".to_owned();
    out.append(rendered);
    out.append("</div>");
    out
}

/// Builds the self-link anchor for a heading: the identifier is the heading
/// text with every space replaced by a hyphen, and `id` and `href` both
/// carry that identifier.
pub fn heading_anchor(text: &str) -> (r: String)
    ensures
        r@ == anchor_html(hyphenate(text@)),
{
    let ident = hyphenate_str(text);
    let mut out = "<a id=\"".to_owned();
    out.append(ident.as_str());
    out.append("\" href=\"#");
    out.append(ident.as_str());
    out.append("\"><i class=\"bi bi-link mdrd-hl\"></i></a>");
    out
}

/// Adds line-number markup to a highlighted fragment, line by line.
pub fn add_line_numbers(hl: &str) -> (r: String)
    ensures
        r@ == spec_number_lines(hl@),
{
    let lines = split_lines(hl);
    let ghost ls = lines.deep_view();
    let n = lines.len();
    let mut out = String::new();
    let mut i: usize = 0;
    proof {
        assert(ls.skip(0) =~= ls);
        assert(Seq::<char>::empty() + number_from(ls, 1) =~= number_from(ls, 1));
    }
    while i < n
        invariant
            i <= n,
            n == ls.len(),
            ls == lines.deep_view(),
            number_from(ls, 1) == out@ + number_from(ls.skip(i as int), (i + 1) as nat),
        decreases n - i,
    {
        let ghost before = out@;
        let num = u64_to_dec((i as u64) + 1);
        out.append("<span class=\"mdrd-ln\">");
        out.append(num.as_str());
        out.append("</span>");
        out.append(lines[i].as_str());
        out.append("\n");
        proof {
            assert(lines[i as int].deep_view() == ls[i as int]);
            assert(ls.skip(i as int)[0] == ls[i as int]);
            assert(ls.skip(i as int).drop_first() =~= ls.skip(i + 1));
            assert(out@ =~= before + (ln_open() + dec_digits((i + 1) as nat) + ln_close()
                + ls[i as int] + "\n"@));
            assert(before + number_from(ls.skip(i as int), (i + 1) as nat) =~= out@ + number_from(
                ls.skip(i + 1),
                (i + 2) as nat,
            ));
        }
        i += 1;
    }
    proof {
        assert(ls.skip(n as int) =~= Seq::<Seq<char>>::empty());
        assert(out@ + Seq::<char>::empty() =~= out@);
    }
    out
}

/// No decimal digit is a newline.
pub proof fn lemma_dec_digits_no_nl(n: nat)
    ensures
        forall|i: int| 0 <= i < dec_digits(n).len() ==> dec_digits(n)[i] != '\n',
    decreases n,
{
    if n < 10 {
        assert(dec_digits(n) =~= seq![digit_char(n)]);
    } else {
        lemma_dec_digits_no_nl(n / 10);
        assert forall|i: int| 0 <= i < dec_digits(n).len() implies dec_digits(n)[i] != '\n' by {
            if i < dec_digits(n / 10).len() {
                assert(dec_digits(n)[i] == dec_digits(n / 10)[i]);
            } else {
                assert(dec_digits(n)[i] == digit_char(n % 10));
            }
        }
    }
}

/// Splitting a text at its first newline: if `a` holds no newline, the lines
/// of `a + "\n" + b` are `a` (with a trailing carriage return stripped)
/// followed by the lines of `b`.
pub proof fn lemma_lines_unfold(a: Seq<char>, b: Seq<char>)
    requires
        forall|i: int| 0 <= i < a.len() ==> a[i] != '\n',
    ensures
        spec_lines(a + "\n"@ + b) == seq![strip_cr(a)] + spec_lines(b),
{
    reveal_strlit("\n");
    let t = a + "\n"@ + b;
    assert(t[a.len() as int] == '\n');
    assert forall|i: int| 0 <= i < a.len() implies !((|c: char| c == '\n')(t[i])) by {
        assert(t[i] == a[i]);
    }
    lemma_first_where_of(t, |c: char| c == '\n', a.len() as int);
    assert(t.take(a.len() as int) =~= a);
    assert(t.skip(a.len() as int + 1) =~= b);
}

/// Numbering preserves line structure: for `N` input lines the numbered
/// output has exactly `N` lines, the `i`-th carrying the number `k + i` and
/// the `i`-th input line, in order.
pub proof fn lemma_number_from_lines(ls: Seq<Seq<char>>, k: nat)
    requires
        forall|j: int| #![trigger ls[j]] 0 <= j < ls.len() ==> forall|i: int|
            0 <= i < ls[j].len() ==> ls[j][i] != '\n',
    ensures
        spec_lines(number_from(ls, k)).len() == ls.len(),
        forall|j: int| 0 <= j < ls.len() ==> spec_lines(number_from(ls, k))[j] == strip_cr(
            ln_open() + dec_digits((k + j) as nat) + ln_close() + ls[j],
        ),
    decreases ls.len(),
{
    if ls.len() > 0 {
        let head = ln_open() + dec_digits(k) + ln_close() + ls[0];
        let rest = number_from(ls.drop_first(), k + 1);
        reveal_strlit("<span class=\"mdrd-ln\">");
        reveal_strlit("</span>");
        lemma_dec_digits_no_nl(k);
        assert forall|i: int| 0 <= i < head.len() implies head[i] != '\n' by {
            if i < ln_open().len() {
            } else if i < ln_open().len() + dec_digits(k).len() {
                assert(head[i] == dec_digits(k)[i - ln_open().len()]);
            } else if i < ln_open().len() + dec_digits(k).len() + ln_close().len() {
                assert(head[i] == ln_close()[i - ln_open().len() - dec_digits(k).len()]);
            } else {
                assert(head[i] == ls[0][i - ln_open().len() - dec_digits(k).len()
                    - ln_close().len()]);
            }
        }
        assert(number_from(ls, k) =~= head + "\n"@ + rest);
        lemma_lines_unfold(head, rest);
        lemma_number_from_lines(ls.drop_first(), k + 1);
        assert forall|j: int| 0 <= j < ls.len() implies spec_lines(number_from(ls, k))[j]
            == strip_cr(ln_open() + dec_digits((k + j) as nat) + ln_close() + ls[j]) by {
            if j > 0 {
                assert(spec_lines(number_from(ls, k))[j] == spec_lines(rest)[j - 1]);
                assert(ls.drop_first()[j - 1] == ls[j]);
            }
        }
    }
}

/// Numbering a highlighted fragment preserves its line count exactly: `N`
/// lines in, `N` lines out, the `j`-th line carrying the decimal number
/// `j + 1` and then the `j`-th input line, in order.
pub proof fn lemma_number_lines_preserves_count(hl: Seq<char>)
    ensures
        spec_lines(spec_number_lines(hl)).len() == spec_lines(hl).len(),
        forall|j: int| 0 <= j < spec_lines(hl).len() ==> spec_lines(spec_number_lines(hl))[j]
            == strip_cr(ln_open() + dec_digits((1 + j) as nat) + ln_close() + spec_lines(hl)[j]),
{
    lemma_lines_have_no_newline(hl);
    lemma_number_from_lines(spec_lines(hl), 1);
}

} // verus!
