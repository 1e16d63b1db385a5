//! The allow-list of languages for which syntax highlighting is attempted.
//! Any other tag is silently downgraded to the plain-text fallback.

use vstd::prelude::*;
use vstd::string::*;

verus! {

/// The sentinel language tag used when no supported language was requested.
pub open spec fn plain_text() -> Seq<char> {
    "plaintext"@
}

/// Exact, case-sensitive membership in the fixed set of supported languages.
pub open spec fn is_supported_lang(s: Seq<char>) -> bool {
    ||| s == "python"@
    ||| s == "rust"@
    ||| s == "typescript"@
    ||| s == "xml"@
    ||| s == "html"@
    ||| s == "fortran"@
    ||| s == "go"@
    ||| s == "java"@
    ||| s == "javascript"@
    ||| s == "json"@
    ||| s == "kotlin"@
    ||| s == "latex"@
    ||| s == "lua"@
    ||| s == "markdown"@
    ||| s == "bash"@
    ||| s == "c"@
    ||| s == "cpp"@
    ||| s == "css"@
}

/// Character-by-character equality of two string slices.
pub fn str_eq(a: &str, b: &str) -> (r: bool)
    ensures
        r == (a@ == b@),
{
    let na = a.unicode_len();
    let nb = b.unicode_len();
    if na != nb {
        assert(a@ =~= b@ ==> a@.len() == b@.len());
        return false;
    }
    let mut i: usize = 0;
    while i < na
        invariant
            na == a@.len(),
            nb == b@.len(),
            na == nb,
            i <= na,
            forall|k: int| 0 <= k < i ==> a@[k] == b@[k],
        decreases na - i,
    {
        if a.get_char(i) != b.get_char(i) {
            assert(a@ != b@);
            return false;
        }
        i += 1;
    }
    assert(a@ =~= b@);
    true
}

/// Decides whether `language` is one of the fixed supported set.
/// Deterministic and total: the result is a function of the input alone.
pub fn check_language(language: &str) -> (r: bool)
    ensures
        r == is_supported_lang(language@),
{
    str_eq(language, "python") || str_eq(language, "rust") || str_eq(language, "typescript")
        || str_eq(language, "xml") || str_eq(language, "html") || str_eq(language, "fortran")
        || str_eq(language, "go") || str_eq(language, "java") || str_eq(language, "javascript")
        || str_eq(language, "json") || str_eq(language, "kotlin") || str_eq(language, "latex")
        || str_eq(language, "lua") || str_eq(language, "markdown") || str_eq(language, "bash")
        || str_eq(language, "c") || str_eq(language, "cpp") || str_eq(language, "css")
}

/// The allow-list decision depends only on the tag itself, so repeated
/// checks of the same tag always agree.
pub proof fn lemma_check_language_deterministic(a: Seq<char>, b: Seq<char>)
    requires
        a == b,
    ensures
        is_supported_lang(a) == is_supported_lang(b),
{
}

} // verus!
