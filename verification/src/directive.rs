//! Parsing of a fenced code block's info string into a code-block directive:
//! a normalized language tag and a line-numbering flag.

use vstd::prelude::*;
use vstd::string::*;
use crate::lang::{check_language, is_supported_lang, plain_text, str_eq};
use crate::text::{split_ws, ws_tokens};

verus! {

/// The explicit token that turns line numbering on.
pub open spec fn set_number_flag() -> Seq<char> {
    ":setNumber"@
}

/// The directive carried by an info string `info`, as (language tag, line
/// numbers on). Token 0 is the language candidate; a trailing `=` on it is
/// stripped and turns numbering on; a candidate outside the allow-list falls
/// back to the plain-text tag; token 1 equal to the flag literal also turns
/// numbering on.
pub open spec fn spec_directive(info: Seq<char>) -> (Seq<char>, bool) {
    let toks = ws_tokens(info);
    if toks.len() == 0 {
        (plain_text(), false)
    } else {
        let t0 = toks[0];
        let eq = t0.len() > 0 && t0.last() == '=';
        let cand = if eq {
            t0.drop_last()
        } else {
            t0
        };
        let lang = if is_supported_lang(cand) {
            cand
        } else {
            plain_text()
        };
        let num = eq || (toks.len() > 1 && toks[1] == set_number_flag());
        (lang, num)
    }
}

/// Parses an info string into its code-block directive.
pub fn parse_code_directive(info: &str) -> (r: (String, bool))
    ensures
        (r.0@, r.1) == spec_directive(info@),
{
    let toks = split_ws(info);
    let ghost tv = toks.deep_view();
    if toks.len() == 0 {
        ("plaintext".to_owned(), false)
    } else {
        let t0: &String = &toks[0];
        proof {
            assert(t0.deep_view() == tv[0]);
        }
        let n0 = t0.as_str().unicode_len();
        let eq = n0 > 0 && t0.as_str().get_char(n0 - 1) == '=';
        proof {
            if n0 > 0 {
                assert(tv[0].last() == t0@[n0 - 1]);
            }
        }
        let cand: String = if eq {
            let c = t0.as_str().substring_char(0, n0 - 1).to_owned();
            proof {
                assert(c@ =~= tv[0].drop_last());
            }
            c
        } else {
            t0.clone()
        };
        let lang: String = if check_language(cand.as_str()) {
            cand
        } else {
            "plaintext".to_owned()
        };
        let mut num = eq;
        if toks.len() > 1 {
            proof {
                assert(toks[1].deep_view() == tv[1]);
            }
            if str_eq(toks[1].as_str(), ":setNumber") {
                num = true;
            }
        }
        (lang, num)
    }
}

/// The normalized language of a fenced block: the first token of the info
/// string, stripped of one trailing `=`, when it is in the allow-list, and
/// the plain-text fallback otherwise.
pub proof fn lemma_directive_language(info: Seq<char>)
    requires
        ws_tokens(info).len() > 0,
    ensures
        ({
            let t0 = ws_tokens(info)[0];
            let cand = if t0.len() > 0 && t0.last() == '=' {
                t0.drop_last()
            } else {
                t0
            };
            spec_directive(info).0 == if is_supported_lang(cand) {
                cand
            } else {
                plain_text()
            }
        }),
{
}

/// Line numbering is the logical OR of the two independent requests: a
/// trailing `=` on the first token, or a second token equal to the flag
/// literal. Either one alone enables it.
pub proof fn lemma_directive_line_numbers(info: Seq<char>)
    requires
        ws_tokens(info).len() > 0,
    ensures
        ({
            let toks = ws_tokens(info);
            let t0 = toks[0];
            spec_directive(info).1 == ((t0.len() > 0 && t0.last() == '=') || (toks.len() > 1
                && toks[1] == set_number_flag()))
        }),
{
}

} // verus!
