//! Character-sequence helpers the transformer is built from: line splitting
//! with the same semantics as Rust's `str::lines`, whitespace tokenizing,
//! end trimming, prefix tests, space-to-hyphen rewriting and decimal
//! rendering of line numbers.

use vstd::prelude::*;
use vstd::string::*;

verus! {

/// ASCII whitespace as used for info-string tokenizing and end trimming.
pub open spec fn is_ws_char(c: char) -> bool {
    c == ' ' || c == '\t' || c == '\n' || c == '\r' || c == '\u{b}' || c == '\u{c}'
}

/// Index of the first character satisfying `p`, or `s.len()` if none does.
pub open spec fn first_where(s: Seq<char>, p: spec_fn(char) -> bool) -> nat
    decreases s.len(),
{
    if s.len() == 0 {
        0
    } else if p(s[0]) {
        0
    } else {
        1 + first_where(s.drop_first(), p)
    }
}

pub proof fn lemma_first_where(s: Seq<char>, p: spec_fn(char) -> bool)
    ensures
        first_where(s, p) <= s.len(),
        forall|i: int| 0 <= i < first_where(s, p) ==> !p(s[i]),
        first_where(s, p) < s.len() ==> p(s[first_where(s, p) as int]),
    decreases s.len(),
{
    if s.len() > 0 && !p(s[0]) {
        lemma_first_where(s.drop_first(), p);
        assert forall|i: int| 0 <= i < first_where(s, p) implies !p(s[i]) by {
            if i > 0 {
                assert(s.drop_first()[i - 1] == s[i]);
            }
        }
        if first_where(s, p) < s.len() {
            assert(s.drop_first()[first_where(s, p) - 1] == s[first_where(s, p) as int]);
        }
    }
}

/// The first-occurrence characterization pins `first_where` down uniquely.
pub proof fn lemma_first_where_of(s: Seq<char>, p: spec_fn(char) -> bool, k: int)
    requires
        0 <= k <= s.len(),
        forall|i: int| 0 <= i < k ==> !p(s[i]),
        k < s.len() ==> p(s[k]),
    ensures
        first_where(s, p) == k,
    decreases s.len(),
{
    if s.len() > 0 && !p(s[0]) {
        assert forall|i: int| 0 <= i < k - 1 implies !p(s.drop_first()[i]) by {
            assert(s.drop_first()[i] == s[i + 1]);
        }
        if k - 1 < s.drop_first().len() {
            assert(s.drop_first()[k - 1] == s[k]);
        }
        lemma_first_where_of(s.drop_first(), p, k - 1);
    }
}

/// Drops one trailing carriage return, as `str::lines` does before a newline.
pub open spec fn strip_cr(p: Seq<char>) -> Seq<char> {
    if p.len() > 0 && p.last() == '\r' {
        p.drop_last()
    } else {
        p
    }
}

/// The lines of `t`, split at `'\n'` with an optional `'\r'` stripped before
/// it; the terminators are dropped and a final terminator yields no extra
/// empty line (the semantics of Rust's `str::lines`).
pub open spec fn spec_lines(t: Seq<char>) -> Seq<Seq<char>>
    decreases t.len(),
{
    if t.len() == 0 {
        seq![]
    } else {
        let k = first_where(t, |c: char| c == '\n');
        if k < t.len() {
            seq![strip_cr(t.take(k as int))] + spec_lines(t.skip(k as int + 1))
        } else {
            seq![t]
        }
    }
}

/// No line produced by `spec_lines` contains a newline.
pub proof fn lemma_lines_have_no_newline(t: Seq<char>)
    ensures
        forall|j: int| #![trigger spec_lines(t)[j]] 0 <= j < spec_lines(t).len() ==> forall|
            i: int,
        | 0 <= i < spec_lines(t)[j].len() ==> spec_lines(t)[j][i] != '\n',
    decreases t.len(),
{
    if t.len() > 0 {
        let k = first_where(t, |c: char| c == '\n');
        lemma_first_where(t, |c: char| c == '\n');
        if k < t.len() {
            let piece = strip_cr(t.take(k as int));
            lemma_lines_have_no_newline(t.skip(k as int + 1));
            assert forall|j: int| #![trigger spec_lines(t)[j]] 0 <= j < spec_lines(t).len()
                implies forall|i: int|
                0 <= i < spec_lines(t)[j].len() ==> spec_lines(t)[j][i] != '\n' by {
                if j == 0 {
                    assert(spec_lines(t)[0] == piece);
                    assert forall|i: int| 0 <= i < piece.len() implies piece[i] != '\n' by {
                        assert(piece[i] == t[i]);
                    }
                } else {
                    assert(spec_lines(t)[j] == spec_lines(t.skip(k as int + 1))[j - 1]);
                }
            }
        } else {
            assert forall|j: int| #![trigger spec_lines(t)[j]] 0 <= j < spec_lines(t).len()
                implies forall|i: int|
                0 <= i < spec_lines(t)[j].len() ==> spec_lines(t)[j][i] != '\n' by {
                assert(spec_lines(t)[j] == t);
            }
        }
    }
}

/// The whitespace-separated tokens of `t`, in order, each nonempty.
pub open spec fn ws_tokens(t: Seq<char>) -> Seq<Seq<char>>
    decreases t.len(),
{
    if t.len() == 0 {
        seq![]
    } else if is_ws_char(t[0]) {
        ws_tokens(t.drop_first())
    } else {
        let k = first_where(t, |c: char| is_ws_char(c));
        if k < t.len() {
            seq![t.take(k as int)] + ws_tokens(t.skip(k as int))
        } else {
            seq![t]
        }
    }
}

/// `t` without its trailing whitespace.
pub open spec fn spec_trim_end(t: Seq<char>) -> Seq<char>
    decreases t.len(),
{
    if t.len() > 0 && is_ws_char(t.last()) {
        spec_trim_end(t.drop_last())
    } else {
        t
    }
}

/// Whether `s` begins with `p`.
pub open spec fn starts_with(s: Seq<char>, p: Seq<char>) -> bool {
    s.len() >= p.len() && s.take(p.len() as int) == p
}

/// `t` with every space replaced by a hyphen and nothing else changed.
pub open spec fn hyphenate(t: Seq<char>) -> Seq<char> {
    Seq::new(t.len(), |i: int| if t[i] == ' ' { '-' } else { t[i] })
}

/// The decimal digits of `n`, most significant first, no leading zeros
/// (a single `'0'` for zero).
pub open spec fn dec_digits(n: nat) -> Seq<char>
    decreases n,
{
    if n < 10 {
        seq![digit_char(n)]
    } else {
        dec_digits(n / 10).push(digit_char(n % 10))
    }
}

pub open spec fn digit_char(d: nat) -> char {
    if d == 0 { '0' }
    else if d == 1 { '1' }
    else if d == 2 { '2' }
    else if d == 3 { '3' }
    else if d == 4 { '4' }
    else if d == 5 { '5' }
    else if d == 6 { '6' }
    else if d == 7 { '7' }
    else if d == 8 { '8' }
    else { '9' }
}

/// Decides `is_ws_char` executably.
pub fn is_ws(c: char) -> (r: bool)
    ensures
        r == is_ws_char(c),
{
    c == ' ' || c == '\t' || c == '\n' || c == '\r' || c == '\u{b}' || c == '\u{c}'
}

/// First index at or after `from` holding a newline, or the length if none.
pub fn find_nl(t: &str, from: usize) -> (r: usize)
    requires
        from <= t@.len(),
    ensures
        from <= r <= t@.len(),
        forall|k: int| from <= k < r ==> t@[k] != '\n',
        r < t@.len() ==> t@[r as int] == '\n',
{
    let n = t.unicode_len();
    let mut i = from;
    while i < n
        invariant
            from <= i <= n,
            n == t@.len(),
            forall|k: int| from <= k < i ==> t@[k] != '\n',
        decreases n - i,
    {
        if t.get_char(i) == '\n' {
            return i;
        }
        i += 1;
    }
    n
}

/// First index at or after `from` holding whitespace, or the length if none.
pub fn find_ws(t: &str, from: usize) -> (r: usize)
    requires
        from <= t@.len(),
    ensures
        from <= r <= t@.len(),
        forall|k: int| from <= k < r ==> !is_ws_char(t@[k]),
        r < t@.len() ==> is_ws_char(t@[r as int]),
{
    let n = t.unicode_len();
    let mut i = from;
    while i < n
        invariant
            from <= i <= n,
            n == t@.len(),
            forall|k: int| from <= k < i ==> !is_ws_char(t@[k]),
        decreases n - i,
    {
        if is_ws(t.get_char(i)) {
            return i;
        }
        i += 1;
    }
    n
}

/// First index at or after `from` holding a space, or the length if none.
pub fn find_space(t: &str, from: usize) -> (r: usize)
    requires
        from <= t@.len(),
    ensures
        from <= r <= t@.len(),
        forall|k: int| from <= k < r ==> t@[k] != ' ',
        r < t@.len() ==> t@[r as int] == ' ',
{
    let n = t.unicode_len();
    let mut i = from;
    while i < n
        invariant
            from <= i <= n,
            n == t@.len(),
            forall|k: int| from <= k < i ==> t@[k] != ' ',
        decreases n - i,
    {
        if t.get_char(i) == ' ' {
            return i;
        }
        i += 1;
    }
    n
}

/// Length of `t` once trailing whitespace is dropped.
pub fn trim_end_idx(t: &str) -> (e: usize)
    ensures
        e <= t@.len(),
        spec_trim_end(t@) == t@.take(e as int),
{
    let n = t.unicode_len();
    let mut e = n;
    proof {
        assert(t@.take(n as int) =~= t@);
    }
    while e > 0
        invariant
            e <= n,
            n == t@.len(),
            spec_trim_end(t@) == spec_trim_end(t@.take(e as int)),
        decreases e,
    {
        let c = t.get_char(e - 1);
        if !is_ws(c) {
            proof {
                let cur = t@.take(e as int);
                assert(cur.last() == t@[e - 1]);
                assert(spec_trim_end(cur) == cur);
            }
            return e;
        }
        proof {
            let cur = t@.take(e as int);
            assert(cur.last() == t@[e - 1]);
            assert(cur.drop_last() =~= t@.take(e - 1));
        }
        e -= 1;
    }
    proof {
        assert(t@.take(0) =~= Seq::<char>::empty());
    }
    0
}

/// Whether `s` begins with `p`, character for character.
pub fn starts_with_lit(s: &str, p: &str) -> (r: bool)
    ensures
        r == starts_with(s@, p@),
{
    let ns = s.unicode_len();
    let np = p.unicode_len();
    if ns < np {
        return false;
    }
    let mut i: usize = 0;
    while i < np
        invariant
            i <= np,
            np <= ns,
            ns == s@.len(),
            np == p@.len(),
            forall|k: int| 0 <= k < i ==> s@[k] == p@[k],
        decreases np - i,
    {
        if s.get_char(i) != p.get_char(i) {
            proof {
                assert(s@.take(np as int)[i as int] != p@[i as int]);
            }
            return false;
        }
        i += 1;
    }
    proof {
        assert(s@.take(np as int) =~= p@);
    }
    true
}

/// Splits `t` into its lines, per `spec_lines`.
pub fn split_lines(t: &str) -> (r: Vec<String>)
    ensures
        r.deep_view() == spec_lines(t@),
{
    let n = t.unicode_len();
    let mut out: Vec<String> = Vec::new();
    let mut i: usize = 0;
    proof {
        assert(t@.skip(0) =~= t@);
        assert(out.deep_view() =~= Seq::<Seq<char>>::empty());
        assert(Seq::<Seq<char>>::empty() + spec_lines(t@) =~= spec_lines(t@));
    }
    while i < n
        invariant
            i <= n,
            n == t@.len(),
            spec_lines(t@) == out.deep_view() + spec_lines(t@.skip(i as int)),
        decreases n - i,
    {
        let ghost prev = out.deep_view();
        let ghost rest = t@.skip(i as int);
        let j = find_nl(t, i);
        proof {
            assert forall|k: int| 0 <= k < j - i implies !((|c: char| c == '\n')(rest[k])) by {
                assert(rest[k] == t@[i + k]);
            }
            if j < n {
                assert(rest[j - i] == t@[j as int]);
            }
            lemma_first_where_of(rest, |c: char| c == '\n', j - i);
        }
        if j < n {
            let piece_end = if j > i && t.get_char(j - 1) == '\r' { j - 1 } else { j };
            let piece = t.substring_char(i, piece_end);
            out.push(piece.to_owned());
            proof {
                assert(rest.take(j - i) =~= t@.subrange(i as int, j as int));
                if j > i && t@[j - 1] == '\r' {
                    assert(rest.take(j - i).last() == t@[j - 1]);
                    assert(rest.take(j - i).drop_last() =~= t@.subrange(
                        i as int,
                        piece_end as int,
                    ));
                } else if j > i {
                    assert(rest.take(j - i).last() == t@[j - 1]);
                }
                assert(strip_cr(rest.take(j - i)) =~= t@.subrange(i as int, piece_end as int));
                assert(rest.skip(j - i + 1) =~= t@.skip(j + 1));
                assert(spec_lines(rest) =~= seq![t@.subrange(i as int, piece_end as int)]
                    + spec_lines(t@.skip(j + 1)));
                assert(out.deep_view() =~= prev.push(t@.subrange(i as int, piece_end as int)));
                assert(prev + spec_lines(rest) =~= out.deep_view() + spec_lines(t@.skip(j + 1)));
            }
            i = j + 1;
        } else {
            let piece = t.substring_char(i, n);
            out.push(piece.to_owned());
            proof {
                assert(rest =~= t@.subrange(i as int, n as int));
                assert(spec_lines(rest) =~= seq![rest]);
                assert(t@.skip(n as int) =~= Seq::<char>::empty());
                assert(out.deep_view() =~= prev.push(rest));
                assert(prev + spec_lines(rest) =~= out.deep_view() + spec_lines(
                    t@.skip(n as int),
                ));
            }
            i = n;
        }
    }
    proof {
        assert(t@.skip(n as int) =~= Seq::<char>::empty());
        assert(out.deep_view() + spec_lines(Seq::<char>::empty()) =~= out.deep_view());
    }
    out
}

/// Splits `t` into its whitespace-separated tokens, per `ws_tokens`.
pub fn split_ws(t: &str) -> (r: Vec<String>)
    ensures
        r.deep_view() == ws_tokens(t@),
{
    let n = t.unicode_len();
    let mut out: Vec<String> = Vec::new();
    let mut i: usize = 0;
    proof {
        assert(t@.skip(0) =~= t@);
        assert(out.deep_view() =~= Seq::<Seq<char>>::empty());
        assert(Seq::<Seq<char>>::empty() + ws_tokens(t@) =~= ws_tokens(t@));
    }
    while i < n
        invariant
            i <= n,
            n == t@.len(),
            ws_tokens(t@) == out.deep_view() + ws_tokens(t@.skip(i as int)),
        decreases n - i,
    {
        let ghost prev = out.deep_view();
        let ghost rest = t@.skip(i as int);
        let c = t.get_char(i);
        proof {
            assert(rest[0] == t@[i as int]);
        }
        if is_ws(c) {
            proof {
                assert(rest.drop_first() =~= t@.skip(i + 1));
            }
            i += 1;
        } else {
            let j = find_ws(t, i);
            proof {
                assert forall|k: int| 0 <= k < j - i implies !((|ch: char| is_ws_char(ch))(
                    rest[k],
                )) by {
                    assert(rest[k] == t@[i + k]);
                }
                if j < n {
                    assert(rest[j - i] == t@[j as int]);
                }
                lemma_first_where_of(rest, |ch: char| is_ws_char(ch), j - i);
            }
            let tok = t.substring_char(i, j);
            out.push(tok.to_owned());
            proof {
                assert(rest.take(j - i) =~= t@.subrange(i as int, j as int));
                if j < n {
                    assert(rest.skip(j - i) =~= t@.skip(j as int));
                    assert(ws_tokens(rest) =~= seq![t@.subrange(i as int, j as int)] + ws_tokens(
                        t@.skip(j as int),
                    ));
                } else {
                    assert(rest =~= t@.subrange(i as int, j as int));
                    assert(t@.skip(n as int) =~= Seq::<char>::empty());
                    assert(ws_tokens(rest) =~= seq![t@.subrange(i as int, j as int)] + ws_tokens(
                        t@.skip(j as int),
                    ));
                }
                assert(out.deep_view() =~= prev.push(t@.subrange(i as int, j as int)));
                assert(prev + ws_tokens(rest) =~= out.deep_view() + ws_tokens(t@.skip(j as int)));
            }
            i = j;
        }
    }
    proof {
        assert(t@.skip(n as int) =~= Seq::<char>::empty());
        assert(out.deep_view() + ws_tokens(Seq::<char>::empty()) =~= out.deep_view());
    }
    out
}

/// `t` with every space replaced by a hyphen.
pub fn hyphenate_str(t: &str) -> (r: String)
    ensures
        r@ == hyphenate(t@),
{
    let n = t.unicode_len();
    let mut out = String::new();
    let mut i: usize = 0;
    while i < n
        invariant
            i <= n,
            n == t@.len(),
            out@ == hyphenate(t@).take(i as int),
        decreases n - i,
    {
        let j = find_space(t, i);
        let piece = t.substring_char(i, j);
        out.append(piece);
        proof {
            assert(out@ =~= hyphenate(t@).take(j as int));
        }
        if j < n {
            out.append("-");
            proof {
                reveal_strlit("-");
                assert(hyphenate(t@)[j as int] == '-');
                assert(out@ =~= hyphenate(t@).take(j + 1));
            }
            i = j + 1;
        } else {
            i = n;
        }
    }
    proof {
        assert(hyphenate(t@).take(n as int) =~= hyphenate(t@));
    }
    out
}

/// One decimal digit as a string slice.
fn digit_str(d: u64) -> (r: &'static str)
    requires
        d < 10,
    ensures
        r@ == seq![digit_char(d as nat)],
{
    proof {
        reveal_strlit("0");
        reveal_strlit("1");
        reveal_strlit("2");
        reveal_strlit("3");
        reveal_strlit("4");
        reveal_strlit("5");
        reveal_strlit("6");
        reveal_strlit("7");
        reveal_strlit("8");
        reveal_strlit("9");
    }
    if d == 0 {
        proof { assert("0"@ =~= seq![digit_char(0)]); }
        "0"
    } else if d == 1 {
        proof { assert("1"@ =~= seq![digit_char(1)]); }
        "1"
    } else if d == 2 {
        proof { assert("2"@ =~= seq![digit_char(2)]); }
        "2"
    } else if d == 3 {
        proof { assert("3"@ =~= seq![digit_char(3)]); }
        "3"
    } else if d == 4 {
        proof { assert("4"@ =~= seq![digit_char(4)]); }
        "4"
    } else if d == 5 {
        proof { assert("5"@ =~= seq![digit_char(5)]); }
        "5"
    } else if d == 6 {
        proof { assert("6"@ =~= seq![digit_char(6)]); }
        "6"
    } else if d == 7 {
        proof { assert("7"@ =~= seq![digit_char(7)]); }
        "7"
    } else if d == 8 {
        proof { assert("8"@ =~= seq![digit_char(8)]); }
        "8"
    } else {
        proof { assert("9"@ =~= seq![digit_char(9)]); }
        "9"
    }
}

/// The decimal rendering of `n`.
pub fn u64_to_dec(n: u64) -> (r: String)
    ensures
        r@ == dec_digits(n as nat),
    decreases n,
{
    if n < 10 {
        digit_str(n).to_owned()
    } else {
        let mut s = u64_to_dec(n / 10);
        s.append(digit_str(n % 10));
        proof {
            assert(s@ =~= dec_digits((n / 10) as nat).push(digit_char((n % 10) as nat)));
        }
        s
    }
}

} // verus!
