//! Character-level text helpers: decimal rendering, whitespace
//! classification, tokenization and trimming.
//!
//! Blocklist text is a sequence of tokens separated either by whitespace or
//! by a configured delimiter string; each token is trimmed before parsing.

use vstd::prelude::*;

verus! {

/// The decimal digit character for a value below ten.
pub open spec fn dec_digit(d: nat) -> char {
    if d == 0 {
        '0'
    } else if d == 1 {
        '1'
    } else if d == 2 {
        '2'
    } else if d == 3 {
        '3'
    } else if d == 4 {
        '4'
    } else if d == 5 {
        '5'
    } else if d == 6 {
        '6'
    } else if d == 7 {
        '7'
    } else if d == 8 {
        '8'
    } else {
        '9'
    }
}

/// The decimal rendering of a natural number, without leading zeros.
pub open spec fn dec_str(n: nat) -> Seq<char>
    decreases n,
{
    if n < 10 {
        seq![dec_digit(n)]
    } else {
        dec_str(n / 10).push(dec_digit(n % 10))
    }
}

/// The one-character string for a decimal digit.
fn digit_literal(d: u8) -> (r: &'static str)
    requires
        d < 10,
    ensures
        r@ == seq![dec_digit(d as nat)],
{
    proof {
        reveal_strlit("0");
        reveal_strlit("1");
        reveal_strlit("2");
        reveal_strlit("3");
        reveal_strlit("4");
        reveal_strlit("5");
        reveal_strlit("6");
        reveal_strlit("7");
        reveal_strlit("8");
        reveal_strlit("9");
    }
    let r: &'static str = match d {
        0 => "0",
        1 => "1",
        2 => "2",
        3 => "3",
        4 => "4",
        5 => "5",
        6 => "6",
        7 => "7",
        8 => "8",
        _ => "9",
    };
    proof {
        assert(r@ =~= seq![dec_digit(d as nat)]);
    }
    r
}

/// Renders a byte in decimal, as prefix lengths are rendered in CIDR text.
pub fn u8_to_dec(n: u8) -> (r: String)
    ensures
        r@ == dec_str(n as nat),
    decreases n,
{
    if n < 10 {
        String::from_str(digit_literal(n))
    } else {
        let high = u8_to_dec(n / 10);
        let r = high.concat(digit_literal(n % 10));
        proof {
            assert(r@ =~= dec_str(n as nat));
        }
        r
    }
}

/// Whether a character has the Unicode `White_Space` property.
pub uninterp spec fn ws_char(c: char) -> bool;

/// Relies on char::is_whitespace: true exactly for characters with the
/// Unicode `White_Space` property, which includes space, tab, line feed and
/// carriage return and excludes all ASCII letters, digits and punctuation.
#[verifier::external_body]
pub(crate) fn is_ws(c: char) -> (r: bool)
    ensures
        r == ws_char(c),
        c == ' ' ==> r,
        c == '\t' ==> r,
        c == '\n' ==> r,
        c == '\r' ==> r,
        ('!' <= c && c <= '~') ==> !r,
{
    c.is_whitespace()
}

/// The tokens of `s` from position `i` on, splitting on whitespace runs:
/// `cur` is the partial token read so far and `acc` the finished tokens.
pub open spec fn ws_tokens_from(
    s: Seq<char>,
    i: int,
    cur: Seq<char>,
    acc: Seq<Seq<char>>,
) -> Seq<Seq<char>>
    decreases s.len() - i,
{
    if i < 0 || i >= s.len() {
        if cur.len() > 0 {
            acc.push(cur)
        } else {
            acc
        }
    } else if ws_char(s[i]) {
        if cur.len() > 0 {
            ws_tokens_from(s, i + 1, Seq::empty(), acc.push(cur))
        } else {
            ws_tokens_from(s, i + 1, Seq::empty(), acc)
        }
    } else {
        ws_tokens_from(s, i + 1, cur.push(s[i]), acc)
    }
}

/// The whitespace-separated tokens of `s`: the maximal runs of
/// non-whitespace characters, in order.
pub open spec fn ws_tokens(s: Seq<char>) -> Seq<Seq<char>> {
    ws_tokens_from(s, 0, Seq::empty(), Seq::empty())
}

/// Splits a string into its whitespace-separated tokens.
pub fn split_ws_tokens(s: &str) -> (r: Vec<String>)
    ensures
        r.deep_view() == ws_tokens(s@),
{
    let len = s.unicode_len();
    let mut out: Vec<String> = Vec::new();
    let mut start: usize = 0;
    let mut in_token: bool = false;
    let mut i: usize = 0;
    proof {
        assert(out.deep_view() =~= Seq::<Seq<char>>::empty());
    }
    while i < len
        invariant
            len == s@.len(),
            i <= len,
            in_token ==> start < i,
            !in_token ==> start == i,
            ws_tokens(s@) == ws_tokens_from(
                s@,
                i as int,
                if in_token {
                    s@.subrange(start as int, i as int)
                } else {
                    Seq::empty()
                },
                out.deep_view(),
            ),
        decreases len - i,
    {
        let ghost cur: Seq<char> = if in_token {
            s@.subrange(start as int, i as int)
        } else {
            Seq::empty()
        };
        let c = s.get_char(i);
        if is_ws(c) {
            if in_token {
                let tok = String::from_str(s.substring_char(start, i));
                let ghost dv = out.deep_view();
                out.push(tok);
                proof {
                    assert(out.deep_view() =~= dv.push(cur));
                }
                in_token = false;
            }
            start = i + 1;
        } else {
            if !in_token {
                start = i;
                in_token = true;
            }
            proof {
                assert(s@.subrange(start as int, i + 1) =~= cur.push(s@[i as int]));
            }
        }
        i = i + 1;
    }
    if in_token {
        let tok = String::from_str(s.substring_char(start, len));
        let ghost dv = out.deep_view();
        let ghost cur: Seq<char> = s@.subrange(start as int, len as int);
        out.push(tok);
        proof {
            assert(out.deep_view() =~= dv.push(cur));
        }
    }
    out
}

/// The tokens of `s` from position `i` on, splitting at each leftmost
/// occurrence of the delimiter `d`: `cur` is the partial token read so far
/// and `acc` the finished tokens.  Unlike whitespace splitting, empty tokens
/// are kept.
pub open spec fn delim_tokens_from(
    s: Seq<char>,
    d: Seq<char>,
    i: int,
    cur: Seq<char>,
    acc: Seq<Seq<char>>,
) -> Seq<Seq<char>>
    decreases s.len() - i,
{
    if i < 0 || i >= s.len() {
        acc.push(cur)
    } else if d.len() > 0 && i + d.len() <= s.len() && s.subrange(i, i + d.len()) == d {
        delim_tokens_from(s, d, i + d.len(), Seq::empty(), acc.push(cur))
    } else {
        delim_tokens_from(s, d, i + 1, cur.push(s[i]), acc)
    }
}

/// The tokens of `s` separated by the delimiter `d`, empty tokens kept.
pub open spec fn delim_tokens(s: Seq<char>, d: Seq<char>) -> Seq<Seq<char>> {
    delim_tokens_from(s, d, 0, Seq::empty(), Seq::empty())
}

/// Whether the delimiter `d` occurs in `s` at position `i`.
fn match_at(s: &str, i: usize, d: &str) -> (r: bool)
    requires
        i <= s@.len(),
    ensures
        r == (i + d@.len() <= s@.len() && s@.subrange(i as int, i + d@.len()) == d@),
{
    let slen = s.unicode_len();
    let dlen = d.unicode_len();
    if dlen > slen - i {
        return false;
    }
    let mut j: usize = 0;
    while j < dlen
        invariant
            i + dlen <= slen,
            slen == s@.len(),
            dlen == d@.len(),
            j <= dlen,
            forall|k: int| 0 <= k < j ==> s@[i + k] == d@[k],
        decreases dlen - j,
    {
        if s.get_char(i + j) != d.get_char(j) {
            proof {
                assert(s@.subrange(i as int, i + d@.len())[j as int] != d@[j as int]);
            }
            return false;
        }
        j = j + 1;
    }
    proof {
        assert(s@.subrange(i as int, i + d@.len()) =~= d@);
    }
    true
}

/// Splits a string at each leftmost occurrence of the delimiter, keeping
/// empty tokens, as a configured delimiter splits blocklist text.
pub fn split_delim_tokens(s: &str, d: &str) -> (r: Vec<String>)
    requires
        d@.len() > 0,
    ensures
        r.deep_view() == delim_tokens(s@, d@),
{
    let len = s.unicode_len();
    let dlen = d.unicode_len();
    let mut out: Vec<String> = Vec::new();
    let mut start: usize = 0;
    let mut i: usize = 0;
    proof {
        assert(out.deep_view() =~= Seq::<Seq<char>>::empty());
        assert(s@.subrange(0, 0) =~= Seq::<char>::empty());
    }
    while i < len
        invariant
            len == s@.len(),
            dlen == d@.len(),
            dlen > 0,
            start <= i <= len,
            delim_tokens(s@, d@) == delim_tokens_from(
                s@,
                d@,
                i as int,
                s@.subrange(start as int, i as int),
                out.deep_view(),
            ),
        decreases len - i,
    {
        let ghost cur: Seq<char> = s@.subrange(start as int, i as int);
        if match_at(s, i, d) {
            let tok = String::from_str(s.substring_char(start, i));
            let ghost dv = out.deep_view();
            out.push(tok);
            proof {
                assert(out.deep_view() =~= dv.push(cur));
            }
            start = i + dlen;
            i = start;
            proof {
                assert(s@.subrange(start as int, start as int) =~= Seq::<char>::empty());
            }
        } else {
            proof {
                assert(s@.subrange(start as int, i + 1) =~= cur.push(s@[i as int]));
            }
            i = i + 1;
        }
    }
    let tok = String::from_str(s.substring_char(start, len));
    let ghost dv = out.deep_view();
    let ghost cur: Seq<char> = s@.subrange(start as int, len as int);
    out.push(tok);
    proof {
        assert(out.deep_view() =~= dv.push(cur));
    }
    out
}

/// `s` without its leading whitespace characters.
pub open spec fn trim_start_s(s: Seq<char>) -> Seq<char>
    decreases s.len(),
{
    if s.len() > 0 && ws_char(s[0]) {
        trim_start_s(s.drop_first())
    } else {
        s
    }
}

/// `s` without its trailing whitespace characters.
pub open spec fn trim_end_s(s: Seq<char>) -> Seq<char>
    decreases s.len(),
{
    if s.len() > 0 && ws_char(s.last()) {
        trim_end_s(s.drop_last())
    } else {
        s
    }
}

/// `s` without leading and trailing whitespace.
pub open spec fn trim_s(s: Seq<char>) -> Seq<char> {
    trim_end_s(trim_start_s(s))
}

proof fn lemma_trim_start(s: Seq<char>, lo: int)
    requires
        0 <= lo <= s.len(),
        forall|j: int| 0 <= j < lo ==> ws_char(s[j]),
        lo == s.len() || !ws_char(s[lo]),
    ensures
        trim_start_s(s) == s.skip(lo),
    decreases lo,
{
    if lo == 0 {
        assert(s.skip(0) =~= s);
    } else {
        lemma_trim_start(s.drop_first(), lo - 1);
        assert(s.drop_first().skip(lo - 1) =~= s.skip(lo));
    }
}

proof fn lemma_trim_end(s: Seq<char>, hi: int)
    requires
        0 <= hi <= s.len(),
        forall|j: int| hi <= j < s.len() ==> ws_char(s[j]),
        hi == 0 || !ws_char(s[hi - 1]),
    ensures
        trim_end_s(s) == s.take(hi),
    decreases s.len() - hi,
{
    if hi == s.len() {
        assert(s.take(hi) =~= s);
    } else {
        lemma_trim_end(s.drop_last(), hi);
        assert(s.drop_last().take(hi) =~= s.take(hi));
    }
}

/// Strips leading and trailing whitespace from a token.
pub fn trim_str(s: &str) -> (r: String)
    ensures
        r@ == trim_s(s@),
{
    let len = s.unicode_len();
    let mut lo: usize = 0;
    while lo < len && is_ws(s.get_char(lo))
        invariant
            len == s@.len(),
            lo <= len,
            forall|j: int| 0 <= j < lo ==> ws_char(s@[j]),
        decreases len - lo,
    {
        lo = lo + 1;
    }
    if lo == len {
        proof {
            lemma_trim_start(s@, lo as int);
            assert(s@.skip(len as int) =~= Seq::<char>::empty());
        }
        return String::new();
    }
    let mut hi: usize = len;
    while hi > lo && is_ws(s.get_char(hi - 1))
        invariant
            len == s@.len(),
            lo <= hi <= len,
            !ws_char(s@[lo as int]),
            forall|j: int| hi <= j < len ==> ws_char(s@[j]),
        decreases hi,
    {
        hi = hi - 1;
    }
    let r = String::from_str(s.substring_char(lo, hi));
    proof {
        lemma_trim_start(s@, lo as int);
        let t = s@.skip(lo as int);
        assert(hi - lo > 0);
        lemma_trim_end(t, hi - lo);
        assert(t.take(hi - lo) =~= s@.subrange(lo as int, hi as int));
    }
    r
}

} // verus!
