//! Reading a guess from a line of input.
//!
//! A line is trimmed of surrounding whitespace and then read as an unsigned
//! decimal integer: an optional leading plus sign followed by at least one
//! decimal digit, denoting a value that fits in a `u32`.  Anything else is
//! rejected, which the game treats as a quit signal.

use vstd::prelude::*;

verus! {

/// Whitespace, as Unicode's White_Space property defines it: the characters
/// that trimming a line removes.
pub open spec fn is_space(c: char) -> bool {
    ('\t' as int <= c as int && c as int <= '\r' as int) || c == ' ' || c == '\u{0085}'
        || c == '\u{00A0}' || c == '\u{1680}' || ('\u{2000}' as int <= c as int && c as int
        <= '\u{200A}' as int) || c == '\u{2028}' || c == '\u{2029}' || c == '\u{202F}'
        || c == '\u{205F}' || c == '\u{3000}'
}

/// A decimal digit.
pub open spec fn is_digit(c: char) -> bool {
    '0' as int <= c as int && c as int <= '9' as int
}

/// The value of one decimal digit.
pub open spec fn digit_value(c: char) -> int {
    c as int - '0' as int
}

/// Every character of `s` is a decimal digit.
pub open spec fn all_digits(s: Seq<char>) -> bool {
    forall|i: int| 0 <= i < s.len() ==> is_digit(#[trigger] s[i])
}

/// The number that a sequence of decimal digits denotes, most significant first.
pub open spec fn digits_value(s: Seq<char>) -> int
    decreases s.len(),
{
    if s.len() == 0 {
        0
    } else {
        digits_value(s.drop_last()) * 10 + digit_value(s.last())
    }
}

/// `s` without leading whitespace.
pub open spec fn trim_front(s: Seq<char>) -> Seq<char>
    decreases s.len(),
{
    if s.len() > 0 && is_space(s[0]) {
        trim_front(s.drop_first())
    } else {
        s
    }
}

/// `s` without trailing whitespace.
pub open spec fn trim_back(s: Seq<char>) -> Seq<char>
    decreases s.len(),
{
    if s.len() > 0 && is_space(s.last()) {
        trim_back(s.drop_last())
    } else {
        s
    }
}

/// `s` without leading and trailing whitespace.
pub open spec fn trimmed(s: Seq<char>) -> Seq<char> {
    trim_back(trim_front(s))
}

/// The digits of `s` after an optional leading plus sign.
pub open spec fn unsigned_body(s: Seq<char>) -> Seq<char> {
    if s.len() > 0 && s[0] == '+' {
        s.drop_first()
    } else {
        s
    }
}

/// What reading `s` as an unsigned 32-bit decimal integer yields: the denoted
/// value if, after an optional leading plus sign, `s` is one or more decimal
/// digits whose value fits in a `u32`; nothing otherwise.
pub open spec fn spec_parse_u32(s: Seq<char>) -> Option<u32> {
    let body = unsigned_body(s);
    if body.len() > 0 && all_digits(body) && digits_value(body) <= u32::MAX {
        Some(digits_value(body) as u32)
    } else {
        None
    }
}

/// A sequence of digits denotes a nonnegative number.
pub proof fn lemma_digits_value_nonneg(s: Seq<char>)
    requires
        all_digits(s),
    ensures
        digits_value(s) >= 0,
    decreases s.len(),
{
    if s.len() > 0 {
        assert(all_digits(s.drop_last())) by {
            assert(forall|i: int|
                0 <= i < s.drop_last().len() ==> #[trigger] s.drop_last()[i] == s[i]);
        }
        lemma_digits_value_nonneg(s.drop_last());
        assert(digit_value(s.last()) >= 0);
    }
}

/// A prefix of a sequence of digits denotes no more than the whole.
pub proof fn lemma_digits_prefix_le(s: Seq<char>, i: int)
    requires
        all_digits(s),
        0 <= i <= s.len(),
    ensures
        digits_value(s.subrange(0, i)) <= digits_value(s),
    decreases s.len() - i,
{
    if i == s.len() {
        assert(s.subrange(0, i) =~= s);
    } else {
        let p = s.subrange(0, i);
        let q = s.subrange(0, i + 1);
        assert(q.drop_last() =~= p);
        assert(q.last() == s[i]);
        assert(all_digits(p)) by {
            assert(forall|k: int| 0 <= k < p.len() ==> #[trigger] p[k] == s[k]);
        }
        lemma_digits_value_nonneg(p);
        assert(digits_value(q) == digits_value(p) * 10 + digit_value(s[i]));
        assert(digits_value(p) <= digits_value(q));
        lemma_digits_prefix_le(s, i + 1);
    }
}

/// Dropping exactly the leading whitespace is what `trim_front` does.
proof fn lemma_trim_front_range(s: Seq<char>, lo: int)
    requires
        0 <= lo <= s.len(),
        forall|k: int| 0 <= k < lo ==> is_space(#[trigger] s[k]),
        lo == s.len() || !is_space(s[lo]),
    ensures
        trim_front(s) == s.subrange(lo, s.len() as int),
    decreases lo,
{
    if lo == 0 {
        assert(s.subrange(0, s.len() as int) =~= s);
    } else {
        assert(is_space(s[0]));
        let t = s.drop_first();
        assert(t =~= s.subrange(1, s.len() as int));
        assert(forall|k: int| 0 <= k < lo - 1 ==> #[trigger] t[k] == s[k + 1]);
        lemma_trim_front_range(t, lo - 1);
        assert(t.subrange(lo - 1, t.len() as int) =~= s.subrange(lo, s.len() as int));
    }
}

/// Dropping exactly the trailing whitespace is what `trim_back` does.
proof fn lemma_trim_back_range(s: Seq<char>, hi: int)
    requires
        0 <= hi <= s.len(),
        forall|k: int| hi <= k < s.len() ==> is_space(#[trigger] s[k]),
        hi == 0 || !is_space(s[hi - 1]),
    ensures
        trim_back(s) == s.subrange(0, hi),
    decreases s.len() - hi,
{
    if hi == s.len() {
        assert(s.subrange(0, hi) =~= s);
    } else {
        assert(is_space(s.last()));
        let t = s.drop_last();
        assert(t =~= s.subrange(0, s.len() - 1));
        assert(forall|k: int| 0 <= k < t.len() ==> #[trigger] t[k] == s[k]);
        lemma_trim_back_range(t, hi);
        assert(t.subrange(0, hi) =~= s.subrange(0, hi));
    }
}

/// Whether the character at position `i` of `s` is whitespace.
fn is_space_at(s: &str, i: usize) -> (b: bool)
    requires
        i < s@.len(),
    ensures
        b == is_space(s@[i as int]),
{
    let c = s.get_char(i);
    let cv = c as u32;
    (cv >= '\t' as u32 && cv <= '\r' as u32) || c == ' ' || c == '\u{0085}' || c == '\u{00A0}'
        || c == '\u{1680}' || (cv >= '\u{2000}' as u32 && cv <= '\u{200A}' as u32)
        || c == '\u{2028}' || c == '\u{2029}' || c == '\u{202F}' || c == '\u{205F}'
        || c == '\u{3000}'
}

/// Reads a guess from one line of input: the line is trimmed of surrounding
/// whitespace and then read as an unsigned 32-bit decimal integer, exactly as
/// `spec_parse_u32` describes.
pub fn parse_guess(line: &str) -> (r: Option<u32>)
    ensures
        r == spec_parse_u32(trimmed(line@)),
{
    let n = line.unicode_len();
    let mut lo: usize = 0;
    while lo < n && is_space_at(line, lo)
        invariant
            n == line@.len(),
            lo <= n,
            forall|k: int| 0 <= k < lo ==> is_space(#[trigger] line@[k]),
        decreases n - lo,
    {
        lo = lo + 1;
    }
    if lo == n {
        proof {
            lemma_trim_front_range(line@, lo as int);
            assert(line@.subrange(n as int, n as int) =~= Seq::<char>::empty());
            assert(trimmed(line@) =~= Seq::<char>::empty());
        }
        return None;
    }
    let mut hi: usize = n;
    while hi > lo && is_space_at(line, hi - 1)
        invariant
            n == line@.len(),
            lo < n,
            lo <= hi <= n,
            !is_space(line@[lo as int]),
            forall|k: int| hi <= k < n ==> is_space(#[trigger] line@[k]),
        decreases hi,
    {
        hi = hi - 1;
    }
    assert(hi > lo);
    let ghost g = line@.subrange(lo as int, hi as int);
    proof {
        lemma_trim_front_range(line@, lo as int);
        let t = line@.subrange(lo as int, n as int);
        assert(forall|k: int|
            hi - lo <= k < t.len() ==> is_space(#[trigger] t[k]) && t[k] == line@[k + lo]);
        assert(!is_space(t[hi - lo - 1]));
        lemma_trim_back_range(t, hi - lo);
        assert(t.subrange(0, hi - lo) =~= g);
        assert(trimmed(line@) == g);
    }
    let c0 = line.get_char(lo);
    let start: usize = if c0 == '+' {
        lo + 1
    } else {
        lo
    };
    let ghost body = line@.subrange(start as int, hi as int);
    proof {
        if c0 == '+' {
            assert(g[0] == '+');
            assert(g.drop_first() =~= body);
        }
        assert(unsigned_body(g) == body);
    }
    if start == hi {
        proof {
            assert(body.len() == 0);
        }
        return None;
    }
    let mut i: usize = start;
    let mut acc: u64 = 0;
    while i < hi
        invariant
            n == line@.len(),
            start <= i <= hi <= n,
            body == line@.subrange(start as int, hi as int),
            trimmed(line@) == g,
            unsigned_body(g) == body,
            body.len() > 0,
            all_digits(line@.subrange(start as int, i as int)),
            acc == digits_value(line@.subrange(start as int, i as int)),
            acc <= u32::MAX,
        decreases hi - i,
    {
        let c = line.get_char(i);
        let cv = c as u32;
        if cv < '0' as u32 || cv > '9' as u32 {
            proof {
                assert(!is_digit(line@[i as int]));
                assert(body[i - start] == line@[i as int]);
                assert(!all_digits(body));
            }
            return None;
        }
        let d: u32 = cv - '0' as u32;
        let next: u64 = acc * 10 + d as u64;
        proof {
            let prev = line@.subrange(start as int, i as int);
            let p = line@.subrange(start as int, i + 1);
            assert(p.drop_last() =~= prev);
            assert(p.last() == line@[i as int]);
            assert(is_digit(line@[i as int]));
            assert(digit_value(line@[i as int]) == d);
            assert(digits_value(p) == acc * 10 + d);
            assert forall|k: int| 0 <= k < p.len() implies is_digit(#[trigger] p[k]) by {
                if k < p.len() - 1 {
                    assert(p[k] == prev[k]);
                }
            }
            assert(all_digits(p));
        }
        if next > 0xffff_ffffu64 {
            proof {
                let p = line@.subrange(start as int, i + 1);
                if all_digits(body) {
                    assert(body.subrange(0, i + 1 - start) =~= p);
                    lemma_digits_prefix_le(body, i + 1 - start);
                    assert(digits_value(body) >= digits_value(p));
                    assert(digits_value(body) > u32::MAX);
                }
            }
            return None;
        }
        acc = next;
        i = i + 1;
    }
    proof {
        assert(line@.subrange(start as int, hi as int) == body);
    }
    Some(acc as u32)
}

} // verus!
