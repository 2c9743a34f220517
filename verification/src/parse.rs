//! Parsing of a comma-separated topic-id list, as a consumer's command line
//! supplies it: every token is trimmed of surrounding whitespace and kept
//! exactly when it reads as a decimal number that fits a machine word.

use vstd::prelude::*;
use vstd::string::StrSliceExecFns;

verus! {

/// A whitespace character, as `str::trim` removes them.
pub open spec fn is_ws(c: char) -> bool {
    let u = c as u32;
    ||| u == 0x20
    ||| 0x09 <= u && u <= 0x0d
    ||| u == 0x85
    ||| u == 0xa0
    ||| u == 0x1680
    ||| 0x2000 <= u && u <= 0x200a
    ||| u == 0x2028
    ||| u == 0x2029
    ||| u == 0x202f
    ||| u == 0x205f
    ||| u == 0x3000
}

/// An ASCII decimal digit.
pub open spec fn is_digit(c: char) -> bool {
    0x30 <= c as u32 && c as u32 <= 0x39
}

/// Every character in `[lo, hi)` is a decimal digit.
pub open spec fn all_digits(s: Seq<char>, lo: int, hi: int) -> bool {
    forall|i: int| lo <= i < hi ==> is_digit(#[trigger] s[i])
}

/// The number a run of decimal digits `[lo, hi)` denotes.
pub open spec fn digits_value(s: Seq<char>, lo: int, hi: int) -> int
    decreases hi - lo,
{
    if lo >= hi {
        0
    } else {
        digits_value(s, lo, hi - 1) * 10 + (s[hi - 1] as u32 - 0x30)
    }
}

/// First position in `[lo, hi)` holding a non-whitespace character; `hi`
/// when there is none.
pub open spec fn trim_from(s: Seq<char>, lo: int, hi: int) -> int
    decreases hi - lo,
{
    if lo >= hi {
        lo
    } else if is_ws(s[lo]) {
        trim_from(s, lo + 1, hi)
    } else {
        lo
    }
}

/// Position after the last non-whitespace character in `[lo, hi)`; `lo`
/// when there is none.
pub open spec fn trim_upto(s: Seq<char>, lo: int, hi: int) -> int
    decreases hi - lo,
{
    if lo >= hi {
        hi
    } else if is_ws(s[hi - 1]) {
        trim_upto(s, lo, hi - 1)
    } else {
        hi
    }
}

/// What reading the token `[lo, hi)` as an unsigned decimal number yields:
/// after trimming whitespace, an optional plus sign followed by one or more
/// digits denotes their value; anything else is rejected. The value is
/// mathematical; the machine-range check comes at inclusion.
pub open spec fn token_value(s: Seq<char>, lo: int, hi: int) -> Option<int> {
    let a = trim_from(s, lo, hi);
    let b = trim_upto(s, a, hi);
    let d = if a < b && s[a] == '+' {
        a + 1
    } else {
        a
    };
    if d < b && all_digits(s, d, b) {
        Some(digits_value(s, d, b))
    } else {
        None
    }
}

/// The topic ids one token contributes: its value, when it parses and fits
/// a machine word.
pub open spec fn token_topics(s: Seq<char>, lo: int, hi: int) -> Seq<usize> {
    match token_value(s, lo, hi) {
        Some(v) => if v <= usize::MAX as int {
            seq![v as usize]
        } else {
            Seq::empty()
        },
        None => Seq::empty(),
    }
}

/// The topic ids of all tokens from position `i` on, the current token
/// having begun at `start`.
pub open spec fn parse_tokens(s: Seq<char>, i: int, start: int) -> Seq<usize>
    decreases s.len() - i,
{
    if i >= s.len() {
        token_topics(s, start, s.len() as int)
    } else if s[i] == ',' {
        token_topics(s, start, i) + parse_tokens(s, i + 1, i + 1)
    } else {
        parse_tokens(s, i + 1, start)
    }
}

/// The topic ids a comma-separated list denotes.
pub open spec fn spec_parse_topics(s: Seq<char>) -> Seq<usize> {
    parse_tokens(s, 0, 0)
}

/// Whether `c` is a whitespace character.
fn is_ws_char(c: char) -> (r: bool)
    ensures
        r == is_ws(c),
{
    let u = c as u32;
    u == 0x20 || (0x09 <= u && u <= 0x0d) || u == 0x85 || u == 0xa0 || u == 0x1680 || (0x2000 <= u
        && u <= 0x200a) || u == 0x2028 || u == 0x2029 || u == 0x202f || u == 0x205f || u == 0x3000
}

/// Whether `c` is an ASCII decimal digit.
fn is_digit_char(c: char) -> (r: bool)
    ensures
        r == is_digit(c),
{
    let u = c as u32;
    0x30 <= u && u <= 0x39
}

/// Reads the token `[lo, hi)` of `s` as an unsigned decimal number, exactly
/// as [`token_value`] says, rejecting values beyond the machine word.
fn parse_token(s: &str, lo: usize, hi: usize) -> (r: Option<usize>)
    requires
        lo <= hi <= s@.len(),
    ensures
        r == (match token_value(s@, lo as int, hi as int) {
            Some(v) => if v <= usize::MAX as int {
                Some(v as usize)
            } else {
                None::<usize>
            },
            None => None::<usize>,
        }),
{
    let mut a = lo;
    while a < hi && is_ws_char(s.get_char(a))
        invariant
            lo <= a <= hi <= s@.len(),
            trim_from(s@, lo as int, hi as int) == trim_from(s@, a as int, hi as int),
        decreases hi - a,
    {
        a = a + 1;
    }
    let mut b = hi;
    while b > a && is_ws_char(s.get_char(b - 1))
        invariant
            a <= b <= hi <= s@.len(),
            trim_upto(s@, a as int, hi as int) == trim_upto(s@, a as int, b as int),
        decreases b,
    {
        b = b - 1;
    }
    proof {
        assert(trim_from(s@, lo as int, hi as int) == a as int);
        assert(trim_upto(s@, a as int, hi as int) == b as int);
    }
    let mut d = a;
    if d < b {
        if s.get_char(d) == '+' {
            d = d + 1;
        }
    }
    if d >= b {
        return None;
    }
    let mut v: usize = 0;
    let mut k = d;
    let mut bad = false;
    let mut over = false;
    while k < b
        invariant
            d <= k <= b <= s@.len(),
            !bad ==> all_digits(s@, d as int, k as int),
            bad ==> !all_digits(s@, d as int, b as int),
            (!bad && !over) ==> v as int == digits_value(s@, d as int, k as int),
            (!bad && over) ==> digits_value(s@, d as int, k as int) > usize::MAX as int,
        decreases b - k,
    {
        let c = s.get_char(k);
        if is_digit_char(c) {
            let digit = (c as u32 - 0x30) as usize;
            let ghost dv = digits_value(s@, d as int, k as int);
            if !bad && !over {
                match v.checked_mul(10) {
                    Some(v10) => {
                        match v10.checked_add(digit) {
                            Some(v2) => {
                                v = v2;
                            },
                            None => {
                                over = true;
                            },
                        }
                    },
                    None => {
                        over = true;
                        proof {
                            assert(dv * 10 + (s@[k as int] as u32 - 0x30) > usize::MAX as int);
                        }
                    },
                }
            } else if !bad && over {
                proof {
                    assert(dv * 10 + (s@[k as int] as u32 - 0x30) > usize::MAX as int)
                        by (nonlinear_arith)
                        requires
                            dv > usize::MAX as int,
                            s@[k as int] as u32 >= 0x30,
                    ;
                }
            }
        } else {
            bad = true;
        }
        k = k + 1;
    }
    if bad || over {
        None
    } else {
        Some(v)
    }
}

/// Parses a comma-separated list of topic ids, such as `"1, 2, 3"`: every
/// token that reads as a number in the machine's range is kept, in input
/// order; every other token is ignored.
pub fn parse_topic_list(s: &str) -> (r: Vec<usize>)
    ensures
        r@ == spec_parse_topics(s@),
{
    let n = s.unicode_len();
    let mut out: Vec<usize> = Vec::new();
    let mut start: usize = 0;
    let mut i: usize = 0;
    while i < n
        invariant
            n as int == s@.len(),
            start <= i <= n,
            spec_parse_topics(s@) == out@ + parse_tokens(s@, i as int, start as int),
        decreases n - i,
    {
        let c = s.get_char(i);
        if c == ',' {
            let ghost pre_out = out@;
            match parse_token(s, start, i) {
                Some(v) => out.push(v),
                None => (),
            }
            proof {
                assert(out@ =~= pre_out + token_topics(s@, start as int, i as int));
                assert(pre_out + parse_tokens(s@, i as int, start as int) =~= out@ + parse_tokens(
                    s@,
                    i as int + 1,
                    i as int + 1,
                ));
            }
            start = i + 1;
        }
        i = i + 1;
    }
    let ghost pre_out = out@;
    match parse_token(s, start, n) {
        Some(v) => out.push(v),
        None => (),
    }
    proof {
        assert(out@ =~= pre_out + token_topics(s@, start as int, s@.len() as int));
    }
    out
}

} // verus!
