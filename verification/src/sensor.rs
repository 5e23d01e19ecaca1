//! The sampler's compute side: turning the text form of a sensor value (for
//! example "50.8") into a whole-degree reading, rounding half away from zero,
//! and substituting the unavailable sentinel for anything malformed or out of
//! range. Obtaining the text from the sensor chip is I/O and happens outside
//! the library.
//!
//! The accepted shape is the one a printed floating-point sensor value has:
//! optional whitespace, then one token `[-]digits[.digits]`, with anything
//! after the token ignored. Everything else yields the sentinel.

use vstd::prelude::*;
use crate::evaluator::TemperatureReading;

verus! {

/// ASCII code of '-'.
pub const MINUS: u8 = 45;

/// ASCII code of '.'.
pub const DOT: u8 = 46;

/// ASCII decimal digit.
pub open spec fn is_digit(b: u8) -> bool {
    48 <= b <= 57
}

/// ASCII whitespace as the tokenizer treats it.
pub open spec fn is_ws(b: u8) -> bool {
    b == 32 || b == 9 || b == 10 || b == 13
}

/// Value of a string of digits read as a decimal numeral.
pub open spec fn digits_val(s: Seq<u8>) -> int
    decreases s.len(),
{
    if s.len() == 0 {
        0
    } else {
        digits_val(s.drop_last()) * 10 + (s.last() - 48)
    }
}

/// Every byte is a decimal digit.
pub open spec fn all_digits(s: Seq<u8>) -> bool {
    forall|i: int| 0 <= i < s.len() ==> is_digit(#[trigger] s[i])
}

/// Number of leading whitespace bytes.
pub open spec fn leading_ws(s: Seq<u8>) -> int
    decreases s.len(),
{
    if s.len() == 0 || !is_ws(s[0]) {
        0
    } else {
        1 + leading_ws(s.drop_first())
    }
}

/// Length of the leading run of non-whitespace bytes.
pub open spec fn leading_token(s: Seq<u8>) -> int
    decreases s.len(),
{
    if s.len() == 0 || is_ws(s[0]) {
        0
    } else {
        1 + leading_token(s.drop_first())
    }
}

/// First index holding byte `b`, or the length when `b` does not occur.
pub open spec fn find_byte(s: Seq<u8>, b: u8) -> int
    decreases s.len(),
{
    if s.len() == 0 {
        0
    } else if s[0] == b {
        0
    } else {
        1 + find_byte(s.drop_first(), b)
    }
}

/// The first whitespace-delimited token of `s` (empty if there is none).
pub open spec fn token_of(s: Seq<u8>) -> Seq<u8> {
    let rest = s.subrange(leading_ws(s), s.len() as int);
    rest.subrange(0, leading_token(rest))
}

/// Value of an unsigned numeral `digits[.digits]`, rounded half away from
/// zero to a whole number; `None` when the bytes do not have that shape.
pub open spec fn unsigned_value(body: Seq<u8>) -> Option<int> {
    let d = find_byte(body, DOT);
    if d == body.len() {
        if body.len() > 0 && all_digits(body) {
            Some(digits_val(body))
        } else {
            None
        }
    } else {
        let ip = body.subrange(0, d);
        let fp = body.subrange(d + 1, body.len() as int);
        if ip.len() > 0 && fp.len() > 0 && all_digits(ip) && all_digits(fp) {
            Some(digits_val(ip) + if fp[0] >= 53 { 1int } else { 0int })
        } else {
            None
        }
    }
}

/// Value of a token `[-]digits[.digits]`, rounded half away from zero;
/// `None` when the token does not have that shape.
pub open spec fn token_value(t: Seq<u8>) -> Option<int> {
    if t.len() > 0 && t[0] == MINUS {
        match unsigned_value(t.drop_first()) {
            Some(v) => Some(-v),
            None => None,
        }
    } else {
        unsigned_value(t)
    }
}

/// The reading the sampler derives from the text of a sensor value: the
/// rounded whole-degree value of the first token, or the sentinel when the
/// text is not a numeral or its value does not fit a whole-degree reading.
pub open spec fn reading_of(s: Seq<u8>) -> TemperatureReading {
    match token_value(token_of(s)) {
        Some(v) => if i32::MIN <= v <= i32::MAX {
            TemperatureReading::Degrees(v as i32)
        } else {
            TemperatureReading::Unavailable
        },
        None => TemperatureReading::Unavailable,
    }
}

/// A millidegree value rounded half away from zero to whole degrees.
pub open spec fn milli_rounded(md: int) -> int {
    if md >= 0 {
        (md + 500) / 1000
    } else {
        -((-md + 500) / 1000)
    }
}

/// Converts a millidegree sensor value, as the kernel reports temperatures,
/// to whole degrees, rounding half away from zero.
pub fn millidegrees_to_degrees(md: i32) -> (d: i32)
    ensures
        d == milli_rounded(md as int),
{
    let m: i64 = md as i64;
    if m >= 0 {
        let q: i64 = (m + 500) / 1000;
        proof {
            vstd::arithmetic::div_mod::lemma_div_is_ordered(m + 500, 0x1_0000_0000i64 as int, 1000);
            vstd::arithmetic::div_mod::lemma_div_is_ordered(0, m + 500, 1000);
        }
        q as i32
    } else {
        let q: i64 = (-m + 500) / 1000;
        proof {
            vstd::arithmetic::div_mod::lemma_div_is_ordered(-m + 500, 0x1_0000_0000i64 as int, 1000);
            vstd::arithmetic::div_mod::lemma_div_is_ordered(0, -m + 500, 1000);
        }
        (-q) as i32
    }
}

/// `leading_ws` characterized by its bytes: everything before it is
/// whitespace and the byte at it, if any, is not.
proof fn lemma_leading_ws(s: Seq<u8>)
    ensures
        0 <= leading_ws(s) <= s.len(),
        forall|j: int| 0 <= j < leading_ws(s) ==> is_ws(#[trigger] s[j]),
        leading_ws(s) < s.len() ==> !is_ws(s[leading_ws(s)]),
    decreases s.len(),
{
    if s.len() == 0 || !is_ws(s[0]) {
    } else {
        lemma_leading_ws(s.drop_first());
        assert forall|j: int| 0 <= j < leading_ws(s) implies is_ws(#[trigger] s[j]) by {
            if j > 0 {
                assert(s[j] == s.drop_first()[j - 1]);
            }
        }
        if leading_ws(s) < s.len() {
            assert(s[leading_ws(s)] == s.drop_first()[leading_ws(s) - 1]);
        }
    }
}

/// `leading_token` characterized by its bytes: everything before it is
/// non-whitespace and the byte at it, if any, is whitespace.
proof fn lemma_leading_token(s: Seq<u8>)
    ensures
        0 <= leading_token(s) <= s.len(),
        forall|j: int| 0 <= j < leading_token(s) ==> !is_ws(#[trigger] s[j]),
        leading_token(s) < s.len() ==> is_ws(s[leading_token(s)]),
    decreases s.len(),
{
    if s.len() == 0 || is_ws(s[0]) {
    } else {
        lemma_leading_token(s.drop_first());
        assert forall|j: int| 0 <= j < leading_token(s) implies !is_ws(#[trigger] s[j]) by {
            if j > 0 {
                assert(s[j] == s.drop_first()[j - 1]);
            }
        }
        if leading_token(s) < s.len() {
            assert(s[leading_token(s)] == s.drop_first()[leading_token(s) - 1]);
        }
    }
}

/// `find_byte` characterized by its bytes: `b` occurs nowhere before it, and
/// at it unless it is the length.
proof fn lemma_find_byte(s: Seq<u8>, b: u8)
    ensures
        0 <= find_byte(s, b) <= s.len(),
        forall|j: int| 0 <= j < find_byte(s, b) ==> (#[trigger] s[j]) != b,
        find_byte(s, b) < s.len() ==> s[find_byte(s, b)] == b,
    decreases s.len(),
{
    if s.len() == 0 || s[0] == b {
    } else {
        lemma_find_byte(s.drop_first(), b);
        assert forall|j: int| 0 <= j < find_byte(s, b) implies (#[trigger] s[j]) != b by {
            if j > 0 {
                assert(s[j] == s.drop_first()[j - 1]);
            }
        }
        if find_byte(s, b) < s.len() {
            assert(s[find_byte(s, b)] == s.drop_first()[find_byte(s, b) - 1]);
        }
    }
}

/// A digit string has a non-negative value.
proof fn lemma_digits_val_nonneg(s: Seq<u8>)
    requires
        all_digits(s),
    ensures
        digits_val(s) >= 0,
    decreases s.len(),
{
    if s.len() > 0 {
        assert(all_digits(s.drop_last())) by {
            assert(forall|i: int|
                0 <= i < s.len() - 1 ==> (#[trigger] s.drop_last()[i]) == s[i]);
        }
        lemma_digits_val_nonneg(s.drop_last());
    }
}

/// Parses the text of a sensor value into a whole-degree reading, rounding
/// half away from zero: the first whitespace-delimited token read as
/// `[-]digits[.digits]`. Malformed text and values outside the whole-degree
/// range yield the unavailable sentinel, never a wrong reading.
#[verifier::loop_isolation(false)]
#[verifier::rlimit(100)]
pub fn parse_reading(bytes: &Vec<u8>) -> (r: TemperatureReading)
    ensures
        r == reading_of(bytes@),
{
    let s = Ghost(bytes@);
    let n = bytes.len();
    // Skip leading whitespace.
    let mut st: usize = 0;
    while st < n && (bytes[st] == 32 || bytes[st] == 9 || bytes[st] == 10 || bytes[st] == 13)
        invariant
            0 <= st <= n,
            forall|j: int| 0 <= j < st ==> is_ws(#[trigger] s@[j]),
        decreases n - st,
    {
        st = st + 1;
    }
    proof {
        lemma_leading_ws(s@);
        if leading_ws(s@) < st {
            assert(is_ws(s@[leading_ws(s@)]));
        }
        if leading_ws(s@) > st {
            assert(is_ws(s@[st as int]));
        }
        assert(leading_ws(s@) == st);
    }
    // Find the end of the token.
    let mut en: usize = st;
    while en < n && !(bytes[en] == 32 || bytes[en] == 9 || bytes[en] == 10 || bytes[en] == 13)
        invariant
            st <= en <= n,
            forall|j: int| st <= j < en ==> !is_ws(#[trigger] s@[j]),
        decreases n - en,
    {
        en = en + 1;
    }
    let tok = Ghost(s@.subrange(st as int, en as int));
    proof {
        let rest = s@.subrange(st as int, s@.len() as int);
        lemma_leading_token(rest);
        let lt = leading_token(rest);
        if lt < en - st {
            assert(!is_ws(s@[st + lt]));
            assert(rest[lt] == s@[st + lt]);
        }
        if lt > en - st {
            assert(!is_ws(rest[en - st]));
            assert(rest[en - st] == s@[en as int]);
        }
        assert(lt == en - st);
        assert(token_of(s@) =~= tok@);
    }
    if en == st {
        // No token at all.
        proof {
            assert(token_value(tok@) is None);
        }
        return TemperatureReading::Unavailable;
    }
    // Sign.
    let neg = bytes[st] == MINUS;
    let p: usize = if neg {
        st + 1
    } else {
        st
    };
    let body = Ghost(s@.subrange(p as int, en as int));
    proof {
        if neg {
            assert(tok@.drop_first() =~= body@);
        } else {
            assert(tok@ =~= body@);
        }
    }
    if p == en {
        // A bare minus sign.
        proof {
            assert(unsigned_value(body@) is None);
        }
        return TemperatureReading::Unavailable;
    }
    // Integer part: accumulate its value, saturating once it can no longer
    // fit a whole-degree reading.
    let mut i: usize = p;
    let mut acc: i64 = 0;
    let mut big = false;
    while i < en && 48 <= bytes[i] && bytes[i] <= 57
        invariant
            p <= i <= en,
            forall|j: int| p <= j < i ==> is_digit(#[trigger] s@[j]),
            0 <= acc <= 2147483648,
            !big ==> acc == digits_val(s@.subrange(p as int, i as int)),
            big ==> digits_val(s@.subrange(p as int, i as int)) > 2147483648,
        decreases en - i,
    {
        let d = bytes[i] - 48;
        proof {
            let pre = s@.subrange(p as int, i as int);
            let ext = s@.subrange(p as int, i + 1);
            assert(ext.drop_last() =~= pre);
            assert(ext.last() == s@[i as int]);
            assert(digits_val(ext) == digits_val(pre) * 10 + (s@[i as int] - 48));
            if big {
                assert(digits_val(pre) * 10 >= digits_val(pre)) by (nonlinear_arith)
                    requires
                        digits_val(pre) > 0,
                ;
            }
        }
        if !big {
            let nxt: i64 = acc * 10 + (d as i64);
            if nxt > 2147483648 {
                big = true;
            } else {
                acc = nxt;
            }
        }
        i = i + 1;
    }
    let ip_end = i;
    let ghost intpart = s@.subrange(p as int, ip_end as int);
    proof {
        lemma_find_byte(body@, DOT);
        assert(forall|j: int| 0 <= j < body@.len() ==> body@[j] == s@[p + j]);
    }
    let mut round = false;
    if i == en {
        // No fraction: the whole body must have been digits.
        proof {
            assert(intpart =~= body@);
            let fb = find_byte(body@, DOT);
            if fb < body@.len() {
                assert(is_digit(body@[fb]));
            }
            assert(fb == body@.len());
        }
    } else if bytes[i] != DOT {
        // A stray byte that is neither digit nor dot: not a numeral.
        proof {
            let fb = find_byte(body@, DOT);
            let bad = i - p;
            assert(body@[bad] == s@[i as int]);
            if fb == body@.len() {
                assert(!is_digit(body@[bad]));
            } else {
                assert(fb > bad);
                let ip = body@.subrange(0, fb);
                assert(ip[bad] == body@[bad]);
                assert(!all_digits(ip));
            }
            assert(unsigned_value(body@) is None);
        }
        return TemperatureReading::Unavailable;
    } else {
        // Fraction: must be non-empty and all digits; its first digit
        // decides the rounding.
        proof {
            let fb = find_byte(body@, DOT);
            if fb < i - p {
                assert(is_digit(body@[fb]));
            }
            if fb > i - p {
                assert(body@[i - p] != DOT);
            }
            assert(fb == i - p);
            assert(body@.subrange(0, i - p) =~= intpart);
        }
        if ip_end == p {
            // A dot with no integer digits before it.
            proof {
                assert(unsigned_value(body@) is None);
            }
            return TemperatureReading::Unavailable;
        }
        let f = i + 1;
        let ghost frac = body@.subrange(i + 1 - p, body@.len() as int);
        proof {
            assert(forall|j: int| 0 <= j < frac.len() ==> frac[j] == s@[f + j]);
        }
        if f == en {
            // A trailing dot with no fraction digits.
            proof {
                assert(frac.len() == 0);
                assert(unsigned_value(body@) is None);
            }
            return TemperatureReading::Unavailable;
        }
        let mut k = f;
        while k < en && 48 <= bytes[k] && bytes[k] <= 57
            invariant
                f <= k <= en,
                forall|j: int| f <= j < k ==> is_digit(#[trigger] s@[j]),
            decreases en - k,
        {
            k = k + 1;
        }
        if k < en {
            // A non-digit inside the fraction: not a numeral.
            proof {
                assert(frac[k - f] == s@[k as int]);
                assert(!all_digits(frac));
                assert(unsigned_value(body@) is None);
            }
            return TemperatureReading::Unavailable;
        }
        proof {
            assert(all_digits(frac));
            assert(frac[0] == s@[f as int]);
        }
        round = bytes[f] >= 53;
    }
    // The token is a well-formed numeral; its rounded value is the integer
    // part plus the carry from the fraction.
    let ghost value: int = digits_val(intpart) + if round {
        1int
    } else {
        0int
    };
    proof {
        assert(all_digits(intpart));
        assert(unsigned_value(body@) == Some(value));
        if neg {
            assert(token_value(tok@) == Some(-value));
        } else {
            assert(token_value(tok@) == Some(value));
        }
        lemma_digits_val_nonneg(intpart);
    }
    if big {
        // The integer part alone exceeds any whole-degree reading.
        return TemperatureReading::Unavailable;
    }
    let v: i64 = acc + if round {
        1
    } else {
        0
    };
    let val: i64 = if neg {
        -v
    } else {
        v
    };
    if val < -2147483648 || val > 2147483647 {
        return TemperatureReading::Unavailable;
    }
    TemperatureReading::Degrees(val as i32)
}

} // verus!
