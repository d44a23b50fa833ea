//! Run options: the context radius argument and the choice of output mode.

use vstd::prelude::*;
use vstd::string::*;

verus! {

/// The largest context radius accepted.
pub const MAX_RADIUS: usize = 5;

/// Why a context radius argument was rejected.
#[derive(PartialEq, Eq, Structural, Debug, Clone, Copy)]
pub enum RadiusError {
    /// The text is not an unsigned decimal number.
    NotANumber,
    /// The number is larger than `MAX_RADIUS`.
    AboveMaximum,
}

/// How the output is produced.
#[derive(PartialEq, Eq, Structural, Debug, Clone, Copy)]
pub enum Mode {
    /// One pass: each matching line is printed as soon as it is read, with no
    /// context and no grouping.
    Streaming,
    /// Tag all matching lines, then print each one's context window as a group.
    Grouped,
}

pub open spec fn is_digit(c: char) -> bool {
    '0' <= c <= '9'
}

/// The value of a decimal digit.
pub open spec fn digit_value(c: char) -> nat {
    ((c as u32) - ('0' as u32)) as nat
}

/// The digits of an unsigned number's text: all of it, after an optional `+`.
pub open spec fn number_digits(s: Seq<char>) -> Seq<char> {
    if s.len() > 0 && s[0] == '+' {
        s.drop_first()
    } else {
        s
    }
}

/// Whether `s` is an unsigned decimal number: an optional `+`, then one or
/// more digits.
pub open spec fn is_number(s: Seq<char>) -> bool {
    let d = number_digits(s);
    d.len() > 0 && forall|i: int| 0 <= i < d.len() ==> is_digit(#[trigger] d[i])
}

/// The value of a sequence of decimal digits.
pub open spec fn digits_value(d: Seq<char>) -> nat
    decreases d.len(),
{
    if d.len() == 0 {
        0
    } else {
        digits_value(d.drop_last()) * 10 + digit_value(d.last())
    }
}

/// The value of an unsigned number's text.
pub open spec fn number_value(s: Seq<char>) -> nat {
    digits_value(number_digits(s))
}

/// Reads the context radius argument. Without one the radius is 0; otherwise it
/// must be an unsigned decimal number no larger than `MAX_RADIUS`.
pub fn context_radius(arg: Option<&str>) -> (r: Result<usize, RadiusError>)
    ensures
        arg is None ==> r == Ok::<usize, RadiusError>(0),
        arg matches Some(s) ==> (r == Err::<usize, RadiusError>(RadiusError::NotANumber)
            <==> !is_number(s@)),
        arg matches Some(s) ==> (r == Err::<usize, RadiusError>(RadiusError::AboveMaximum)
            <==> is_number(s@) && number_value(s@) > MAX_RADIUS),
        arg matches Some(s) ==> (r is Ok <==> is_number(s@) && number_value(s@) <= MAX_RADIUS),
        arg matches Some(s) ==> (r matches Ok(v) ==> v == number_value(s@)),
{
    let s = match arg {
        None => {
            return Ok(0);
        },
        Some(s) => s,
    };
    let n = s.unicode_len();
    let start: usize = if n > 0 && s.get_char(0) == '+' {
        1
    } else {
        0
    };
    let ghost d = number_digits(s@);
    assert(d =~= s@.subrange(start as int, n as int));
    if start >= n {
        return Err(RadiusError::NotANumber);
    }
    // `capped` is the value read so far, or `MAX_RADIUS + 1` once it is larger.
    let mut capped: usize = 0;
    let mut i: usize = start;
    while i < n
        invariant
            arg == Some(s),
            start <= i <= n,
            n == s@.len(),
            start == 1 <==> (s@.len() > 0 && s@[0] == '+'),
            d =~= s@.subrange(start as int, n as int),
            forall|k: int| 0 <= k < i - start ==> is_digit(#[trigger] d[k]),
            capped <= MAX_RADIUS + 1,
            capped == (if digits_value(d.take(i - start)) <= MAX_RADIUS {
                digits_value(d.take(i - start))
            } else {
                (MAX_RADIUS + 1) as nat
            }),
        decreases n - i,
    {
        let c = s.get_char(i);
        if !('0' <= c && c <= '9') {
            assert(d[i - start] == c);
            return Err(RadiusError::NotANumber);
        }
        let ghost prev = d.take(i - start);
        assert(d.take(i - start + 1).drop_last() =~= prev);
        assert(d.take(i - start + 1).last() == c);
        let v = (c as u32 - '0' as u32) as usize;
        assert(v == digit_value(c));
        let next = capped * 10 + v;
        proof {
            let pv = digits_value(prev);
            assert(digits_value(d.take(i - start + 1)) == pv * 10 + v);
            if pv > MAX_RADIUS {
                assert(pv * 10 >= 60) by (nonlinear_arith)
                    requires
                        pv >= 6,
                ;
            }
        }
        capped = if next > MAX_RADIUS {
            MAX_RADIUS + 1
        } else {
            next
        };
        i = i + 1;
    }
    assert(d.take(n - start) =~= d);
    if capped > MAX_RADIUS {
        Err(RadiusError::AboveMaximum)
    } else {
        Ok(capped)
    }
}

/// Chooses the output mode: streaming exactly when no context is asked for and
/// the input cannot be read a second time.
pub fn select_mode(rescannable: bool, radius: usize) -> (m: Mode)
    ensures
        m == Mode::Streaming <==> !rescannable && radius == 0,
{
    if !rescannable && radius == 0 {
        Mode::Streaming
    } else {
        Mode::Grouped
    }
}

} // verus!
