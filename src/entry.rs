//! Formatting of single output lines: decimal line indices and the entries
//! that stand for a line inside a context window or in streaming output.

use vstd::prelude::*;
use vstd::string::*;

verus! {

/// The ten decimal digits, in order.
pub open spec fn digits() -> Seq<char> {
    seq!['0', '1', '2', '3', '4', '5', '6', '7', '8', '9']
}

/// The decimal text of `n`, without leading zeros.
pub open spec fn decimal(n: nat) -> Seq<char>
    decreases n,
{
    if n < 10 {
        seq![digits()[n as int]]
    } else {
        decimal(n / 10).push(digits()[(n % 10) as int])
    }
}

/// The mark after an index: `:` on the window's own tag, `-` on a context line.
pub open spec fn mark(index: nat, tag: nat) -> char {
    if index == tag {
        ':'
    } else {
        '-'
    }
}

/// The entry for line `index` inside the window of `tag`: `{index}:\t{text}`
/// on the tag itself, `{index}-\t{text}` elsewhere.
pub open spec fn entry(index: nat, text: Seq<char>, tag: nat) -> Seq<char> {
    decimal(index) + seq![mark(index, tag), '\t'] + text
}

/// The streaming output line for a matching line: `{index}:\t {text}`.
pub open spec fn stream_entry(index: nat, text: Seq<char>) -> Seq<char> {
    decimal(index) + seq![':', '\t', ' '] + text
}

/// Relies on `String::push`: appends one character.
#[verifier::external_body]
fn push_char(s: &mut String, c: char)
    ensures
        final(s)@ == old(s)@.push(c),
{
    s.push(c);
}

/// The decimal digit for `d`.
fn digit_char(d: usize) -> (c: char)
    requires
        d < 10,
    ensures
        c == digits()[d as int],
{
    match d {
        0 => '0',
        1 => '1',
        2 => '2',
        3 => '3',
        4 => '4',
        5 => '5',
        6 => '6',
        7 => '7',
        8 => '8',
        _ => '9',
    }
}

/// Appends the decimal text of `n` to `out`.
pub fn push_decimal(out: &mut String, n: usize)
    ensures
        final(out)@ == old(out)@ + decimal(n as nat),
    decreases n,
{
    if n >= 10 {
        push_decimal(out, n / 10);
    }
    push_char(out, digit_char(n % 10));
    assert(final(out)@ =~= old(out)@ + decimal(n as nat));
}

/// Formats line `index` with text `text` as an entry of the window of `tag`.
pub fn format_entry(index: usize, text: &str, tag: usize) -> (r: String)
    ensures
        r@ == entry(index as nat, text@, tag as nat),
{
    let mut out = String::new();
    push_decimal(&mut out, index);
    if index == tag {
        push_char(&mut out, ':');
    } else {
        push_char(&mut out, '-');
    }
    push_char(&mut out, '\t');
    out.append(text);
    assert(out@ =~= entry(index as nat, text@, tag as nat));
    out
}

/// Formats a matching line for streaming output.
pub fn format_stream_entry(index: usize, text: &str) -> (r: String)
    ensures
        r@ == stream_entry(index as nat, text@),
{
    let mut out = String::new();
    push_decimal(&mut out, index);
    push_char(&mut out, ':');
    push_char(&mut out, '\t');
    push_char(&mut out, ' ');
    out.append(text);
    assert(out@ =~= stream_entry(index as nat, text@));
    out
}

/// The decimal text of a number is non-empty and made of digits only.
pub proof fn lemma_decimal_digits(n: nat)
    ensures
        decimal(n).len() >= 1,
        forall|k: int| 0 <= k < decimal(n).len() ==> digits().contains(#[trigger] decimal(n)[k]),
    decreases n,
{
    if n < 10 {
        assert(digits()[n as int] == decimal(n)[0]);
    } else {
        lemma_decimal_digits(n / 10);
        let last = digits()[(n % 10) as int];
        assert forall|k: int| 0 <= k < decimal(n).len() implies digits().contains(
            #[trigger] decimal(n)[k],
        ) by {
            if k < decimal(n / 10).len() {
                assert(decimal(n)[k] == decimal(n / 10)[k]);
            } else {
                assert(decimal(n)[k] == digits()[(n % 10) as int]);
            }
        }
    }
}

/// An entry is marked `:` right after its index exactly when the line is the
/// window's own tag, and `-` otherwise; the index before the mark is all digits.
pub proof fn lemma_entry_mark(index: nat, text: Seq<char>, tag: nat)
    ensures
        entry(index, text, tag)[decimal(index).len() as int] == mark(index, tag),
        forall|k: int|
            0 <= k < decimal(index).len() ==> digits().contains(
                #[trigger] entry(index, text, tag)[k],
            ),
{
    lemma_decimal_digits(index);
    assert forall|k: int| 0 <= k < decimal(index).len() implies digits().contains(
        #[trigger] entry(index, text, tag)[k],
    ) by {
        assert(entry(index, text, tag)[k] == decimal(index)[k]);
    }
}

} // verus!
