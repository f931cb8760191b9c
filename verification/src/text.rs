//! Decimal digits, and building strings one character at a time.
use vstd::prelude::*;

verus! {

pub open spec fn is_digit(c: char) -> bool {
    '0' <= c && c <= '9'
}

pub open spec fn digit_value(c: char) -> nat {
    (c as int - '0' as int) as nat
}

pub open spec fn all_digits(s: Seq<char>) -> bool {
    forall|i: int| 0 <= i < s.len() ==> #[trigger] is_digit(s[i])
}

/// The number that a string of decimal digits denotes.
pub open spec fn decimal_value(s: Seq<char>) -> nat
    decreases s.len(),
{
    if s.len() == 0 {
        0
    } else {
        decimal_value(s.drop_last()) * 10 + digit_value(s.last())
    }
}

/// The character of a decimal digit `d < 10`.
pub open spec fn digit_char(d: nat) -> char {
    ((d + 48) as u8) as char
}

/// The shortest decimal writing of `n`, as `format!("{n}")` prints it.
pub open spec fn decimal(n: nat) -> Seq<char>
    decreases n,
{
    if n < 10 {
        seq![digit_char(n)]
    } else {
        decimal(n / 10).push(digit_char(n % 10))
    }
}

pub proof fn lemma_digit_char(d: nat)
    requires
        d < 10,
    ensures
        is_digit(digit_char(d)),
        digit_value(digit_char(d)) == d,
{
}

/// The decimal writing of `n` is a non-empty digit string that denotes `n`.
pub proof fn lemma_decimal(n: nat)
    ensures
        decimal(n).len() > 0,
        all_digits(decimal(n)),
        decimal_value(decimal(n)) == n,
    decreases n,
{
    lemma_digit_char(n % 10);
    if n >= 10 {
        lemma_decimal(n / 10);
        let s = decimal(n);
        assert(s.drop_last() =~= decimal(n / 10));
        assert((n / 10) * 10 + n % 10 == n) by (nonlinear_arith);
        assert(s.last() == digit_char(n % 10));
        assert(decimal_value(s) == decimal_value(decimal(n / 10)) * 10 + digit_value(s.last()));
        assert forall|i: int| 0 <= i < s.len() implies #[trigger] is_digit(s[i]) by {
            if i < s.len() - 1 {
                assert(s[i] == decimal(n / 10)[i]);
            }
        }
    } else {
        assert(decimal(n).drop_last() =~= Seq::<char>::empty());
        assert(decimal_value(decimal(n)) == decimal_value(Seq::<char>::empty()) * 10 + digit_value(digit_char(n)));
    }
}

/// Appends one character to a string, by `String::push`. Trusted: the
/// contract claims that the string's characters are the old ones followed by
/// `c`, as the standard library documents.
#[verifier::external_body]
pub(crate) fn push_char(s: &mut String, c: char)
    ensures
        final(s)@ == old(s)@.push(c),
{
    s.push(c);
}

/// Appends the decimal writing of `n` to `s`.
pub fn push_decimal(s: &mut String, n: u64)
    ensures
        final(s)@ == old(s)@ + decimal(n as nat),
    decreases n,
{
    if n >= 10 {
        push_decimal(s, n / 10);
    }
    let d: u8 = (n % 10) as u8;
    let c: char = (d + 48u8) as char;
    push_char(s, c);
    proof {
        if n >= 10 {
            assert(decimal(n as nat) == decimal((n / 10) as nat).push(digit_char((n % 10) as nat)));
        }
    }
    assert(s@ =~= old(s)@ + decimal(n as nat));
}

/// A line as read from the terminal, without its line ending: one `\n` is
/// taken off the end, and then one `\r` before it.
pub open spec fn spec_strip_line_end(s: Seq<char>) -> Seq<char> {
    if s.len() > 0 && s.last() == '\n' {
        let t = s.drop_last();
        if t.len() > 0 && t.last() == '\r' {
            t.drop_last()
        } else {
            t
        }
    } else {
        s
    }
}

/// Taking the line ending off gives the line back without it: the line is
/// what is left followed by `\r\n`, by `\n`, or by nothing when it does not
/// end with `\n`; nothing but the ending is taken.
pub proof fn lemma_strip_line_end(line: Seq<char>)
    ensures
        line.len() >= 2 && line[line.len() - 2] == '\r' && line[line.len() - 1] == '\n'
            ==> spec_strip_line_end(line) + seq!['\r', '\n'] == line,
        line.len() >= 1 && line[line.len() - 1] == '\n' && !(line.len() >= 2 && line[line.len()
            - 2] == '\r') ==> spec_strip_line_end(line) + seq!['\n'] == line,
        !(line.len() >= 1 && line[line.len() - 1] == '\n') ==> spec_strip_line_end(line) == line,
{
    if line.len() >= 1 && line[line.len() - 1] == '\n' {
        let t = line.drop_last();
        if line.len() >= 2 && line[line.len() - 2] == '\r' {
            assert(t.drop_last() + seq!['\r', '\n'] =~= line);
        } else {
            assert(t + seq!['\n'] =~= line);
        }
    }
}

/// Takes the line ending off a line read from the terminal.
pub fn strip_line_end(line: &str) -> (r: String)
    ensures
        r@ == spec_strip_line_end(line@),
{
    let mut chars: Vec<char> = Vec::new();
    for c in it: line.chars()
        invariant
            it.seq() == line@,
            chars@ == line@.take(it.index()),
    {
        chars.push(c);
        assert(chars@ =~= line@.take(it.index() + 1));
    }
    assert(chars@ =~= line@);
    let mut n = chars.len();
    if n > 0 && chars[n - 1] == '\n' {
        n = n - 1;
        if n > 0 && chars[n - 1] == '\r' {
            n = n - 1;
        }
    }
    let mut r = String::new();
    let mut i: usize = 0;
    while i < n
        invariant
            n <= chars.len(),
            0 <= i <= n,
            r@ == chars@.take(i as int),
        decreases n - i,
    {
        push_char(&mut r, chars[i]);
        assert(r@ =~= chars@.take(i + 1));
        i = i + 1;
    }
    assert(spec_strip_line_end(line@) =~= chars@.take(n as int));
    r
}

} // verus!
