use vstd::prelude::*;
use crate::pixels::Rgb;

verus! {

/// The character of a decimal digit.
pub open spec fn digit_char(d: nat) -> char {
    (48 + d) as char
}

/// The decimal representation of `n`, most significant digit first.
pub open spec fn decimal(n: nat) -> Seq<char>
    decreases n,
{
    if n < 10 {
        seq![digit_char(n)]
    } else {
        decimal(n / 10).push(digit_char(n % 10))
    }
}

/// The number that a string of decimal digits denotes.
pub open spec fn decimal_value(s: Seq<char>) -> nat
    decreases s.len(),
{
    if s.len() == 0 {
        0
    } else {
        decimal_value(s.drop_last()) * 10 + ((s.last() as int - 48) as nat)
    }
}

pub open spec fn is_digit(c: char) -> bool {
    48 <= c as int <= 57
}

/// The escape sequence that sets the terminal's foreground to a 24-bit colour.
pub open spec fn color_escape(c: Rgb) -> Seq<char> {
    seq!['\x1b', '[', '3', '8', ';', '2', ';'] + decimal(c.r as nat) + seq![';'] + decimal(
        c.g as nat,
    ) + seq![';'] + decimal(c.b as nat) + seq!['m']
}

/// The escape sequence that restores the terminal's default attributes.
pub open spec fn reset_escape() -> Seq<char> {
    seq!['\x1b', '[', '0', 'm']
}

/// Appends one character; a thin wrapper over `String::push`, which the
/// standard library documents as appending the given `char` to the end of the
/// string. Nothing about it is proved here.
#[verifier::external_body]
pub(crate) fn push_char(s: &mut String, c: char)
    ensures
        final(s)@ == old(s)@.push(c),
{
    s.push(c);
}

/// Appends every character of `cs`, in order.
pub fn push_chars(s: &mut String, cs: &[char])
    ensures
        final(s)@ == old(s)@ + cs@,
{
    let mut i: usize = 0;
    while i < cs.len()
        invariant
            i <= cs@.len(),
            s@ == old(s)@ + cs@.subrange(0, i as int),
        decreases cs@.len() - i,
    {
        push_char(s, cs[i]);
        assert(cs@.subrange(0, i + 1) =~= cs@.subrange(0, i as int).push(cs@[i as int]));
        i = i + 1;
    }
    assert(cs@.subrange(0, cs@.len() as int) =~= cs@);
}

/// The digit character for `d`.
fn digit(d: u8) -> (c: char)
    requires
        d < 10,
    ensures
        c == digit_char(d as nat),
{
    (48u8 + d) as char
}

/// Appends the decimal representation of a byte.
pub fn push_decimal(s: &mut String, n: u8)
    ensures
        final(s)@ == old(s)@ + decimal(n as nat),
{
    proof {
        reveal_with_fuel(decimal, 3);
    }
    if n >= 100 {
        push_char(s, digit(n / 100));
        push_char(s, digit((n / 10) % 10));
        push_char(s, digit(n % 10));
        assert(decimal(n as nat) =~= seq![
            digit_char((n / 100) as nat),
            digit_char(((n / 10) % 10) as nat),
            digit_char((n % 10) as nat),
        ]);
    } else if n >= 10 {
        push_char(s, digit(n / 10));
        push_char(s, digit(n % 10));
        assert(decimal(n as nat) =~= seq![digit_char((n / 10) as nat), digit_char((n % 10) as nat)]);
    } else {
        push_char(s, digit(n));
    }
}

/// Appends the escape sequence that switches the foreground to `c`.
pub fn push_color_escape(s: &mut String, c: Rgb)
    ensures
        final(s)@ == old(s)@ + color_escape(c),
{
    let ghost s0 = s@;
    push_chars(s, &['\x1b', '[', '3', '8', ';', '2', ';']);
    push_decimal(s, c.r);
    push_char(s, ';');
    push_decimal(s, c.g);
    push_char(s, ';');
    push_decimal(s, c.b);
    push_char(s, 'm');
    assert(s@ =~= s0 + color_escape(c));
}

/// Appends the escape sequence that restores the default attributes.
pub fn push_reset_escape(s: &mut String)
    ensures
        final(s)@ == old(s)@ + reset_escape(),
{
    let ghost s0 = s@;
    push_chars(s, &['\x1b', '[', '0', 'm']);
    assert(s@ =~= s0 + reset_escape());
}

/// Colour components are written as canonical decimal numbers: only digits,
/// no leading zero, and the digits read back to the component.
pub proof fn lemma_decimal_round_trip(n: nat)
    ensures
        decimal_value(decimal(n)) == n,
        forall|i: int| 0 <= i < decimal(n).len() ==> is_digit(#[trigger] decimal(n)[i]),
        decimal(n).len() >= 1,
        decimal(n).len() > 1 ==> decimal(n)[0] != '0',
    decreases n,
{
    lemma_digit_char(n % 10);
    if n >= 10 {
        lemma_decimal_round_trip(n / 10);
        let d = decimal(n / 10);
        assert(decimal(n).drop_last() =~= d);
        assert(decimal(n)[0] == d[0]);
        assert(decimal(n).last() == digit_char(n % 10));
        assert(n == (n / 10) * 10 + n % 10);
        assert(decimal_value(decimal(n)) == decimal_value(d) * 10 + (n % 10));
        if n / 10 < 10 {
            lemma_digit_char(n / 10);
            assert(d =~= seq![digit_char(n / 10)]);
            assert('0' as int == 48);
            assert(d[0] as int != '0' as int);
        } else {
            assert(d.len() == decimal(n / 100).len() + 1);
        }
    } else {
        let s = decimal(n);
        assert(s =~= seq![digit_char(n)]);
        assert(s.drop_last() =~= Seq::<char>::empty());
        assert(decimal_value(s.drop_last()) == 0);
    }
}

/// A colour escape reads `ESC [ 3 8 ; 2 ;` then the red, green and blue
/// components as decimal numbers separated by `;`, then `m`.
pub proof fn lemma_color_escape_fields(c: Rgb)
    ensures
        ({
            let e = color_escape(c);
            let rl = decimal(c.r as nat).len() as int;
            let gl = decimal(c.g as nat).len() as int;
            let bl = decimal(c.b as nat).len() as int;
            let g0 = 7 + rl + 1;
            let b0 = g0 + gl + 1;
            &&& e.len() == b0 + bl + 1
            &&& e.subrange(0, 7) == seq!['\x1b', '[', '3', '8', ';', '2', ';']
            &&& decimal_value(e.subrange(7, 7 + rl)) == c.r
            &&& e[7 + rl] == ';'
            &&& decimal_value(e.subrange(g0, g0 + gl)) == c.g
            &&& e[g0 + gl] == ';'
            &&& decimal_value(e.subrange(b0, b0 + bl)) == c.b
            &&& e[e.len() - 1] == 'm'
        }),
{
    let e = color_escape(c);
    let r = decimal(c.r as nat);
    let g = decimal(c.g as nat);
    let b = decimal(c.b as nat);
    lemma_decimal_round_trip(c.r as nat);
    lemma_decimal_round_trip(c.g as nat);
    lemma_decimal_round_trip(c.b as nat);
    let rl = r.len() as int;
    let gl = g.len() as int;
    let g0 = 7 + rl + 1;
    let b0 = g0 + gl + 1;
    assert(e.subrange(0, 7) =~= seq!['\x1b', '[', '3', '8', ';', '2', ';']);
    assert(e.subrange(7, 7 + rl) =~= r);
    assert(e.subrange(g0, g0 + gl) =~= g);
    assert(e.subrange(b0, b0 + b.len()) =~= b);
}

proof fn lemma_digit_char(d: nat)
    requires
        d < 10,
    ensures
        digit_char(d) as int == 48 + d,
        is_digit(digit_char(d)),
{
    let c = digit_char(d);
    assert(c as int == 48 + d);
}

} // verus!
