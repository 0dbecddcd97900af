//! The names under which bound values are registered.
//!
//! The value registered as number `n` is written into the statement as
//! `:param` followed by `n` in decimal, without sign, padding or separators.

use vstd::prelude::*;

verus! {

/// `String::push` appends one character and changes nothing else.
pub assume_specification[ String::push ](s: &mut String, ch: char)
    ensures
        final(s)@ == old(s)@.push(ch),
;

/// The character that stands for the digit `d`.
pub open spec fn digit_char(d: nat) -> char
    recommends
        d < 10,
{
    if d == 0 {
        '0'
    } else if d == 1 {
        '1'
    } else if d == 2 {
        '2'
    } else if d == 3 {
        '3'
    } else if d == 4 {
        '4'
    } else if d == 5 {
        '5'
    } else if d == 6 {
        '6'
    } else if d == 7 {
        '7'
    } else if d == 8 {
        '8'
    } else {
        '9'
    }
}

/// The digit that `c` stands for; 10 where it stands for none.
pub open spec fn digit_value(c: char) -> nat {
    if c == '0' {
        0
    } else if c == '1' {
        1
    } else if c == '2' {
        2
    } else if c == '3' {
        3
    } else if c == '4' {
        4
    } else if c == '5' {
        5
    } else if c == '6' {
        6
    } else if c == '7' {
        7
    } else if c == '8' {
        8
    } else if c == '9' {
        9
    } else {
        10
    }
}

/// `n` in decimal, most significant digit first.
pub open spec fn decimal(n: nat) -> Seq<char>
    decreases n,
{
    if n < 10 {
        seq![digit_char(n)]
    } else {
        decimal(n / 10).push(digit_char(n % 10))
    }
}

/// The number that a run of decimal digits denotes.
pub open spec fn decimal_value(s: Seq<char>) -> nat
    decreases s.len(),
{
    if s.len() == 0 {
        0
    } else {
        decimal_value(s.drop_last()) * 10 + digit_value(s.last())
    }
}

/// The name of the placeholder with number `n`.
pub open spec fn placeholder_name(n: nat) -> Seq<char> {
    ":param"@ + decimal(n)
}

/// The marker that stands for every placeholder in positional text.
pub open spec fn positional_marker() -> Seq<char> {
    "?"@
}

/// Reading a number back from its decimal form gives the number.
pub proof fn lemma_decimal_value(n: nat)
    ensures
        decimal_value(decimal(n)) == n,
        decimal(n).len() >= 1,
    decreases n,
{
    if n < 10 {
        let s = decimal(n);
        assert(s.drop_last() =~= Seq::<char>::empty());
        assert(decimal_value(s.drop_last()) == 0);
        assert(s.last() == digit_char(n));
    } else {
        lemma_decimal_value(n / 10);
        let s = decimal(n);
        assert(s.drop_last() =~= decimal(n / 10));
        assert(s.last() == digit_char(n % 10));
    }
}

/// Two numbers with the same decimal form are the same number.
pub proof fn lemma_decimal_injective(a: nat, b: nat)
    requires
        decimal(a) == decimal(b),
    ensures
        a == b,
{
    lemma_decimal_value(a);
    lemma_decimal_value(b);
}

/// Placeholder names are unique: two placeholders share a name only if they
/// share a number.
pub proof fn lemma_placeholder_name_injective(a: nat, b: nat)
    requires
        placeholder_name(a) == placeholder_name(b),
    ensures
        a == b,
{
    let p = ":param"@;
    let k = p.len() as int;
    assert(placeholder_name(a).subrange(k, placeholder_name(a).len() as int) =~= decimal(a));
    assert(placeholder_name(b).subrange(k, placeholder_name(b).len() as int) =~= decimal(b));
    lemma_decimal_injective(a, b);
}

/// Whether `c` is a decimal digit.
pub open spec fn is_digit(c: char) -> bool {
    digit_value(c) < 10
}

/// A decimal form holds digits only.
pub proof fn lemma_decimal_digits(n: nat, i: int)
    requires
        0 <= i < decimal(n).len(),
    ensures
        digit_value(decimal(n)[i]) < 10,
    decreases n,
{
    if n >= 10 {
        if i < decimal(n / 10).len() {
            lemma_decimal_digits(n / 10, i);
        }
    }
}

/// A placeholder's name starts with a colon and holds no other.
pub proof fn lemma_placeholder_name_colon(n: nat, i: int)
    requires
        0 <= i < placeholder_name(n).len(),
    ensures
        placeholder_name(n)[i] == ':' <==> i == 0,
{
    reveal_strlit(":param");
    if i >= 6 {
        lemma_decimal_digits(n, i - 6);
    }
}

/// A placeholder's name is `:param` and at least one digit, and nothing but
/// digits after `:param`.
pub proof fn lemma_placeholder_name_shape(n: nat)
    ensures
        placeholder_name(n).len() == 6 + decimal(n).len(),
        decimal(n).len() >= 1,
        forall|i: int| 6 <= i < placeholder_name(n).len() ==> is_digit(placeholder_name(n)[i]),
{
    reveal_strlit(":param");
    lemma_decimal_value(n);
    assert forall|i: int| 6 <= i < placeholder_name(n).len() implies is_digit(
        placeholder_name(n)[i],
    ) by {
        lemma_decimal_digits(n, i - 6);
    }
}

/// The character for one decimal digit.
fn digit(d: usize) -> (c: char)
    requires
        d < 10,
    ensures
        c == digit_char(d as nat),
{
    if d == 0 {
        '0'
    } else if d == 1 {
        '1'
    } else if d == 2 {
        '2'
    } else if d == 3 {
        '3'
    } else if d == 4 {
        '4'
    } else if d == 5 {
        '5'
    } else if d == 6 {
        '6'
    } else if d == 7 {
        '7'
    } else if d == 8 {
        '8'
    } else {
        '9'
    }
}

/// Appends `n` in decimal to `out`.
pub fn push_decimal(out: &mut String, n: usize)
    ensures
        final(out)@ == old(out)@ + decimal(n as nat),
    decreases n,
{
    if n < 10 {
        out.push(digit(n));
        assert(old(out)@.push(digit_char(n as nat)) =~= old(out)@ + decimal(n as nat));
    } else {
        push_decimal(out, n / 10);
        out.push(digit(n % 10));
        assert((old(out)@ + decimal((n / 10) as nat)).push(digit_char((n % 10) as nat)) =~= old(
            out,
        )@ + decimal(n as nat));
    }
}

/// Appends the name of placeholder `n` to `out`.
pub fn push_placeholder(out: &mut String, n: usize)
    ensures
        final(out)@ == old(out)@ + placeholder_name(n as nat),
{
    out.append(":param");
    push_decimal(out, n);
    assert((old(out)@ + ":param"@) + decimal(n as nat) =~= old(out)@ + placeholder_name(n as nat));
}

} // verus!
