//! Text for messages.

use vstd::prelude::*;

verus! {

/// The character for a decimal digit.
pub open spec fn digit_char(d: nat) -> char
    recommends
        d < 10,
{
    (('0' as nat) + d) as char
}

/// A number in decimal, without leading zeros.
pub open spec fn decimal(n: nat) -> Seq<char>
    decreases n,
{
    if n < 10 {
        seq![digit_char(n)]
    } else {
        decimal(n / 10).push(digit_char(n % 10))
    }
}

fn digit_str(d: u32) -> (s: &'static str)
    requires
        d < 10,
    ensures
        s@ == seq![digit_char(d as nat)],
{
    proof {
        reveal_strlit("0");
        reveal_strlit("1");
        reveal_strlit("2");
        reveal_strlit("3");
        reveal_strlit("4");
        reveal_strlit("5");
        reveal_strlit("6");
        reveal_strlit("7");
        reveal_strlit("8");
        reveal_strlit("9");
    }
    match d {
        0 => "0",
        1 => "1",
        2 => "2",
        3 => "3",
        4 => "4",
        5 => "5",
        6 => "6",
        7 => "7",
        8 => "8",
        _ => "9",
    }
}

/// Appends a number in decimal.
pub(crate) fn push_decimal(text: &mut String, n: u32)
    ensures
        final(text)@ == old(text)@ + decimal(n as nat),
    decreases n,
{
    if n < 10 {
        text.append(digit_str(n));
    } else {
        push_decimal(text, n / 10);
        text.append(digit_str(n % 10));
    }
}

/// Two texts, one after the other.
pub(crate) fn join2(a: &str, b: &str) -> (text: String)
    ensures
        text@ == a@ + b@,
{
    let mut text = a.to_owned();
    text.append(b);
    text
}

/// Three texts, one after the other.
pub(crate) fn join3(a: &str, b: &str, c: &str) -> (text: String)
    ensures
        text@ == a@ + b@ + c@,
{
    let mut text = join2(a, b);
    text.append(c);
    text
}

/// The number that a row of decimal digits stands for.
pub open spec fn number_read(digits: Seq<char>) -> int
    decreases digits.len(),
{
    if digits.len() == 0 {
        0
    } else {
        10 * number_read(digits.drop_last()) + (digits.last() as int - '0' as int)
    }
}

/// A number in decimal reads back as the number: it is made of digits alone, and
/// does not begin with a zero, unless it is zero.
pub proof fn law_decimal_reads_back(n: nat)
    ensures
        number_read(decimal(n)) == n,
        decimal(n).len() > 0,
        forall|i: int| 0 <= i < decimal(n).len() ==> '0' <= #[trigger] decimal(n)[i] <= '9',
        n > 0 ==> decimal(n)[0] != '0',
    decreases n,
{
    if n < 10 {
        reveal_with_fuel(number_read, 2);
        assert(seq![digit_char(n)].drop_last() =~= Seq::<char>::empty());
    } else {
        law_decimal_reads_back(n / 10);
        assert(decimal(n).drop_last() =~= decimal(n / 10));
        assert(decimal(n)[0] == decimal(n / 10)[0]);
    }
}

/// What is appended to a text stands behind what was there, and texts that are
/// joined stand one behind the other.
pub(crate) proof fn law_texts_stand_in_order(
    text: &mut String,
    n: u32,
    a: &str,
    b: &str,
    c: &str,
    two: String,
    three: String,
)
    requires
        call_ensures(push_decimal, (text, n), ()),
        call_ensures(join2, (a, b), two),
        call_ensures(join3, (a, b, c), three),
    ensures
        final(text)@.take(old(text)@.len() as int) == old(text)@,
        number_read(final(text)@.skip(old(text)@.len() as int)) == n,
        two@.len() == a@.len() + b@.len(),
        two@.take(a@.len() as int) == a@,
        two@.skip(a@.len() as int) == b@,
        three@ == a@ + (b@ + c@),
{
    law_decimal_reads_back(n as nat);
    assert(final(text)@.skip(old(text)@.len() as int) =~= decimal(n as nat));
    assert(three@ =~= a@ + (b@ + c@));
}

} // verus!
