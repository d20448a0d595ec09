//! Display text for an amount of money: a minus sign for debt, a dollar
//! sign, and whole dollars in groups of three digits separated by commas.

use vstd::prelude::*;

verus! {

/// The character of the decimal digit `d`.
pub open spec fn digit_char(d: int) -> char {
    ('0' as int + d) as char
}

/// The decimal digits of `n`, without leading zeros.
pub open spec fn decimal(n: nat) -> Seq<char>
    decreases n,
{
    if n < 10 {
        seq![digit_char(n as int)]
    } else {
        decimal(n / 10).push(digit_char((n % 10) as int))
    }
}

/// The three decimal digits of `n < 1000`, with leading zeros.
pub open spec fn three_digits(n: nat) -> Seq<char> {
    seq![digit_char((n / 100) as int), digit_char((n / 10 % 10) as int), digit_char((n % 10) as int)]
}

/// The decimal digits of `n` in comma-separated groups of three.
pub open spec fn grouped(n: nat) -> Seq<char>
    decreases n,
{
    if n < 1000 {
        decimal(n)
    } else {
        grouped(n / 1000) + seq![','] + three_digits(n % 1000)
    }
}

/// The text of `cents`: a minus sign when negative, a dollar sign, then the
/// whole dollars of its magnitude (cents are dropped) in groups of three.
pub open spec fn money_text(cents: int) -> Seq<char> {
    let sign = if cents < 0 { seq!['-'] } else { Seq::<char>::empty() };
    let magnitude: nat = (if cents < 0 { -cents } else { cents }) as nat;
    sign + seq!['$'] + grouped(magnitude / 100)
}

/// A comma stands exactly at each position but the first that lies a
/// multiple of four characters from the end of `s`.
pub open spec fn comma_positions_ok(s: Seq<char>) -> bool {
    forall|i: int| 0 <= i < s.len() ==> ((#[trigger] s[i] == ',') <==> (i > 0 && (s.len() - i) % 4 == 0))
}

/// Not a comma.
pub open spec fn not_comma(c: char) -> bool {
    c != ','
}

/// The decimal digits of `n` are one to three characters long when
/// `n < 1000`, and none of them is a comma.
pub proof fn lemma_decimal_shape(n: nat)
    ensures
        decimal(n).len() >= 1,
        n < 10 ==> decimal(n).len() == 1,
        n < 100 ==> decimal(n).len() <= 2,
        n < 1000 ==> decimal(n).len() <= 3,
        forall|i: int| 0 <= i < decimal(n).len() ==> #[trigger] decimal(n)[i] != ',',
        n < 1000 ==> comma_positions_ok(decimal(n)),
        decimal(n).filter(|c: char| not_comma(c)) == decimal(n),
    decreases n,
{
    reveal(Seq::filter);
    if n < 10 {
        let s = decimal(n);
        assert(s.drop_last() =~= Seq::<char>::empty());
        assert(s.drop_last().filter(|c: char| not_comma(c)) =~= Seq::<char>::empty());
        assert(s.filter(|c: char| not_comma(c)) =~= s);
    } else {
        lemma_decimal_shape(n / 10);
        let s = decimal(n);
        assert(s.drop_last() =~= decimal(n / 10));
        assert(s.filter(|c: char| not_comma(c)) =~= s);
    }
}

/// For `n >= 1000` the decimal digits of `n` are those of `n / 1000`
/// followed by the three digits of `n % 1000`.
pub proof fn lemma_decimal_split(n: nat)
    requires
        n >= 1000,
    ensures
        decimal(n) == decimal(n / 1000) + three_digits(n % 1000),
{
    let a = n / 10;
    let b = n / 100;
    let c = n / 1000;
    assert(a / 10 == b);
    assert(b / 10 == c);
    assert(a >= 100 && b >= 10);
    assert((n % 1000) / 100 == b % 10);
    assert((n % 1000) / 10 % 10 == a % 10);
    assert((n % 1000) % 10 == n % 10);
    assert(decimal(n) == decimal(a).push(digit_char((n % 10) as int)));
    assert(decimal(a) == decimal(b).push(digit_char((a % 10) as int)));
    assert(decimal(b) == decimal(c).push(digit_char((b % 10) as int)));
    assert(decimal(n) =~= decimal(c) + three_digits(n % 1000));
}

fn digit_str(d: u64) -> (s: &'static str)
    requires
        d < 10,
    ensures
        s@ == seq![digit_char(d as int)],
{
    proof {
        reveal_strlit("0");
        reveal_strlit("1");
        reveal_strlit("2");
        reveal_strlit("3");
        reveal_strlit("4");
        reveal_strlit("5");
        reveal_strlit("6");
        reveal_strlit("7");
        reveal_strlit("8");
        reveal_strlit("9");
    }
    match d {
        0 => "0",
        1 => "1",
        2 => "2",
        3 => "3",
        4 => "4",
        5 => "5",
        6 => "6",
        7 => "7",
        8 => "8",
        _ => "9",
    }
}

fn push_decimal(out: &mut String, n: u64)
    ensures
        final(out)@ == old(out)@ + decimal(n as nat),
    decreases n,
{
    if n < 10 {
        out.append(digit_str(n));
    } else {
        push_decimal(out, n / 10);
        out.append(digit_str(n % 10));
    }
}

fn push_grouped(out: &mut String, n: u64)
    ensures
        final(out)@ == old(out)@ + grouped(n as nat),
    decreases n,
{
    if n < 1000 {
        push_decimal(out, n);
    } else {
        push_grouped(out, n / 1000);
        proof {
            reveal_strlit(",");
        }
        out.append(",");
        let g = n % 1000;
        out.append(digit_str(g / 100));
        out.append(digit_str(g / 10 % 10));
        out.append(digit_str(g % 10));
    }
}

/// Formats an amount in cents as whole dollars, e.g. `-$1,234`.
pub fn format_money(cents: i64) -> (s: String)
    ensures
        s@ == money_text(cents as int),
{
    let mut s = String::new();
    proof {
        reveal_strlit("-");
        reveal_strlit("$");
    }
    if cents < 0 {
        s.append("-");
    }
    s.append("$");
    let magnitude: u64 = if cents < 0 {
        (-(cents as i128)) as u64
    } else {
        cents as u64
    };
    push_grouped(&mut s, magnitude / 100);
    s
}

} // verus!
