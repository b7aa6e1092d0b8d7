//! The name of the file a picture is written to.
use vstd::prelude::*;
use vstd::string::StringExecFns;

verus! {

/// The character of the decimal digit `d`.
pub open spec fn digit_char(d: int) -> char {
    if d == 0 {
        '0'
    } else if d == 1 {
        '1'
    } else if d == 2 {
        '2'
    } else if d == 3 {
        '3'
    } else if d == 4 {
        '4'
    } else if d == 5 {
        '5'
    } else if d == 6 {
        '6'
    } else if d == 7 {
        '7'
    } else if d == 8 {
        '8'
    } else {
        '9'
    }
}

/// The decimal numeral of `n`, without a sign and without leading zeros.
pub open spec fn decimal(n: nat) -> Seq<char>
    decreases n,
{
    if n < 10 {
        seq![digit_char(n as int)]
    } else {
        decimal(n / 10).push(digit_char((n % 10) as int))
    }
}

/// The file name of the picture of side `size` drawn with a sweep of
/// half-width `samples`: `mandel-<size>-<samples>.png`.
pub open spec fn picture_name(size: nat, samples: nat) -> Seq<char> {
    seq!['m', 'a', 'n', 'd', 'e', 'l', '-'] + decimal(size) + seq!['-'] + decimal(samples)
        + seq!['.', 'p', 'n', 'g']
}

fn digit_str(d: u64) -> (s: &'static str)
    requires
        d < 10,
    ensures
        s@ == seq![digit_char(d as int)],
{
    proof {
        reveal_strlit("0");
        reveal_strlit("1");
        reveal_strlit("2");
        reveal_strlit("3");
        reveal_strlit("4");
        reveal_strlit("5");
        reveal_strlit("6");
        reveal_strlit("7");
        reveal_strlit("8");
        reveal_strlit("9");
    }
    let s = if d == 0 {
        "0"
    } else if d == 1 {
        "1"
    } else if d == 2 {
        "2"
    } else if d == 3 {
        "3"
    } else if d == 4 {
        "4"
    } else if d == 5 {
        "5"
    } else if d == 6 {
        "6"
    } else if d == 7 {
        "7"
    } else if d == 8 {
        "8"
    } else {
        "9"
    };
    assert(s@ =~= seq![digit_char(d as int)]);
    s
}

fn append_decimal(out: &mut String, n: u64)
    ensures
        final(out)@ == old(out)@ + decimal(n as nat),
    decreases n,
{
    if n >= 10 {
        append_decimal(out, n / 10);
    }
    out.append(digit_str(n % 10));
    assert(final(out)@ =~= old(out)@ + decimal(n as nat));
}

/// The name of the file that holds the picture of side `size` drawn with a
/// sweep of half-width `samples`.
pub fn output_file_name(size: u32, samples: u64) -> (name: String)
    ensures
        name@ == picture_name(size as nat, samples as nat),
{
    proof {
        reveal_strlit("mandel-");
        reveal_strlit("-");
        reveal_strlit(".png");
    }
    let mut name = String::from_str("mandel-");
    assert(name@ =~= seq!['m', 'a', 'n', 'd', 'e', 'l', '-']);
    append_decimal(&mut name, size as u64);
    name.append("-");
    append_decimal(&mut name, samples);
    name.append(".png");
    assert(name@ =~= picture_name(size as nat, samples as nat));
    name
}

} // verus!
