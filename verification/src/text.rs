use vstd::prelude::*;

verus! {

/// The decimal digit of `d`, which is less than ten.
pub open spec fn digit(d: nat) -> char {
    if d == 0 {
        '0'
    } else if d == 1 {
        '1'
    } else if d == 2 {
        '2'
    } else if d == 3 {
        '3'
    } else if d == 4 {
        '4'
    } else if d == 5 {
        '5'
    } else if d == 6 {
        '6'
    } else if d == 7 {
        '7'
    } else if d == 8 {
        '8'
    } else {
        '9'
    }
}

/// `n` in decimal notation, without leading zeros.
pub open spec fn decimal(n: nat) -> Seq<char>
    decreases n,
{
    if n < 10 {
        seq![digit(n)]
    } else {
        decimal(n / 10).push(digit(n % 10))
    }
}

/// What is said of a pool of which not all blocks are available.
pub open spec fn reset_refusal(total: nat, available: nat) -> Seq<char> {
    "total blocks: "@ + decimal(total) + ", available blocks: "@ + decimal(available)
}

fn digit_text(d: u64) -> (text: &'static str)
    requires
        d < 10,
    ensures
        text@ == seq![digit(d as nat)],
{
    proof {
        reveal_strlit("0");
        reveal_strlit("1");
        reveal_strlit("2");
        reveal_strlit("3");
        reveal_strlit("4");
        reveal_strlit("5");
        reveal_strlit("6");
        reveal_strlit("7");
        reveal_strlit("8");
        reveal_strlit("9");
    }
    if d == 0 {
        "0"
    } else if d == 1 {
        "1"
    } else if d == 2 {
        "2"
    } else if d == 3 {
        "3"
    } else if d == 4 {
        "4"
    } else if d == 5 {
        "5"
    } else if d == 6 {
        "6"
    } else if d == 7 {
        "7"
    } else if d == 8 {
        "8"
    } else {
        "9"
    }
}

/// Writes `n` in decimal notation.
pub fn decimal_text(n: u64) -> (text: String)
    ensures
        text@ == decimal(n as nat),
    decreases n,
{
    let mut text = if n < 10 {
        String::new()
    } else {
        decimal_text(n / 10)
    };
    text.append(digit_text(n % 10));
    assert(text@ =~= decimal(n as nat));
    text
}

/// Writes that not all blocks of a pool are available.
pub fn reset_refusal_text(total: u64, available: u64) -> (text: String)
    ensures
        text@ == reset_refusal(total as nat, available as nat),
{
    let mut text = String::new();
    text.append("total blocks: ");
    text.append(decimal_text(total).as_str());
    text.append(", available blocks: ");
    text.append(decimal_text(available).as_str());
    assert(text@ =~= reset_refusal(total as nat, available as nat));
    text
}

/// The number that `text` denotes, read digit by digit.
pub open spec fn numeral(text: Seq<char>) -> int
    decreases text.len(),
{
    if text.len() == 0 {
        0
    } else {
        10 * numeral(text.drop_last()) + (text.last() as int - '0' as int)
    }
}

/// A number is written with decimal digits alone and without a leading zero, and reading what
/// was written gives the number back.
pub proof fn law_decimal_reads_back(n: nat)
    ensures
        numeral(decimal(n)) == n,
        decimal(n).len() > 0,
        decimal(n).len() > 1 ==> decimal(n)[0] != '0',
        forall|i: int|
            0 <= i < decimal(n).len() ==> '0' as int <= (#[trigger] decimal(n)[i]) as int
                <= '9' as int,
    decreases n,
{
    reveal_with_fuel(numeral, 2);
    if n >= 10 {
        law_decimal_reads_back(n / 10);
        assert(decimal(n).drop_last() =~= decimal(n / 10));
        if n / 10 < 10 {
            assert(decimal(n)[0] == digit(n / 10));
        } else {
            assert(decimal(n)[0] == decimal(n / 10)[0]);
        }
    }
}

/// A refusal names the total and the number of available blocks, in this order, and both can
/// be read back.
pub proof fn law_refusal_names_both_numbers(total: nat, available: nat)
    ensures
        exists|first: Seq<char>, second: Seq<char>|
            {
                &&& reset_refusal(total, available) == #[trigger] ("total blocks: "@ + first)
                    + ", available blocks: "@ + second
                &&& numeral(first) == total
                &&& #[trigger] numeral(second) == available
            },
{
    law_decimal_reads_back(total);
    law_decimal_reads_back(available);
    assert(reset_refusal(total, available) == ("total blocks: "@ + decimal(total))
        + ", available blocks: "@ + decimal(available));
}

} // verus!
