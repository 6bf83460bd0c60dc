//! Numbers written out, as the error texts and the origin addresses need them.

use vstd::arithmetic::div_mod::{
    lemma_div_decreases, lemma_div_pos_is_pos, lemma_fundamental_div_mod, lemma_mod_bound,
};
use vstd::prelude::*;
use vstd::string::StringExecFns;

verus! {

/// The character of the digit `d`: `0` to `9`, then `a` to `f`.
pub open spec fn digit(d: nat) -> char {
    if d < 10 {
        (48 + d) as char
    } else {
        (87 + d) as char
    }
}

/// `n` written in `base` without leading zeros; zero is one digit.
pub open spec fn numeral(n: nat, base: nat) -> Seq<char>
    decreases n,
{
    if base < 2 || n < base {
        seq![digit(n)]
    } else {
        proof {
            lemma_div_decreases(n as int, base as int);
            lemma_div_pos_is_pos(n as int, base as int);
        }
        numeral(n / base, base).push(digit(n % base))
    }
}

/// Two numbers that are written alike in a base of up to sixteen are one number.
pub proof fn numeral_is_injective(n: nat, m: nat, base: nat)
    requires
        2 <= base <= 16,
        numeral(n, base) == numeral(m, base),
    ensures
        n == m,
    decreases n,
{
    numeral_is_not_empty(n / base, base);
    numeral_is_not_empty(m / base, base);
    lemma_mod_bound(n as int, base as int);
    lemma_mod_bound(m as int, base as int);
    lemma_fundamental_div_mod(n as int, base as int);
    lemma_fundamental_div_mod(m as int, base as int);
    if n < base && m < base {
        assert(numeral(n, base)[0] == digit(n));
        assert(numeral(m, base)[0] == digit(m));
    } else if n >= base && m >= base {
        lemma_div_decreases(n as int, base as int);
        lemma_div_pos_is_pos(n as int, base as int);
        assert(numeral(n, base).drop_last() =~= numeral(n / base, base));
        assert(numeral(m, base).drop_last() =~= numeral(m / base, base));
        assert(numeral(n, base).last() == digit(n % base));
        assert(numeral(m, base).last() == digit(m % base));
        numeral_is_injective(n / base, m / base, base);
    } else if n >= base {
        assert(numeral(n, base).len() == numeral(n / base, base).len() + 1);
        assert(numeral(m, base).len() == 1);
    } else {
        assert(numeral(n, base).len() == 1);
        assert(numeral(m, base).len() == numeral(m / base, base).len() + 1);
    }
}

proof fn numeral_is_not_empty(n: nat, base: nat)
    ensures
        numeral(n, base).len() > 0,
{
}

/// What the character `c` counts as a digit: `0` to `9` as themselves, `a` to
/// `f` as ten to fifteen.
pub open spec fn digit_value(c: char) -> int {
    if '0' <= c <= '9' {
        c as int - '0' as int
    } else if 'a' <= c <= 'f' {
        c as int - 'a' as int + 10
    } else {
        -1
    }
}

/// The number that `text` is, read in `base` from the left.
pub open spec fn read_as(text: Seq<char>, base: nat) -> int
    decreases text.len(),
{
    if text.len() == 0 {
        0
    } else {
        read_as(text.drop_last(), base) * base + digit_value(text.last())
    }
}

/// A number that is written out reads back as that number, for every base of up
/// to sixteen. It is written with at least one digit, with digits of the base
/// alone, and without a leading zero but where it is zero itself.
pub proof fn numerals_read_back(n: nat, base: nat)
    requires
        2 <= base <= 16,
    ensures
        ({
            let text: Seq<char> = numeral(n, base);
            &&& read_as(text, base) == n
            &&& text.len() > 0
            &&& forall|i: int|
                0 <= i < text.len() ==> 0 <= digit_value(#[trigger] text[i]) < base
            &&& text[0] == '0' ==> n == 0
            &&& n == 0 ==> text == seq!['0']
        }),
    decreases n,
{
    let text: Seq<char> = numeral(n, base);
    if n < base {
        assert(text.drop_last() =~= Seq::<char>::empty());
        assert(read_as(text.drop_last(), base) == 0);
    } else {
        lemma_div_decreases(n as int, base as int);
        lemma_div_pos_is_pos(n as int, base as int);
        lemma_mod_bound(n as int, base as int);
        lemma_fundamental_div_mod(n as int, base as int);
        numerals_read_back(n / base, base);
        assert(text.drop_last() =~= numeral(n / base, base));
        assert(text.last() == digit(n % base));
        assert((n / base) * base == base * (n / base)) by (nonlinear_arith);
        assert forall|i: int| 0 <= i < text.len() implies 0 <= digit_value(#[trigger] text[i])
            < base by {
            if i < text.len() - 1 {
                assert(text[i] == numeral(n / base, base)[i]);
            }
        }
        assert(text[0] == numeral(n / base, base)[0]);
        assert(n / base > 0) by (nonlinear_arith)
            requires
                n >= base,
                base >= 2,
        ;
    }
}

/// The text of one digit.
fn digit_text(d: u64) -> (text: &'static str)
    requires
        d < 16,
    ensures
        text@ == seq![digit(d as nat)],
{
    proof {
        reveal_strlit("0");
        reveal_strlit("1");
        reveal_strlit("2");
        reveal_strlit("3");
        reveal_strlit("4");
        reveal_strlit("5");
        reveal_strlit("6");
        reveal_strlit("7");
        reveal_strlit("8");
        reveal_strlit("9");
        reveal_strlit("a");
        reveal_strlit("b");
        reveal_strlit("c");
        reveal_strlit("d");
        reveal_strlit("e");
        reveal_strlit("f");
    }
    match d {
        0 => "0",
        1 => "1",
        2 => "2",
        3 => "3",
        4 => "4",
        5 => "5",
        6 => "6",
        7 => "7",
        8 => "8",
        9 => "9",
        10 => "a",
        11 => "b",
        12 => "c",
        13 => "d",
        14 => "e",
        _ => "f",
    }
}

/// `n` written in `base`.
pub fn write_numeral(n: u64, base: u64) -> (text: String)
    requires
        2 <= base <= 16,
    ensures
        text@ == numeral(n as nat, base as nat),
    decreases n,
{
    let mut text: String = String::new();
    if n < base {
        text.append(digit_text(n));
    } else {
        proof {
            lemma_div_decreases(n as int, base as int);
            lemma_div_pos_is_pos(n as int, base as int);
            lemma_mod_bound(n as int, base as int);
        }
        text = write_numeral(n / base, base);
        text.append(digit_text(n % base));
    }
    text
}

} // verus!
