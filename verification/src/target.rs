//! The stable key under which the render target of a chunk is known: the
//! word `canvas`, a hyphen, and the chunk's index in decimal.

use vstd::prelude::*;
use vstd::string::StringExecFns;

verus! {

/// The character of the decimal digit `d`.
pub open spec fn digit_char(d: int) -> char {
    seq!['0', '1', '2', '3', '4', '5', '6', '7', '8', '9'][d]
}

/// The decimal numeral of `n`, most significant digit first, without leading
/// zeros.
pub open spec fn decimal(n: nat) -> Seq<char>
    decreases n,
{
    if n < 10 {
        seq![digit_char(n as int)]
    } else {
        decimal(n / 10).push(digit_char((n % 10) as int))
    }
}

/// The key of the render target of chunk `index`.
pub open spec fn target_key_spec(index: nat) -> Seq<char> {
    "canvas-"@ + decimal(index)
}

fn digit_str(d: usize) -> (s: &'static str)
    requires
        d < 10,
    ensures
        s@ == seq![digit_char(d as int)],
{
    proof {
        reveal_strlit("0");
        reveal_strlit("1");
        reveal_strlit("2");
        reveal_strlit("3");
        reveal_strlit("4");
        reveal_strlit("5");
        reveal_strlit("6");
        reveal_strlit("7");
        reveal_strlit("8");
        reveal_strlit("9");
    }
    let s = match d {
        0 => "0",
        1 => "1",
        2 => "2",
        3 => "3",
        4 => "4",
        5 => "5",
        6 => "6",
        7 => "7",
        8 => "8",
        _ => "9",
    };
    assert(s@ =~= seq![digit_char(d as int)]);
    s
}

fn push_decimal(text: &mut String, n: usize)
    ensures
        final(text)@ == old(text)@ + decimal(n as nat),
    decreases n,
{
    if n >= 10 {
        push_decimal(text, n / 10);
    }
    text.append(digit_str(n % 10));
    proof {
        if n >= 10 {
            assert(old(text)@ + decimal((n / 10) as nat) + seq![digit_char((n % 10) as int)]
                =~= old(text)@ + decimal((n / 10) as nat).push(digit_char((n % 10) as int)));
        }
    }
}

/// The key of the render target of chunk `index`: `canvas-0`, `canvas-1`, ...
pub fn target_key(index: usize) -> (key: String)
    ensures
        key@ == target_key_spec(index as nat),
{
    let mut key = String::from_str("canvas-");
    push_decimal(&mut key, index);
    key
}

/// Different chunks have different keys.
pub proof fn lemma_target_keys_distinct(i: nat, j: nat)
    requires
        i != j,
    ensures
        target_key_spec(i) != target_key_spec(j),
{
    lemma_decimal_injective(i, j);
    let prefix = "canvas-"@;
    if target_key_spec(i) == target_key_spec(j) {
        assert(decimal(i) =~= (prefix + decimal(i)).subrange(
            prefix.len() as int,
            (prefix + decimal(i)).len() as int,
        ));
        assert(decimal(j) =~= (prefix + decimal(j)).subrange(
            prefix.len() as int,
            (prefix + decimal(j)).len() as int,
        ));
    }
}

proof fn lemma_digit_chars_distinct(a: int, b: int)
    requires
        0 <= a < 10,
        0 <= b < 10,
        a != b,
    ensures
        digit_char(a) != digit_char(b),
{
}

proof fn lemma_decimal_nonempty(n: nat)
    ensures
        decimal(n).len() >= 1,
    decreases n,
{
    if n >= 10 {
        lemma_decimal_nonempty(n / 10);
    }
}

proof fn lemma_decimal_injective(i: nat, j: nat)
    requires
        i != j,
    ensures
        decimal(i) != decimal(j),
    decreases i + j,
{
    if decimal(i) == decimal(j) {
        lemma_decimal_nonempty(i / 10);
        lemma_decimal_nonempty(j / 10);
        if i < 10 && j < 10 {
            assert(decimal(i)[0] == digit_char(i as int));
            assert(decimal(j)[0] == digit_char(j as int));
            lemma_digit_chars_distinct(i as int, j as int);
        } else if i >= 10 && j >= 10 {
            let a = decimal(i / 10);
            let b = decimal(j / 10);
            let x = digit_char((i % 10) as int);
            let y = digit_char((j % 10) as int);
            assert(a.push(x).last() == x);
            assert(b.push(y).last() == y);
            assert(a.push(x).drop_last() =~= a);
            assert(b.push(y).drop_last() =~= b);
            if i % 10 != j % 10 {
                lemma_digit_chars_distinct((i % 10) as int, (j % 10) as int);
            } else {
                lemma_decimal_injective(i / 10, j / 10);
            }
        } else if i < 10 {
            assert(decimal(j).len() == decimal(j / 10).len() + 1);
        } else {
            assert(decimal(i).len() == decimal(i / 10).len() + 1);
        }
    }
}

} // verus!
