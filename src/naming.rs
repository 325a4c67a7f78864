//! Splitting an entry name into a textual base and a trailing number.
use vstd::prelude::*;

verus! {

/// An ASCII decimal digit.
pub open spec fn is_digit(c: char) -> bool {
    '0' <= c && c <= '9'
}

/// The value of one ASCII decimal digit.
pub open spec fn digit_value(c: char) -> nat {
    (c as int - '0' as int) as nat
}

/// Where the maximal trailing run of ASCII digits of `s` begins.
pub open spec fn digit_run_start(s: Seq<char>) -> nat
    decreases s.len(),
{
    if s.len() == 0 {
        0
    } else if is_digit(s.last()) {
        digit_run_start(s.drop_last())
    } else {
        s.len()
    }
}

/// The number that a run of decimal digits reads as.
pub open spec fn digits_value(s: Seq<char>) -> nat
    decreases s.len(),
{
    if s.len() == 0 {
        0
    } else {
        digits_value(s.drop_last()) * 10 + digit_value(s.last())
    }
}

/// The part of a name before its trailing digit run.
pub open spec fn name_base(s: Seq<char>) -> Seq<char> {
    s.subrange(0, digit_run_start(s) as int)
}

/// The trailing digit run of a name, as written.
pub open spec fn name_digits(s: Seq<char>) -> Seq<char> {
    s.subrange(digit_run_start(s) as int, s.len() as int)
}

/// The trailing number of a name: the digit run read as a `u32`, and 0 where
/// there is no run or it does not fit.
pub open spec fn name_suffix(s: Seq<char>) -> u32 {
    let v = digits_value(name_digits(s));
    if v <= u32::MAX {
        v as u32
    } else {
        0
    }
}

/// The ASCII digit for a value below ten.
pub open spec fn digit_char(d: nat) -> char {
    if d == 0 {
        '0'
    } else if d == 1 {
        '1'
    } else if d == 2 {
        '2'
    } else if d == 3 {
        '3'
    } else if d == 4 {
        '4'
    } else if d == 5 {
        '5'
    } else if d == 6 {
        '6'
    } else if d == 7 {
        '7'
    } else if d == 8 {
        '8'
    } else {
        '9'
    }
}

/// The decimal text of `n`, without leading zeros.
pub open spec fn decimal(n: nat) -> Seq<char>
    decreases n,
{
    if n < 10 {
        seq![digit_char(n)]
    } else {
        decimal(n / 10).push(digit_char(n % 10))
    }
}

proof fn lemma_digit_char(d: nat)
    requires
        d < 10,
    ensures
        is_digit(digit_char(d)),
        digit_value(digit_char(d)) == d,
{
}

/// The decimal text of a number is a non-empty run of digits that reads back
/// as that number.
pub proof fn lemma_decimal_reads_back(n: nat)
    ensures
        decimal(n).len() >= 1,
        forall|i: int| 0 <= i < decimal(n).len() ==> is_digit(#[trigger] decimal(n)[i]),
        digits_value(decimal(n)) == n,
    decreases n,
{
    if n < 10 {
        lemma_digit_char(n);
        assert(seq![digit_char(n)].drop_last() =~= Seq::<char>::empty());
        assert(digits_value(Seq::<char>::empty()) == 0);
    } else {
        lemma_decimal_reads_back(n / 10);
        lemma_digit_char(n % 10);
        assert(decimal(n).drop_last() =~= decimal(n / 10));
        assert(decimal(n).last() == digit_char(n % 10));
        assert(n == (n / 10) * 10 + n % 10) by (nonlinear_arith);
    }
}

proof fn lemma_run_start_after_base(b: Seq<char>, d: Seq<char>)
    requires
        b.len() == 0 || !is_digit(b.last()),
        forall|i: int| 0 <= i < d.len() ==> is_digit(#[trigger] d[i]),
    ensures
        digit_run_start(b + d) == b.len(),
    decreases d.len(),
{
    if d.len() == 0 {
        assert(b + d =~= b);
    } else {
        assert((b + d).drop_last() =~= b + d.drop_last());
        assert((b + d).last() == d[d.len() - 1]);
        lemma_run_start_after_base(b, d.drop_last());
    }
}

proof fn lemma_digit_run_start_bound(s: Seq<char>)
    ensures
        digit_run_start(s) <= s.len(),
        forall|i: int| digit_run_start(s) <= i < s.len() ==> is_digit(#[trigger] s[i]),
        digit_run_start(s) > 0 ==> !is_digit(s[digit_run_start(s) - 1]),
    decreases s.len(),
{
    if s.len() > 0 && is_digit(s.last()) {
        let t = s.drop_last();
        lemma_digit_run_start_bound(t);
        assert forall|i: int| digit_run_start(s) <= i < s.len() implies is_digit(#[trigger] s[i]) by {
            if i < t.len() {
                assert(s[i] == t[i]);
            }
        }
        if digit_run_start(s) > 0 {
            assert(s[digit_run_start(s) - 1] == t[digit_run_start(t) - 1]);
        }
    }
}

/// A name without trailing digits splits into the whole name and 0.
pub proof fn lemma_split_without_digits(name: Seq<char>)
    requires
        name.len() == 0 || !is_digit(name.last()),
    ensures
        name_base(name) == name,
        name_suffix(name) == 0,
{
    assert(name.subrange(0, name.len() as int) =~= name);
    assert(name.subrange(name.len() as int, name.len() as int) =~= Seq::<char>::empty());
}

/// A name that ends in digits splits into the text before the run and the
/// run's value; the base followed by that value written in decimal splits
/// back into the same base and the same value.
pub proof fn lemma_split_with_digits(name: Seq<char>)
    requires
        name.len() > 0,
        is_digit(name.last()),
    ensures
        digit_run_start(name) < name.len(),
        name_base(name) + name_digits(name) == name,
        forall|i: int|
            0 <= i < name_digits(name).len() ==> is_digit(#[trigger] name_digits(name)[i]),
        name_base(name).len() == 0 || !is_digit(name_base(name).last()),
        digits_value(name_digits(name)) <= u32::MAX ==> name_suffix(name) == digits_value(
            name_digits(name),
        ),
        name_base(name_base(name) + decimal(name_suffix(name) as nat)) == name_base(name),
        name_suffix(name_base(name) + decimal(name_suffix(name) as nat)) == name_suffix(name),
{
    lemma_digit_run_start_bound(name);
    if digit_run_start(name) == name.len() {
        assert(digit_run_start(name) > 0);
    }
    assert(name_base(name) + name_digits(name) =~= name);
    let b = name_base(name);
    let v = name_suffix(name) as nat;
    lemma_decimal_reads_back(v);
    lemma_run_start_after_base(b, decimal(v));
    let t = b + decimal(v);
    assert(t.subrange(0, b.len() as int) =~= b);
    assert(t.subrange(b.len() as int, t.len() as int) =~= decimal(v));
}

fn is_ascii_digit(c: char) -> (r: bool)
    ensures
        r == is_digit(c),
{
    '0' <= c && c <= '9'
}

/// Splits `name` into the text before its trailing run of ASCII digits and
/// the number that run reads as (0 where there is none, or where it does not
/// fit in a `u32`).
pub fn split_name_number(name: &str) -> (r: (&str, u32))
    ensures
        r.0@ == name_base(name@),
        r.1 == name_suffix(name@),
{
    let len = name.unicode_len();
    let mut idx = len;
    assert(name@.subrange(0, len as int) =~= name@);
    while idx > 0 && is_ascii_digit(name.get_char(idx - 1))
        invariant
            len == name@.len(),
            idx <= len,
            digit_run_start(name@) == digit_run_start(name@.subrange(0, idx as int)),
        decreases idx,
    {
        assert(name@.subrange(0, idx as int).drop_last() =~= name@.subrange(0, idx - 1));
        idx = idx - 1;
    }
    assert(digit_run_start(name@) == idx);
    let mut value: u64 = 0;
    let mut overflow = false;
    let mut i = idx;
    while i < len
        invariant
            len == name@.len(),
            idx <= i <= len,
            digit_run_start(name@) == idx,
            !overflow ==> value == digits_value(name@.subrange(idx as int, i as int)),
            !overflow ==> value <= u32::MAX,
            overflow ==> digits_value(name@.subrange(idx as int, i as int)) > u32::MAX,
        decreases len - i,
    {
        let c = name.get_char(i);
        proof {
            lemma_digit_run_start_bound(name@);
            assert(name@.subrange(idx as int, i + 1).drop_last() =~= name@.subrange(
                idx as int,
                i as int,
            ));
            assert(name@.subrange(idx as int, i + 1).last() == c);
        }
        if !overflow {
            let d = (c as u32 - '0' as u32) as u64;
            let next = value * 10 + d;
            if next > u32::MAX as u64 {
                overflow = true;
            } else {
                value = next;
            }
        }
        i = i + 1;
    }
    let base = name.substring_char(0, idx);
    if overflow {
        (base, 0)
    } else {
        (base, value as u32)
    }
}

/// Splits a file stem the same way as [`split_name_number`].
pub fn split_stem_number(stem: &str) -> (r: (&str, u32))
    ensures
        r.0@ == name_base(stem@),
        r.1 == name_suffix(stem@),
{
    split_name_number(stem)
}

fn digit_text(d: u32) -> (r: &'static str)
    requires
        d < 10,
    ensures
        r@ == seq![digit_char(d as nat)],
{
    if d == 0 {
        proof {
            reveal_strlit("0");
        }
        "0"
    } else if d == 1 {
        proof {
            reveal_strlit("1");
        }
        "1"
    } else if d == 2 {
        proof {
            reveal_strlit("2");
        }
        "2"
    } else if d == 3 {
        proof {
            reveal_strlit("3");
        }
        "3"
    } else if d == 4 {
        proof {
            reveal_strlit("4");
        }
        "4"
    } else if d == 5 {
        proof {
            reveal_strlit("5");
        }
        "5"
    } else if d == 6 {
        proof {
            reveal_strlit("6");
        }
        "6"
    } else if d == 7 {
        proof {
            reveal_strlit("7");
        }
        "7"
    } else if d == 8 {
        proof {
            reveal_strlit("8");
        }
        "8"
    } else {
        proof {
            reveal_strlit("9");
        }
        "9"
    }
}

/// Writes `n` in decimal, without leading zeros.
pub fn decimal_text(n: u64) -> (r: String)
    ensures
        r@ == decimal(n as nat),
    decreases n,
{
    if n < 10 {
        String::from_str(digit_text(n as u32))
    } else {
        let mut s = decimal_text(n / 10);
        s.append(digit_text((n % 10) as u32));
        assert(s@ =~= decimal(n as nat));
        s
    }
}

} // verus!
