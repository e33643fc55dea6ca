//! Whole numbers written in base ten, and read back.

use vstd::prelude::*;

verus! {

/// The numeral for `d`, a number below ten.
pub open spec fn digit_char(d: nat) -> char
    recommends
        d < 10,
{
    if d == 0 {
        '0'
    } else if d == 1 {
        '1'
    } else if d == 2 {
        '2'
    } else if d == 3 {
        '3'
    } else if d == 4 {
        '4'
    } else if d == 5 {
        '5'
    } else if d == 6 {
        '6'
    } else if d == 7 {
        '7'
    } else if d == 8 {
        '8'
    } else {
        '9'
    }
}

/// The number a numeral stands for; `None` for every other character.
pub open spec fn digit_value(c: char) -> Option<nat> {
    if c == '0' {
        Some(0)
    } else if c == '1' {
        Some(1)
    } else if c == '2' {
        Some(2)
    } else if c == '3' {
        Some(3)
    } else if c == '4' {
        Some(4)
    } else if c == '5' {
        Some(5)
    } else if c == '6' {
        Some(6)
    } else if c == '7' {
        Some(7)
    } else if c == '8' {
        Some(8)
    } else if c == '9' {
        Some(9)
    } else {
        None
    }
}

/// `n` in base ten, most significant digit first, without leading zeros.
pub open spec fn decimal(n: nat) -> Seq<char>
    decreases n,
{
    if n < 10 {
        seq![digit_char(n)]
    } else {
        decimal(n / 10).push(digit_char(n % 10))
    }
}

/// Whether every character of `text` is a numeral.
pub open spec fn all_digits(text: Seq<char>) -> bool {
    forall|i: int| 0 <= i < text.len() ==> (#[trigger] digit_value(text[i])) is Some
}

/// The base-ten value of `text`, with a character that is no numeral read
/// as zero.
pub open spec fn decimal_value(text: Seq<char>) -> nat
    decreases text.len(),
{
    if text.len() == 0 {
        0
    } else {
        decimal_value(text.drop_last()) * 10 + match digit_value(text.last()) {
            Some(d) => d,
            None => 0,
        }
    }
}

/// The number that `text` denotes: `text` must be a non-empty run of
/// numerals. Leading zeros are allowed.
pub open spec fn number(text: Seq<char>) -> Option<nat> {
    if text.len() > 0 && all_digits(text) {
        Some(decimal_value(text))
    } else {
        None
    }
}

/// `v` in base ten, with a leading `-` when it is negative.
pub open spec fn integer_text(v: int) -> Seq<char> {
    if v < 0 {
        seq!['-'] + decimal((-v) as nat)
    } else {
        decimal(v as nat)
    }
}

/// The integer that `text` denotes: an optional `-`, then a number.
pub open spec fn integer_value(text: Seq<char>) -> Option<int> {
    if text.len() > 0 && text[0] == '-' {
        match number(text.skip(1)) {
            Some(magnitude) => Some(-(magnitude as int)),
            None => None,
        }
    } else {
        match number(text) {
            Some(magnitude) => Some(magnitude as int),
            None => None,
        }
    }
}

/// `number(text)` where it is at most `ceiling`.
pub open spec fn number_up_to(text: Seq<char>, ceiling: nat) -> Option<nat> {
    match number(text) {
        Some(n) if n <= ceiling => Some(n),
        _ => None,
    }
}

/// `integer_value(text)` where it lies between `floor` and `ceiling`.
pub open spec fn integer_within(text: Seq<char>, floor: int, ceiling: int) -> Option<int> {
    match integer_value(text) {
        Some(v) if floor <= v <= ceiling => Some(v),
        _ => None,
    }
}

/// Reading what was written gives the number back.
pub proof fn lemma_decimal_round_trip(n: nat)
    ensures
        decimal(n).len() > 0,
        all_digits(decimal(n)),
        decimal(n)[0] != '-',
        number(decimal(n)) == Some(n),
    decreases n,
{
    let text = decimal(n);
    if n < 10 {
        assert(text.drop_last().len() == 0);
        assert(decimal_value(text.drop_last()) == 0);
        assert(digit_value(text.last()) == Some(n));
    } else {
        lemma_decimal_round_trip(n / 10);
        assert(text.drop_last() == decimal(n / 10));
        assert(digit_value(text.last()) == Some(n % 10));
        assert(text[0] == decimal(n / 10)[0]);
        assert forall|i: int| 0 <= i < text.len() implies (#[trigger] digit_value(
            text[i],
        )) is Some by {
            if i < text.len() - 1 {
                assert(text[i] == decimal(n / 10)[i]);
            }
        }
    }
}

/// Reading a written integer gives the integer back.
pub proof fn lemma_integer_round_trip(v: int)
    ensures
        integer_value(integer_text(v)) == Some(v),
{
    if v < 0 {
        let magnitude = (-v) as nat;
        lemma_decimal_round_trip(magnitude);
        assert(integer_text(v).skip(1) == decimal(magnitude));
    } else {
        lemma_decimal_round_trip(v as nat);
    }
}

/// A prefix of a numeral never has a larger value than the whole.
pub proof fn lemma_prefix_value(text: Seq<char>, k: int)
    requires
        0 <= k <= text.len(),
    ensures
        decimal_value(text.take(k)) <= decimal_value(text),
    decreases text.len(),
{
    if k == text.len() {
        assert(text.take(k) == text);
    } else {
        lemma_prefix_value(text.drop_last(), k);
        assert(text.drop_last().take(k) == text.take(k));
    }
}

/// The numeral for `d`.
pub fn char_of_digit(d: u64) -> (c: char)
    requires
        d < 10,
    ensures
        c == digit_char(d as nat),
{
    if d == 0 {
        '0'
    } else if d == 1 {
        '1'
    } else if d == 2 {
        '2'
    } else if d == 3 {
        '3'
    } else if d == 4 {
        '4'
    } else if d == 5 {
        '5'
    } else if d == 6 {
        '6'
    } else if d == 7 {
        '7'
    } else if d == 8 {
        '8'
    } else {
        '9'
    }
}

/// The number that the numeral `c` stands for.
pub fn digit_of(c: char) -> (d: Option<u64>)
    ensures
        match d {
            Some(v) => digit_value(c) == Some(v as nat),
            None => digit_value(c) is None,
        },
{
    if c == '0' {
        Some(0)
    } else if c == '1' {
        Some(1)
    } else if c == '2' {
        Some(2)
    } else if c == '3' {
        Some(3)
    } else if c == '4' {
        Some(4)
    } else if c == '5' {
        Some(5)
    } else if c == '6' {
        Some(6)
    } else if c == '7' {
        Some(7)
    } else if c == '8' {
        Some(8)
    } else if c == '9' {
        Some(9)
    } else {
        None
    }
}

/// Appends `n` in base ten to `out`.
pub fn push_decimal(out: &mut String, n: u64)
    ensures
        final(out)@ == old(out)@ + decimal(n as nat),
    decreases n,
{
    if n >= 10 {
        push_decimal(out, n / 10);
    }
    out.push(char_of_digit(n % 10));
}

/// Appends `v` in base ten to `out`, with a leading `-` when it is negative.
pub fn push_integer(out: &mut String, v: i64)
    ensures
        final(out)@ == old(out)@ + integer_text(v as int),
{
    if v < 0 {
        out.push('-');
        let magnitude: u64 = (-(v + 1)) as u64 + 1;
        push_decimal(out, magnitude);
        assert(old(out)@.push('-') + decimal(magnitude as nat) == old(out)@ + (seq!['-']
            + decimal(magnitude as nat)));
    } else {
        push_decimal(out, v as u64);
    }
}

/// Reads `chars[from..]` as a number that fits in 64 bits.
pub fn read_decimal(chars: &Vec<char>, from: usize) -> (value: Option<u64>)
    requires
        from <= chars.len(),
    ensures
        match value {
            Some(v) => number_up_to(chars@.skip(from as int), u64::MAX as nat) == Some(v as nat),
            None => number_up_to(chars@.skip(from as int), u64::MAX as nat) is None,
        },
{
    let n = chars.len();
    if from == n {
        return None;
    }
    let ghost text = chars@.skip(from as int);
    let mut acc: u64 = 0;
    let mut i: usize = from;
    while i < n
        invariant
            from <= i <= n,
            n == chars.len(),
            text == chars@.skip(from as int),
            all_digits(text.take(i - from)),
            acc == decimal_value(text.take(i - from)),
        decreases n - i,
    {
        let ghost next = text.take(i - from + 1);
        proof {
            assert(next.drop_last() == text.take(i - from));
            assert(next.last() == text[i - from]);
            assert(text[i - from] == chars[i as int]);
        }
        match digit_of(chars[i]) {
            None => {
                return None;
            },
            Some(d) => {
                if acc > (u64::MAX - d) / 10 {
                    proof {
                        lemma_prefix_value(text, i - from + 1);
                    }
                    return None;
                }
                acc = acc * 10 + d;
                proof {
                    assert forall|j: int| 0 <= j < next.len() implies (#[trigger] digit_value(
                        next[j],
                    )) is Some by {
                        if j < next.len() - 1 {
                            assert(next[j] == text.take(i - from)[j]);
                        }
                    }
                }
            },
        }
        i += 1;
    }
    proof {
        assert(text.take(n - from) == text);
    }
    Some(acc)
}

/// Reads `chars[from..]` as an integer that fits in 64 bits.
pub fn read_integer(chars: &Vec<char>, from: usize) -> (value: Option<i64>)
    requires
        from <= chars.len(),
    ensures
        match value {
            Some(v) => integer_within(
                chars@.skip(from as int),
                i64::MIN as int,
                i64::MAX as int,
            ) == Some(v as int),
            None => integer_within(chars@.skip(from as int), i64::MIN as int, i64::MAX as int)
                is None,
        },
{
    if from < chars.len() && chars[from] == '-' {
        proof {
            assert(chars@.skip(from as int).skip(1) == chars@.skip(from + 1));
        }
        match read_decimal(chars, from + 1) {
            None => None,
            Some(magnitude) => {
                if magnitude > 0x8000_0000_0000_0000 {
                    None
                } else if magnitude == 0x8000_0000_0000_0000 {
                    Some(i64::MIN)
                } else {
                    Some(-(magnitude as i64))
                }
            },
        }
    } else {
        match read_decimal(chars, from) {
            None => None,
            Some(magnitude) => {
                if magnitude > 0x7fff_ffff_ffff_ffff {
                    None
                } else {
                    Some(magnitude as i64)
                }
            },
        }
    }
}

} // verus!
