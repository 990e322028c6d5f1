//! Decimal rendering and parsing of the unsigned operation index, verified
//! against a mathematical definition of a number's digit string.

use vstd::prelude::*;

verus! {

/// The character for one decimal digit.
pub open spec fn digit_to_char(d: nat) -> char {
    if d == 0 {
        '0'
    } else if d == 1 {
        '1'
    } else if d == 2 {
        '2'
    } else if d == 3 {
        '3'
    } else if d == 4 {
        '4'
    } else if d == 5 {
        '5'
    } else if d == 6 {
        '6'
    } else if d == 7 {
        '7'
    } else if d == 8 {
        '8'
    } else {
        '9'
    }
}

/// The digit value of a character; ten marks a character that is no digit.
pub open spec fn char_to_digit(c: char) -> nat {
    if c == '0' {
        0
    } else if c == '1' {
        1
    } else if c == '2' {
        2
    } else if c == '3' {
        3
    } else if c == '4' {
        4
    } else if c == '5' {
        5
    } else if c == '6' {
        6
    } else if c == '7' {
        7
    } else if c == '8' {
        8
    } else if c == '9' {
        9
    } else {
        10
    }
}

pub open spec fn is_digit(c: char) -> bool {
    char_to_digit(c) < 10
}

/// The decimal digit string of `n`, most significant digit first, with no
/// leading zero except for `n == 0` itself.
pub open spec fn dec_digits(n: nat) -> Seq<char>
    decreases n,
{
    if n < 10 {
        seq![digit_to_char(n)]
    } else {
        dec_digits(n / 10).push(digit_to_char(n % 10))
    }
}

/// The numeric value of a digit string, most significant digit first.
pub open spec fn digits_val(s: Seq<char>) -> nat
    decreases s.len(),
{
    if s.len() == 0 {
        0
    } else {
        digits_val(s.drop_last()) * 10 + char_to_digit(s.last())
    }
}

pub open spec fn all_digits(s: Seq<char>) -> bool {
    forall|i: int| 0 <= i < s.len() ==> is_digit(s[i])
}

/// A number's digit string is nonempty, holds only digits, and evaluates back
/// to the number.
pub proof fn lemma_dec_digits(n: nat)
    ensures
        dec_digits(n).len() >= 1,
        all_digits(dec_digits(n)),
        digits_val(dec_digits(n)) == n,
    decreases n,
{
    if n < 10 {
        let s = dec_digits(n);
        assert(s.drop_last() =~= Seq::<char>::empty());
        assert(digits_val(Seq::<char>::empty()) == 0);
        assert(digits_val(s) == digits_val(s.drop_last()) * 10 + char_to_digit(s.last()));
        assert(digits_val(s) == char_to_digit(digit_to_char(n)));
    } else {
        lemma_dec_digits(n / 10);
        let prefix = dec_digits(n / 10);
        let s = dec_digits(n);
        assert(s.drop_last() =~= prefix);
        assert(digits_val(s) == (n / 10) * 10 + char_to_digit(digit_to_char(n % 10)));
        assert(char_to_digit(digit_to_char(n % 10)) == n % 10);
        vstd::arithmetic::div_mod::lemma_fundamental_div_mod(n as int, 10);
        assert(forall|i: int| 0 <= i < s.len() ==> is_digit(#[trigger] s[i])) by {
            assert(forall|i: int| 0 <= i < prefix.len() ==> is_digit(#[trigger] prefix[i]));
        }
    }
}

/// A digit string of more than one digit never starts with a zero: decimal
/// rendering writes no leading zeros.
pub proof fn lemma_dec_digits_no_leading_zero(n: nat)
    ensures
        dec_digits(n).len() > 1 ==> dec_digits(n)[0] != '0',
    decreases n,
{
    if n >= 10 {
        lemma_dec_digits_no_leading_zero(n / 10);
        let s = dec_digits(n);
        let prefix = dec_digits(n / 10);
        assert(s[0] == prefix[0]);
        if prefix.len() == 1 {
            if n / 10 >= 10 {
                lemma_dec_digits(n / 10 / 10);
                assert(prefix.len() >= 2);
            }
            assert(n / 10 < 10);
            assert(prefix == seq![digit_to_char((n / 10) as nat)]);
            assert(n / 10 >= 1);
        }
    }
}

/// Two numbers with the same digit string are the same number.
pub proof fn lemma_dec_digits_injective(a: nat, b: nat)
    requires
        dec_digits(a) == dec_digits(b),
    ensures
        a == b,
{
    lemma_dec_digits(a);
    lemma_dec_digits(b);
}

/// Reading one more digit multiplies the value of the prefix by ten, so the
/// value of a digit string dominates the value of any of its prefixes.
pub proof fn lemma_digits_val_prefix_le(s: Seq<char>, i: int)
    requires
        0 <= i <= s.len(),
    ensures
        digits_val(s.take(i)) <= digits_val(s),
    decreases s.len() - i,
{
    if i == s.len() {
        assert(s.take(i) =~= s);
    } else {
        lemma_digits_val_prefix_le(s, i + 1);
        let t = s.take(i + 1);
        assert(t.drop_last() =~= s.take(i));
        assert(digits_val(t) == digits_val(s.take(i)) * 10 + char_to_digit(t.last()));
    }
}

/// A nonempty digit string without a leading zero is exactly the digit string
/// of its value: decimal rendering is canonical.
pub proof fn lemma_dec_digits_canonical(s: Seq<char>)
    requires
        s.len() >= 1,
        all_digits(s),
        s.len() > 1 ==> s[0] != '0',
    ensures
        s == dec_digits(digits_val(s)),
    decreases s.len(),
{
    let v = digits_val(s);
    if s.len() == 1 {
        assert(s.drop_last() =~= Seq::<char>::empty());
        assert(digits_val(Seq::<char>::empty()) == 0);
        assert(v == char_to_digit(s[0]));
        assert(digit_to_char(char_to_digit(s[0])) == s[0]);
        assert(s =~= dec_digits(v));
    } else {
        let p = s.drop_last();
        let d = char_to_digit(s.last());
        assert(v == digits_val(p) * 10 + d);
        assert(forall|i: int| 0 <= i < p.len() ==> is_digit(#[trigger] p[i]));
        lemma_dec_digits_canonical(p);
        lemma_digits_val_prefix_le(p, 1);
        assert(p.take(1).drop_last() =~= Seq::<char>::empty());
        assert(digits_val(Seq::<char>::empty()) == 0);
        assert(p.take(1).last() == p[0]);
        assert(digits_val(p.take(1)) == digits_val(p.take(1).drop_last()) * 10 + char_to_digit(
            p.take(1).last(),
        ));
        assert(digits_val(p.take(1)) == char_to_digit(p[0]));
        assert(char_to_digit(p[0]) >= 1);
        assert(digits_val(p) >= 1);
        assert(v >= 10);
        vstd::arithmetic::div_mod::lemma_fundamental_div_mod_converse(
            v as int,
            10,
            digits_val(p) as int,
            d as int,
        );
        assert(v / 10 == digits_val(p) && v % 10 == d);
        assert(digit_to_char(char_to_digit(s.last())) == s.last());
        assert(dec_digits(v) == dec_digits(digits_val(p)).push(s.last()));
        assert(s =~= p.push(s.last()));
    }
}

/// One digit as a string.
fn digit_string(d: u32) -> (s: String)
    requires
        d < 10,
    ensures
        s@ == seq![digit_to_char(d as nat)],
{
    proof {
        reveal_strlit("0");
        reveal_strlit("1");
        reveal_strlit("2");
        reveal_strlit("3");
        reveal_strlit("4");
        reveal_strlit("5");
        reveal_strlit("6");
        reveal_strlit("7");
        reveal_strlit("8");
        reveal_strlit("9");
    }
    let s: String = if d == 0 {
        String::from_str("0")
    } else if d == 1 {
        String::from_str("1")
    } else if d == 2 {
        String::from_str("2")
    } else if d == 3 {
        String::from_str("3")
    } else if d == 4 {
        String::from_str("4")
    } else if d == 5 {
        String::from_str("5")
    } else if d == 6 {
        String::from_str("6")
    } else if d == 7 {
        String::from_str("7")
    } else if d == 8 {
        String::from_str("8")
    } else {
        String::from_str("9")
    };
    assert(s@ =~= seq![digit_to_char(d as nat)]);
    s
}

/// Render `n` in decimal.
pub fn u32_to_decimal(n: u32) -> (s: String)
    ensures
        s@ == dec_digits(n as nat),
    decreases n,
{
    if n < 10 {
        digit_string(n)
    } else {
        let mut s = u32_to_decimal(n / 10);
        let last = digit_string(n % 10);
        s.append(last.as_str());
        proof {
            assert(dec_digits(n as nat) =~= dec_digits((n / 10) as nat) + seq![
                digit_to_char((n % 10) as nat),
            ]);
        }
        s
    }
}

/// The digit value of one character, with ten for a non-digit.
fn char_digit(c: char) -> (d: u32)
    ensures
        d == char_to_digit(c),
{
    if c == '0' {
        0
    } else if c == '1' {
        1
    } else if c == '2' {
        2
    } else if c == '3' {
        3
    } else if c == '4' {
        4
    } else if c == '5' {
        5
    } else if c == '6' {
        6
    } else if c == '7' {
        7
    } else if c == '8' {
        8
    } else if c == '9' {
        9
    } else {
        10
    }
}

/// Parse the characters of `s` between `from` and `to` as an unsigned decimal
/// number. Fails exactly on an empty range, a non-digit character, or a value
/// that does not fit in 32 bits.
pub fn parse_u32_decimal(s: &str, from: usize, to: usize) -> (r: Option<u32>)
    requires
        from <= to <= s@.len(),
    ensures
        match r {
            Some(v) => {
                &&& from < to
                &&& all_digits(s@.subrange(from as int, to as int))
                &&& v as nat == digits_val(s@.subrange(from as int, to as int))
            },
            None => {
                ||| from == to
                ||| !all_digits(s@.subrange(from as int, to as int))
                ||| digits_val(s@.subrange(from as int, to as int)) > u32::MAX
            },
        },
{
    let ghost seg = s@.subrange(from as int, to as int);
    if from == to {
        return None;
    }
    let mut i: usize = from;
    let mut val: u64 = 0;
    while i < to
        invariant
            from <= i <= to <= s@.len(),
            seg == s@.subrange(from as int, to as int),
            all_digits(seg.take(i - from)),
            val as nat == digits_val(seg.take(i - from)),
            val <= u32::MAX as u64,
        decreases to - i,
    {
        let c = s.get_char(i);
        let d = char_digit(c);
        proof {
            assert(seg[i - from] == s@[i as int]);
        }
        if d >= 10 {
            proof {
                assert(!is_digit(seg[i - from]));
            }
            return None;
        }
        let next: u64 = val * 10 + d as u64;
        proof {
            let t = seg.take(i - from + 1);
            assert(t.drop_last() =~= seg.take(i - from));
            assert(t.last() == seg[i - from]);
            assert(digits_val(t) == digits_val(seg.take(i - from)) * 10 + char_to_digit(seg[i
                - from]));
        }
        if next > u32::MAX as u64 {
            proof {
                lemma_digits_val_prefix_le(seg, i - from + 1);
                assert(all_digits(seg.take(i - from + 1)));
                if all_digits(seg) {
                    assert(digits_val(seg) > u32::MAX);
                }
            }
            return None;
        }
        val = next;
        i = i + 1;
    }
    proof {
        assert(seg.take(to - from) =~= seg);
    }
    Some(val as u32)
}

} // verus!
