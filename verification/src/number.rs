//! Numbers in text: decimal and hexadecimal forms, and the parsing of
//! unsigned decimals.
use vstd::prelude::*;

verus! {

/// The character of a digit below sixteen, in lower case.
pub open spec fn digit(d: int) -> char {
    if d == 0 { '0' } else if d == 1 { '1' } else if d == 2 { '2' } else if d == 3 { '3' }
    else if d == 4 { '4' } else if d == 5 { '5' } else if d == 6 { '6' } else if d == 7 { '7' }
    else if d == 8 { '8' } else if d == 9 { '9' } else if d == 10 { 'a' } else if d == 11 { 'b' }
    else if d == 12 { 'c' } else if d == 13 { 'd' } else if d == 14 { 'e' } else { 'f' }
}

/// The value of a decimal digit.
pub open spec fn digit_value(c: char) -> int {
    c as int - '0' as int
}

/// Whether a character is a decimal digit.
pub open spec fn is_digit(c: char) -> bool {
    '0' <= c && c <= '9'
}

/// Whether a character is a decimal digit.
pub fn decimal_digit(c: char) -> (r: bool)
    ensures
        r == is_digit(c),
{
    '0' <= c && c <= '9'
}

/// The character of a digit below sixteen.
pub fn digit_char(d: u64) -> (c: char)
    requires
        d < 16,
    ensures
        c == digit(d as int),
{
    if d == 0 { '0' } else if d == 1 { '1' } else if d == 2 { '2' } else if d == 3 { '3' }
    else if d == 4 { '4' } else if d == 5 { '5' } else if d == 6 { '6' } else if d == 7 { '7' }
    else if d == 8 { '8' } else if d == 9 { '9' } else if d == 10 { 'a' } else if d == 11 { 'b' }
    else if d == 12 { 'c' } else if d == 13 { 'd' } else if d == 14 { 'e' } else { 'f' }
}

/// The text of a number in a base from two to sixteen, without leading zeros.
pub open spec fn numeral(n: nat, base: nat) -> Seq<char>
    decreases n,
{
    if base < 2 || n < base {
        seq![digit(n as int)]
    } else {
        proof {
            assert(n / base < n) by (nonlinear_arith)
                requires
                    n >= base,
                    base >= 2,
            ;
        }
        numeral(n / base, base).push(digit((n % base) as int))
    }
}

/// The decimal text of a number.
pub open spec fn decimal(n: nat) -> Seq<char> {
    numeral(n, 10)
}

/// A text of at least `width` characters: zeros are put in front.
pub open spec fn zero_padded(s: Seq<char>, width: nat) -> Seq<char>
    decreases width - s.len(),
{
    if s.len() >= width {
        s
    } else {
        zero_padded(seq!['0'] + s, width)
    }
}

/// Writes a number in a base, at least `width` digits wide.
pub fn numeral_chars(n: u64, base: u64, width: usize) -> (r: Vec<char>)
    requires
        2 <= base <= 16,
    ensures
        r@ == zero_padded(numeral(n as nat, base as nat), width as nat),
{
    let mut back: Vec<char> = Vec::new();
    let mut rest: u64 = n;
    let ghost goal = numeral(n as nat, base as nat);
    loop
        invariant_except_break
            2 <= base <= 16,
            goal == numeral(rest as nat, base as nat) + back@.reverse(),
        ensures
            goal == back@.reverse(),
        decreases rest,
    {
        let d: u64 = rest % base;
        let ghost before = back@;
        back.push(digit_char(d));
        assert(back@.reverse() =~= seq![digit(d as int)] + before.reverse());
        if rest < base {
            assert(rest as nat % base as nat == rest) by (nonlinear_arith)
                requires
                    rest < base,
            ;
            assert(goal =~= back@.reverse());
            break;
        }
        assert(rest / base < rest) by (nonlinear_arith)
            requires
                rest >= base,
                base >= 2,
        ;
        let ghost head = numeral((rest / base) as nat, base as nat);
        assert(goal =~= head + back@.reverse());
        rest = rest / base;
    }
    let mut r: Vec<char> = Vec::new();
    let digits: usize = back.len();
    let ghost padded = zero_padded(goal, width as nat);
    let mut pad: usize = digits;
    let mut zeros: Vec<char> = Vec::new();
    assert(zeros@ + goal =~= goal);
    while pad < width
        invariant
            digits == goal.len(),
            pad == zeros.len() + digits,
            pad <= width || pad == digits,
            forall|k: int| 0 <= k < zeros.len() ==> zeros@[k] == '0',
            padded == zero_padded(zeros@ + goal, width as nat),
        decreases width - pad,
    {
        assert(seq!['0'] + (zeros@ + goal) =~= zeros@.push('0') + goal);
        zeros.push('0');
        pad = pad + 1;
    }
    r.append(&mut zeros);
    let ghost front = r@;
    assert(padded =~= front + goal);
    let mut i: usize = digits;
    while i > 0
        invariant
            i <= digits,
            digits == back.len(),
            r@ == front + back@.reverse().take(digits - i),
        decreases i,
    {
        i = i - 1;
        r.push(back[i as usize]);
        assert(back@.reverse().take(digits - i) =~= back@.reverse().take(digits - i - 1).push(
            back@[i as int],
        ));
    }
    assert(back@.reverse().take(digits as int) =~= back@.reverse());
    r
}

/// The decimal text of a number.
pub fn decimal_string(n: u64) -> (r: String)
    ensures
        r@ == decimal(n as nat),
{
    let cs = numeral_chars(n, 10, 0);
    crate::text::string_of(cs.as_slice())
}

/// Whether every character is a decimal digit.
pub open spec fn all_digits(s: Seq<char>) -> bool {
    forall|i: int| 0 <= i < s.len() ==> is_digit(#[trigger] s[i])
}

/// The value of a run of decimal digits.
pub open spec fn digits_value(s: Seq<char>) -> int
    decreases s.len(),
{
    if s.len() == 0 {
        0
    } else {
        10 * digits_value(s.drop_last()) + digit_value(s.last())
    }
}

/// The digits of an unsigned decimal: a leading plus sign is permitted.
pub open spec fn unsigned_digits(s: Seq<char>) -> Seq<char> {
    if s.len() > 0 && s[0] == '+' {
        s.drop_first()
    } else {
        s
    }
}

/// The number that a text denotes as an unsigned decimal of at most `max`:
/// an optional plus sign and one or more digits.
pub open spec fn parse_unsigned(s: Seq<char>, max: int) -> Option<int> {
    let d = unsigned_digits(s);
    if d.len() > 0 && all_digits(d) && digits_value(d) <= max {
        Some(digits_value(d))
    } else {
        None
    }
}

/// Digits only ever add to the value.
pub proof fn lemma_digits_value_prefix(s: Seq<char>, n: int)
    requires
        all_digits(s),
        0 <= n <= s.len(),
    ensures
        0 <= digits_value(s.take(n)) <= digits_value(s),
    decreases s.len(),
{
    if n == s.len() {
        assert(s.take(n) =~= s);
        if s.len() > 0 {
            lemma_digits_value_prefix(s.drop_last(), s.len() - 1);
            assert(s.drop_last().take(s.len() - 1) =~= s.drop_last());
            assert(is_digit(s.last()));
        }
    } else {
        let t = s.drop_last();
        assert(all_digits(t));
        lemma_digits_value_prefix(t, n);
        assert(t.take(n) =~= s.take(n));
        assert(is_digit(s.last()));
    }
}

/// Parses an unsigned decimal of at most `max`.
pub fn parse_decimal(s: &[char], max: u32) -> (r: Option<u32>)
    ensures
        match r {
            Some(n) => parse_unsigned(s@, max as int) == Some(n as int),
            None => parse_unsigned(s@, max as int) is None,
        },
{
    let start: usize = if s.len() > 0 && s[0] == '+' { 1 } else { 0 };
    let ghost d = unsigned_digits(s@);
    assert(d =~= s@.skip(start as int));
    if start == s.len() {
        return None;
    }
    let mut value: u32 = 0;
    let mut i: usize = start;
    assert(d.take(0) =~= Seq::<char>::empty());
    while i < s.len()
        invariant
            start <= i <= s.len(),
            d == s@.skip(start as int),
            all_digits(d.take(i - start)),
            value == digits_value(d.take(i - start)),
            value <= max,
            d == unsigned_digits(s@),
        decreases s.len() - i,
    {
        let c = s[i];
        let ghost n = i - start;
        assert(c == d[n]);
        if !decimal_digit(c) {
            assert(!all_digits(d));
            return None;
        }
        let v: u32 = c as u32 - '0' as u32;
        let next: u64 = value as u64 * 10 + v as u64;
        proof {
            let t = d.take(n + 1);
            assert(t.drop_last() =~= d.take(n));
            assert(t.last() == c);
            assert(next == digits_value(t));
            assert forall|k: int| 0 <= k < t.len() implies is_digit(#[trigger] t[k]) by {
                if k < n {
                    assert(t[k] == d.take(n)[k]);
                }
            }
        }
        if next > max as u64 {
            proof {
                if all_digits(d) {
                    lemma_digits_value_prefix(d, n + 1);
                }
            }
            return None;
        }
        value = next as u32;
        i = i + 1;
    }
    assert(d.take(i - start) =~= d);
    Some(value)
}

/// Every character of a decimal numeral is a digit, and it denotes the number.
pub proof fn lemma_decimal(n: nat)
    ensures
        decimal(n).len() > 0,
        all_digits(decimal(n)),
        digits_value(decimal(n)) == n,
        n >= 10 ==> decimal(n)[0] != '0',
        n < 10 ==> decimal(n).len() == 1,
    decreases n,
{
    reveal_with_fuel(digits_value, 2);
    if n < 10 {
        let s = seq![digit(n as int)];
        assert(decimal(n) == s);
        assert(s.drop_last() =~= Seq::<char>::empty());
    } else {
        lemma_decimal(n / 10);
        let h = decimal(n / 10);
        let s = decimal(n);
        assert(s == h.push(digit((n % 10) as int)));
        assert(s.drop_last() =~= h);
        assert forall|i: int| 0 <= i < s.len() implies is_digit(#[trigger] s[i]) by {
            if i < h.len() {
                assert(s[i] == h[i]);
            }
        }
        assert(s[0] == h[0]);
    }
}

/// Parsing undoes writing: the decimal text of a number that fits denotes
/// that number.
pub proof fn parse_of_decimal(n: nat, max: int)
    requires
        n <= max,
    ensures
        parse_unsigned(decimal(n), max) == Some(n as int),
{
    lemma_decimal(n);
    assert(is_digit(decimal(n)[0]));
    assert(unsigned_digits(decimal(n)) =~= decimal(n));
}

/// A number beyond the limit is refused, and so is a text that is no run of
/// digits: an empty one, a lone plus sign, and one with any other character.
pub proof fn only_numbers_within_the_limit_are_read(n: nat, max: int, s: Seq<char>, i: int)
    requires
        n > max,
        0 <= i < s.len(),
        s[i] as int - 48 < 0 || s[i] as int - 48 > 9,
        i > 0 || s[0] != '+',
    ensures
        parse_unsigned(decimal(n), max) is None,
        parse_unsigned(s, max) is None,
        parse_unsigned(Seq::empty(), max) is None,
        parse_unsigned(seq!['+'], max) is None,
{
    lemma_decimal(n);
    assert(is_digit(decimal(n)[0]));
    assert(unsigned_digits(decimal(n)) =~= decimal(n));
    let d = unsigned_digits(s);
    if s[0] == '+' {
        assert(d[i - 1] == s[i]);
        assert(!is_digit(d[i - 1]));
    } else {
        assert(!is_digit(d[i]));
    }
}

proof fn lemma_leading_zero(s: Seq<char>)
    requires
        all_digits(s),
    ensures
        all_digits(seq!['0'] + s),
        digits_value(seq!['0'] + s) == digits_value(s),
    decreases s.len(),
{
    let t = seq!['0'] + s;
    if s.len() == 0 {
        reveal_with_fuel(digits_value, 2);
        assert(t.drop_last() =~= Seq::<char>::empty());
    } else {
        assert(all_digits(s.drop_last()));
        lemma_leading_zero(s.drop_last());
        assert(t.drop_last() =~= seq!['0'] + s.drop_last());
        assert(t.last() == s.last());
    }
    assert forall|i: int| 0 <= i < t.len() implies is_digit(#[trigger] t[i]) by {
        if i > 0 {
            assert(t[i] == s[i - 1]);
        }
    }
}

/// A zero or a plus sign in front of a decimal changes nothing of its value.
pub proof fn a_zero_or_a_plus_in_front_changes_nothing(n: nat, max: int)
    requires
        n <= max,
    ensures
        parse_unsigned(seq!['0'] + decimal(n), max) == Some(n as int),
        parse_unsigned(seq!['+'] + decimal(n), max) == Some(n as int),
{
    lemma_decimal(n);
    lemma_leading_zero(decimal(n));
    let zero = seq!['0'] + decimal(n);
    let plus = seq!['+'] + decimal(n);
    assert(unsigned_digits(zero) =~= zero);
    assert(unsigned_digits(plus) =~= decimal(n));
}

/// A decimal has no more digits than its value needs, and two numbers with one
/// decimal are one.
pub proof fn a_decimal_names_its_number(a: nat, b: nat)
    requires
        decimal(a) == decimal(b),
    ensures
        a == b,
{
    lemma_decimal(a);
    lemma_decimal(b);
}

/// The value of a digit below sixteen, in lower case.
pub open spec fn hex_value(c: char) -> int {
    if is_digit(c) {
        c as int - 48
    } else {
        c as int - 87
    }
}

/// The number that a run of digits in a base stands for.
pub open spec fn value_in(s: Seq<char>, base: nat) -> int
    decreases s.len(),
{
    if s.len() == 0 {
        0
    } else {
        base * value_in(s.drop_last(), base) + hex_value(s.last())
    }
}

/// A numeral stands for its number, in every base, and has no zero in front
/// unless it is the zero.
pub proof fn a_numeral_stands_for_its_number(n: nat, base: nat)
    requires
        2 <= base <= 16,
    ensures
        numeral(n, base).len() > 0,
        value_in(numeral(n, base), base) == n,
        n > 0 ==> numeral(n, base)[0] != '0',
    decreases n,
{
    reveal_with_fuel(value_in, 2);
    if n < base {
        let s = seq![digit(n as int)];
        assert(numeral(n, base) == s);
        assert(s.drop_last() =~= Seq::<char>::empty());
        assert(base * value_in(s.drop_last(), base) == 0) by (nonlinear_arith)
            requires
                value_in(s.drop_last(), base) == 0,
        ;
    } else {
        assert(n / base < n && n / base > 0) by (nonlinear_arith)
            requires
                n >= base,
                base >= 2,
        ;
        a_numeral_stands_for_its_number(n / base, base);
        let h = numeral(n / base, base);
        let s = numeral(n, base);
        let d = (n % base) as int;
        assert(s == h.push(digit(d)));
        assert(s.drop_last() =~= h);
        assert(0 <= d < base && n == base * (n / base) + d) by (nonlinear_arith)
            requires
                base >= 2,
                d == n % base,
        ;
        assert(hex_value(digit(d)) == d);
        assert(s[0] == h[0]);
    }
}

/// Padding puts zeros in front of a text, and no more than it takes.
pub proof fn padding_puts_zeros_in_front(s: Seq<char>, width: nat)
    ensures
        zero_padded(s, width).len() == if s.len() >= width {
            s.len()
        } else {
            width
        },
        zero_padded(s, width).skip(zero_padded(s, width).len() - s.len()) == s,
        forall|i: int|
            0 <= i < zero_padded(s, width).len() - s.len() ==> zero_padded(s, width)[i] == '0',
        all_digits(s) ==> all_digits(zero_padded(s, width)) && digits_value(zero_padded(s, width))
            == digits_value(s),
    decreases width - s.len(),
{
    if s.len() >= width {
        assert(s.skip(0) =~= s);
    } else {
        let t = seq!['0'] + s;
        padding_puts_zeros_in_front(t, width);
        let r = zero_padded(s, width);
        assert(r.skip(r.len() - s.len()) =~= r.skip(r.len() - t.len()).skip(1));
        assert(t.skip(1) =~= s);
        assert(r.skip(r.len() - t.len())[0] == '0');
        if all_digits(s) {
            lemma_leading_zero(s);
        }
    }
}

proof fn lemma_decimal_len(n: nat, width: nat)
    requires
        (width == 1 && n < 10) || (width == 2 && n < 100) || (width == 3 && n < 1000) || (width
            == 4 && n < 10000),
    ensures
        decimal(n).len() <= width,
    decreases width,
{
    if n >= 10 {
        lemma_decimal_len(n / 10, (width - 1) as nat);
    }
}

/// A number that needs no more digits than there is room for is shown with
/// exactly so many, and read from them again.
pub proof fn a_padded_number_is_read_again(n: nat, width: nat, max: int)
    requires
        (width == 1 && n < 10) || (width == 2 && n < 100) || (width == 3 && n < 1000) || (width
            == 4 && n < 10000),
        n <= max,
    ensures
        zero_padded(decimal(n), width).len() == width,
        parse_unsigned(zero_padded(decimal(n), width), max) == Some(n as int),
{
    lemma_decimal(n);
    lemma_decimal_len(n, width);
    padding_puts_zeros_in_front(decimal(n), width);
    let s = zero_padded(decimal(n), width);
    assert(is_digit(s[0]));
    assert(unsigned_digits(s) =~= s);
}

} // verus!
