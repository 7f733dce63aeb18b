//! Amounts as integers counted in ten-thousandths, and their decimal text.
//!
//! An amount is written as a whole part, one dot, and one to four decimal
//! digits: `"1.5"` is the amount 15000. The whole part is a decimal integer
//! that may carry a sign. A minus sign makes the amount one below zero,
//! which is refused, unless the amount is zero: `"-0.5"` is refused, `"-0.0"`
//! is the amount 0.

use vstd::prelude::*;
use vstd::std_specs::iter::IteratorSpec;

verus! {

/// How many ten-thousandths make one unit.
pub const FIXED_POINT_MAGNITUDE: i64 = 10000;

/// The most decimal digits that may follow the dot.
pub const EXPECTED_PRECISION: usize = 4;

/// Why a text is not an amount.
#[derive(Clone, Copy, Debug, PartialEq, Eq)]
pub enum AmountError {
    /// The text does not hold exactly one dot.
    Malformed,
    /// A part is empty or holds something other than decimal digits.
    NotANumber,
    /// The amount is below zero.
    Negative,
    /// More than four digits follow the dot.
    TooPrecise,
    /// The amount is more than an `i64` can count in ten-thousandths.
    TooLarge,
}

impl AmountError {
    /// The sentence that reports this error.
    pub open spec fn text(self) -> Seq<char> {
        match self {
            AmountError::Malformed => "Amount contains more than one dot or less than one dot"@,
            AmountError::NotANumber => "Invalid amount: not a decimal number"@,
            AmountError::Negative => "Invalid amount: negative"@,
            AmountError::TooPrecise => "Provided amount exceeds asserted 4 digits past point fixed point precision"@,
            AmountError::TooLarge => "Invalid amount: too large"@,
        }
    }

    /// The sentence that reports this error.
    pub fn message(self) -> (m: &'static str)
        ensures
            m@ == self.text(),
    {
        match self {
            AmountError::Malformed => "Amount contains more than one dot or less than one dot",
            AmountError::NotANumber => "Invalid amount: not a decimal number",
            AmountError::Negative => "Invalid amount: negative",
            AmountError::TooPrecise => "Provided amount exceeds asserted 4 digits past point fixed point precision",
            AmountError::TooLarge => "Invalid amount: too large",
        }
    }
}

/// Whether `c` is one of the ten decimal digits.
pub open spec fn is_digit(c: char) -> bool {
    '0' <= c && c <= '9'
}

/// The number that the decimal digit `c` stands for.
pub open spec fn digit_value(c: char) -> nat
    recommends
        is_digit(c),
{
    (c as u32 - '0' as u32) as nat
}

/// Whether `s` holds decimal digits and nothing else.
pub open spec fn all_digits(s: Seq<char>) -> bool {
    forall|i: int| 0 <= i < s.len() ==> is_digit(#[trigger] s[i])
}

/// The number that a run of decimal digits stands for, the most significant
/// digit first; the empty run stands for zero.
pub open spec fn digits_value(s: Seq<char>) -> nat
    decreases s.len(),
{
    if s.len() == 0 {
        0
    } else {
        digits_value(s.drop_last()) * 10 + digit_value(s.last())
    }
}

/// Ten to the power `e`.
pub open spec fn pow10(e: nat) -> nat
    decreases e,
{
    if e == 0 {
        1
    } else {
        10 * pow10((e - 1) as nat)
    }
}

/// Whether `s` starts with a plus or minus sign.
pub open spec fn has_sign(s: Seq<char>) -> bool {
    s.len() > 0 && (s[0] == '+' || s[0] == '-')
}

/// Whether `s` starts with a minus sign.
pub open spec fn has_minus(s: Seq<char>) -> bool {
    s.len() > 0 && s[0] == '-'
}

/// The integer that `s` stands for: an optional sign, then one or more
/// decimal digits. `None` where `s` is not of that form.
pub open spec fn signed_value(s: Seq<char>) -> Option<int> {
    let digits = if has_sign(s) {
        s.drop_first()
    } else {
        s
    };
    if digits.len() == 0 || !all_digits(digits) {
        None
    } else if has_minus(s) {
        Some(-(digits_value(digits) as int))
    } else {
        Some(digits_value(digits) as int)
    }
}

/// Whether position `i` of `t` holds a dot and no other position does.
pub open spec fn is_only_dot(t: Seq<char>, i: int) -> bool {
    &&& 0 <= i < t.len()
    &&& t[i] == '.'
    &&& forall|j: int| 0 <= j < t.len() && t[j] == '.' ==> j == i
}

/// Whether `t` holds exactly one dot.
pub open spec fn has_one_dot(t: Seq<char>) -> bool {
    exists|i: int| is_only_dot(t, i)
}

/// Where the dot of `t` stands, for a text with exactly one.
pub open spec fn dot_position(t: Seq<char>) -> int
    recommends
        has_one_dot(t),
{
    choose|i: int| is_only_dot(t, i)
}

/// What stands before the dot.
pub open spec fn whole_part(t: Seq<char>) -> Seq<char>
    recommends
        has_one_dot(t),
{
    t.subrange(0, dot_position(t))
}

/// What stands after the dot.
pub open spec fn fraction_part(t: Seq<char>) -> Seq<char>
    recommends
        has_one_dot(t),
{
    t.subrange(dot_position(t) + 1, t.len() as int)
}

/// The amount that a whole part of value `units` and the digits `fraction`
/// after the dot make, in ten-thousandths: missing digits count as zeros.
pub open spec fn scaled_value(units: int, fraction: Seq<char>) -> int
    recommends
        0 < fraction.len() <= 4,
{
    units * 10000 + digits_value(fraction) * pow10((4 - fraction.len()) as nat)
}

/// The amount that the text `t` stands for, in ten-thousandths, or the
/// reason why it stands for none: the first of these that applies. The text
/// does not hold exactly one dot; what stands before the dot is no integer;
/// that integer is below zero; more than four characters follow the dot;
/// none follows it, or one that is no digit; a minus sign stands before a
/// whole part of zero and the digits after the dot are not all zeros; the
/// amount is too large.
///
/// So a text with a minus sign stands for an amount only where that amount
/// is zero, and every text for an amount below zero is refused: as
/// `Negative`, where nothing else is wrong with it.
pub open spec fn parse_amount(t: Seq<char>) -> Result<int, AmountError> {
    if !has_one_dot(t) {
        Err(AmountError::Malformed)
    } else {
        match signed_value(whole_part(t)) {
            None => Err(AmountError::NotANumber),
            Some(units) => {
                let fraction = fraction_part(t);
                if units < 0 {
                    Err(AmountError::Negative)
                } else if fraction.len() > 4 {
                    Err(AmountError::TooPrecise)
                } else if fraction.len() == 0 || !all_digits(fraction) {
                    Err(AmountError::NotANumber)
                } else if has_minus(whole_part(t)) && digits_value(fraction) > 0 {
                    Err(AmountError::Negative)
                } else if scaled_value(units, fraction) > i64::MAX {
                    Err(AmountError::TooLarge)
                } else {
                    Ok(scaled_value(units, fraction))
                }
            },
        }
    }
}

/// The character that writes the digit `d`.
pub open spec fn digit_char(d: nat) -> char
    recommends
        d < 10,
{
    (d + 48) as u8 as char
}

/// The decimal text of `n`, without leading zeros.
pub open spec fn decimal_text(n: nat) -> Seq<char>
    decreases n,
{
    if n < 10 {
        seq![digit_char(n)]
    } else {
        decimal_text(n / 10).push(digit_char(n % 10))
    }
}

/// The four digits that write `f` ten-thousandths, zeros in front.
pub open spec fn fraction_text(f: nat) -> Seq<char>
    recommends
        f < 10000,
{
    seq![
        digit_char(f / 1000),
        digit_char(f / 100 % 10),
        digit_char(f / 10 % 10),
        digit_char(f % 10),
    ]
}

/// The decimal text of the amount `v`: a minus sign where `v` is below zero,
/// the whole units of its magnitude, a dot, and the remaining ten-thousandths
/// in four digits.
pub open spec fn amount_text(v: int) -> Seq<char> {
    let magnitude = vstd::math::abs(v) as nat;
    let sign = if v < 0 {
        seq!['-']
    } else {
        Seq::<char>::empty()
    };
    sign + decimal_text(magnitude / 10000) + seq!['.'] + fraction_text(magnitude % 10000)
}

/// Reads an amount from its decimal text.
///
/// The text is a whole part, one dot and one to four decimal digits; the
/// whole part is a decimal integer that may carry a sign. The result is the
/// amount in ten-thousandths, which is never below zero: a text with a minus
/// sign is read only where its amount is zero. Any other text is refused,
/// with the sentence of the first reason that applies.
pub fn string_to_fixed_point(string: &str) -> (result: Result<i64, &'static str>)
    ensures
        match parse_amount(string@) {
            Ok(v) => result == Ok::<i64, &'static str>(v as i64) && 0 <= v <= i64::MAX,
            Err(e) => result is Err && result->Err_0@ == e.text(),
        },
{
    let chars = chars_of(string);
    match parse_chars(&chars) {
        Ok(v) => Ok(v),
        Err(e) => Err(e.message()),
    }
}

/// Writes an amount as decimal text: the units, a dot, and four digits.
///
/// An amount below zero is written with a minus sign in front, also where
/// its magnitude is less than one unit.
pub fn fixed_point_to_string(fixed_point: i64) -> (text: String)
    ensures
        text@ == amount_text(fixed_point as int),
{
    let mut text = String::new();
    push_amount(&mut text, fixed_point as i128);
    text
}

/// The characters of `s`, in order.
fn chars_of(s: &str) -> (chars: Vec<char>)
    ensures
        chars@ == s@,
{
    let mut chars: Vec<char> = Vec::new();
    for c in it: s.chars()
        invariant
            it.seq() == s@,
            chars@ == s@.take(it.index() as int),
    {
        chars.push(c);
    }
    chars
}

/// The place of the dot, where the text holds exactly one.
fn find_only_dot(chars: &Vec<char>) -> (found: Option<usize>)
    ensures
        found is Some <==> has_one_dot(chars@),
        found matches Some(i) ==> is_only_dot(chars@, i as int) && dot_position(chars@) == i,
{
    let mut first: Option<usize> = None;
    let mut i: usize = 0;
    while i < chars.len()
        invariant
            i <= chars.len(),
            first matches Some(p) ==> p < i && chars@[p as int] == '.',
            first matches Some(p) ==> forall|j: int| 0 <= j < i && chars@[j] == '.' ==> j == p,
            first is None ==> forall|j: int| 0 <= j < i ==> chars@[j] != '.',
        decreases chars.len() - i,
    {
        if chars[i] == '.' {
            if first.is_some() {
                proof {
                    let p = first->0 as int;
                    assert forall|k: int| !is_only_dot(chars@, k) by {
                        if is_only_dot(chars@, k) {
                            assert(p == k);
                            assert(i as int == k);
                        }
                    }
                }
                return None;
            }
            first = Some(i);
        }
        i += 1;
    }
    proof {
        match first {
            Some(p) => {
                assert(is_only_dot(chars@, p as int));
            },
            None => {
                assert forall|k: int| !is_only_dot(chars@, k) by {}
            },
        }
    }
    first
}

/// The values that digit runs are counted up to: a run that stands for more
/// is counted as this.
const DIGITS_CAP: u64 = 1_000_000_000_000_000_000;

/// The largest whole part whose ten-thousandths an `i64` can still count.
const MAX_UNITS: u64 = 922_337_203_685_477;

/// `v`, or the cap where `v` is over it.
spec fn capped(v: nat) -> nat {
    if v >= DIGITS_CAP {
        DIGITS_CAP as nat
    } else {
        v
    }
}

/// Reads `chars[from..to]` as a run of decimal digits: `None` where another
/// character stands in it, else the run's value, counted up to the cap.
fn read_digits(chars: &Vec<char>, from: usize, to: usize) -> (value: Option<u64>)
    requires
        from <= to <= chars.len(),
    ensures
        value is Some <==> all_digits(chars@.subrange(from as int, to as int)),
        value matches Some(v) ==> v == capped(digits_value(chars@.subrange(from as int, to as int))),
{
    let mut acc: u64 = 0;
    let mut i: usize = from;
    proof {
        assert(chars@.subrange(from as int, from as int) =~= Seq::<char>::empty());
    }
    while i < to
        invariant
            from <= i <= to <= chars.len(),
            all_digits(chars@.subrange(from as int, i as int)),
            acc == capped(digits_value(chars@.subrange(from as int, i as int))),
        decreases to - i,
    {
        let c = chars[i];
        let ghost run = chars@.subrange(from as int, i as int);
        proof {
            assert(chars@.subrange(from as int, i + 1) =~= run.push(c));
        }
        if !('0' <= c && c <= '9') {
            proof {
                let whole = chars@.subrange(from as int, to as int);
                assert(whole[i - from] == c);
            }
            return None;
        }
        let d: u64 = (c as u32 - '0' as u32) as u64;
        proof {
            lemma_digits_value_push(run, c);
            assert forall|k: int| 0 <= k < run.push(c).len() implies is_digit(
                #[trigger] run.push(c)[k],
            ) by {
                if k < run.len() {
                    assert(run.push(c)[k] == run[k]);
                }
            }
        }
        acc = acc * 10 + d;
        if acc >= DIGITS_CAP {
            acc = DIGITS_CAP;
        }
        i += 1;
    }
    Some(acc)
}

/// Reads `chars[0..to]` as a signed decimal integer. `None` where it is none;
/// else whether it starts with a minus sign, and its magnitude counted up to
/// the cap.
fn read_signed(chars: &Vec<char>, to: usize) -> (value: Option<(bool, u64)>)
    requires
        to <= chars.len(),
    ensures
        value is Some <==> signed_value(chars@.subrange(0, to as int)) is Some,
        value matches Some((minus, magnitude)) ==> {
            let v = signed_value(chars@.subrange(0, to as int))->0;
            &&& minus == has_minus(chars@.subrange(0, to as int))
            &&& magnitude == capped(vstd::math::abs(v))
        },
{
    let ghost s = chars@.subrange(0, to as int);
    let signed = to > 0 && (chars[0] == '+' || chars[0] == '-');
    let from: usize = if signed {
        1
    } else {
        0
    };
    proof {
        assert(signed == has_sign(s));
        if signed {
            assert(s.drop_first() =~= chars@.subrange(from as int, to as int));
        } else {
            assert(s =~= chars@.subrange(from as int, to as int));
        }
    }
    if from == to {
        return None;
    }
    match read_digits(chars, from, to) {
        None => None,
        Some(magnitude) => {
            let minus = signed && chars[0] == '-';
            Some((minus, magnitude))
        },
    }
}

/// The amount that `chars` stands for, or why it stands for none.
fn parse_chars(chars: &Vec<char>) -> (result: Result<i64, AmountError>)
    ensures
        match parse_amount(chars@) {
            Ok(v) => result == Ok::<i64, AmountError>(v as i64) && 0 <= v <= i64::MAX,
            Err(e) => result == Err::<i64, AmountError>(e),
        },
{
    let dot = match find_only_dot(chars) {
        None => {
            return Err(AmountError::Malformed);
        },
        Some(dot) => dot,
    };
    let (minus, units) = match read_signed(chars, dot) {
        None => {
            return Err(AmountError::NotANumber);
        },
        Some(pair) => pair,
    };
    if minus && units > 0 {
        return Err(AmountError::Negative);
    }
    let digits: usize = chars.len() - dot - 1;
    if digits > EXPECTED_PRECISION {
        return Err(AmountError::TooPrecise);
    }
    if digits == 0 {
        return Err(AmountError::NotANumber);
    }
    let fraction: u64 = match read_digits(chars, dot + 1, chars.len()) {
        None => {
            return Err(AmountError::NotANumber);
        },
        Some(fraction) => fraction,
    };
    let ghost run = fraction_part(chars@);
    proof {
        lemma_digits_value_bound(run);
        lemma_pow10_values();
    }
    if minus && fraction > 0 {
        return Err(AmountError::Negative);
    }
    let multiplier: u64 = if digits == 1 {
        1000
    } else if digits == 2 {
        100
    } else if digits == 3 {
        10
    } else {
        1
    };
    assert(fraction * multiplier <= 9999) by (nonlinear_arith)
        requires
            (digits == 1 && fraction < 10 && multiplier == 1000) || (digits == 2 && fraction < 100
                && multiplier == 100) || (digits == 3 && fraction < 1000 && multiplier == 10) || (
            digits == 4 && fraction < 10000 && multiplier == 1),
    ;
    let ten_thousandths: u64 = fraction * multiplier;
    if units > MAX_UNITS {
        return Err(AmountError::TooLarge);
    }
    let total: u64 = units * (FIXED_POINT_MAGNITUDE as u64) + ten_thousandths;
    if total > 9_223_372_036_854_775_807 {
        return Err(AmountError::TooLarge);
    }
    Ok(total as i64)
}

/// The text of one digit.
fn digit_str(d: u128) -> (s: &'static str)
    requires
        d < 10,
    ensures
        s@ == seq![digit_char(d as nat)],
{
    proof {
        reveal_strlit("0");
        reveal_strlit("1");
        reveal_strlit("2");
        reveal_strlit("3");
        reveal_strlit("4");
        reveal_strlit("5");
        reveal_strlit("6");
        reveal_strlit("7");
        reveal_strlit("8");
        reveal_strlit("9");
    }
    let s = if d == 0 {
        "0"
    } else if d == 1 {
        "1"
    } else if d == 2 {
        "2"
    } else if d == 3 {
        "3"
    } else if d == 4 {
        "4"
    } else if d == 5 {
        "5"
    } else if d == 6 {
        "6"
    } else if d == 7 {
        "7"
    } else if d == 8 {
        "8"
    } else {
        "9"
    };
    proof {
        assert(s@ =~= seq![digit_char(d as nat)]);
    }
    s
}

/// Appends the decimal text of `n` to `out`.
pub(crate) fn push_decimal(out: &mut String, n: u128)
    ensures
        final(out)@ == old(out)@ + decimal_text(n as nat),
    decreases n,
{
    if n >= 10 {
        push_decimal(out, n / 10);
    }
    out.append(digit_str(n % 10));
    proof {
        assert(final(out)@ =~= old(out)@ + decimal_text(n as nat));
    }
}

/// Appends the decimal text of the amount `amount` to `out`.
pub(crate) fn push_amount(out: &mut String, amount: i128)
    requires
        amount > i128::MIN,
    ensures
        final(out)@ == old(out)@ + amount_text(amount as int),
{
    let magnitude: u128 = if amount < 0 {
        (-amount) as u128
    } else {
        amount as u128
    };
    let units: u128 = magnitude / 10000;
    let fraction: u128 = magnitude % 10000;
    if amount < 0 {
        proof {
            reveal_strlit("-");
        }
        out.append("-");
    }
    push_decimal(out, units);
    proof {
        reveal_strlit(".");
    }
    out.append(".");
    out.append(digit_str(fraction / 1000));
    out.append(digit_str(fraction / 100 % 10));
    out.append(digit_str(fraction / 10 % 10));
    out.append(digit_str(fraction % 10));
    proof {
        assert(final(out)@ =~= old(out)@ + amount_text(amount as int));
    }
}

/// Reading the text of an amount gives the amount back, for every amount
/// that is not below zero.
pub proof fn lemma_read_written_amount(amount: i64)
    requires
        amount >= 0,
    ensures
        parse_amount(amount_text(amount as int)) == Ok::<int, AmountError>(amount as int),
{
    let units = (amount / 10000) as nat;
    let fraction = (amount % 10000) as nat;
    let whole = decimal_text(units);
    let digits = fraction_text(fraction);
    lemma_decimal_text(units);
    lemma_fraction_text(fraction);
    lemma_pow10_values();
    assert(amount_text(amount as int) =~= whole + seq!['.'] + digits);
    assert forall|i: int| 0 <= i < whole.len() implies whole[i] != '.' by {
        assert(is_digit(whole[i]));
    }
    assert forall|i: int| 0 <= i < digits.len() implies digits[i] != '.' by {
        assert(is_digit(digits[i]));
    }
    lemma_dot_between(whole, digits);
    assert(is_digit(whole[0]));
    assert(!has_sign(whole));
    assert(signed_value(whole) == Some(units as int));
    let t = whole + seq!['.'] + digits;
    assert(amount_text(amount as int) == t);
    assert(signed_value(whole_part(t)) == Some(units as int));
    assert(fraction_part(t) == digits);
    assert(pow10((4 - digits.len()) as nat) == 1);
    assert(scaled_value(units as int, digits) == amount);
}

/// The text of an amount below zero is refused as negative.
pub proof fn lemma_written_negative_is_refused(amount: i64)
    requires
        amount < 0,
    ensures
        parse_amount(amount_text(amount as int)) == Err::<int, AmountError>(AmountError::Negative),
{
    let magnitude = (-amount) as nat;
    let units = magnitude / 10000;
    let fraction = magnitude % 10000;
    let whole = seq!['-'] + decimal_text(units);
    let digits = fraction_text(fraction);
    lemma_decimal_text(units);
    lemma_fraction_text(fraction);
    let t = whole + seq!['.'] + digits;
    assert(amount_text(amount as int) =~= t);
    assert forall|i: int| 0 <= i < whole.len() implies whole[i] != '.' by {
        if i > 0 {
            assert(whole[i] == decimal_text(units)[i - 1]);
            assert(is_digit(decimal_text(units)[i - 1]));
        }
    }
    assert forall|i: int| 0 <= i < digits.len() implies digits[i] != '.' by {
        assert(is_digit(digits[i]));
    }
    lemma_dot_between(whole, digits);
    assert(has_minus(whole));
    assert(whole.drop_first() =~= decimal_text(units));
    assert(signed_value(whole) == Some(-(units as int)));
}

/// A text with a minus sign before its whole part stands for no amount but
/// zero, and no text stands for an amount below zero.
pub proof fn lemma_minus_sign(text: Seq<char>)
    ensures
        parse_amount(text) is Ok ==> parse_amount(text)->Ok_0 >= 0,
        has_one_dot(text) && has_minus(whole_part(text)) && parse_amount(text) is Ok
            ==> parse_amount(text) == Ok::<int, AmountError>(0),
{
    if parse_amount(text) is Ok {
        let units = signed_value(whole_part(text))->0;
        let fraction = fraction_part(text);
        assert(0 <= units * 10000) by (nonlinear_arith)
            requires
                0 <= units,
        ;
        if has_minus(whole_part(text)) {
            assert(units == 0);
            assert(digits_value(fraction) == 0);
            assert(digits_value(fraction) * pow10((4 - fraction.len()) as nat) == 0)
                by (nonlinear_arith)
                requires
                    digits_value(fraction) == 0,
            ;
        }
    }
}

/// Writing the amount that a text stands for, and reading that text again,
/// gives the same amount: the written text is the normal form of the first.
pub proof fn lemma_written_text_is_normal_form(text: Seq<char>)
    requires
        parse_amount(text) is Ok,
    ensures
        parse_amount(amount_text(parse_amount(text)->Ok_0)) == parse_amount(text),
{
    let amount = parse_amount(text)->Ok_0;
    assert(signed_value(whole_part(text)) is Some);
    let units = signed_value(whole_part(text))->0;
    assert(amount == scaled_value(units, fraction_part(text)));
    assert(0 <= units * 10000) by (nonlinear_arith)
        requires
            0 <= units,
    ;
    lemma_read_written_amount(amount as i64);
}

/// A zero after the last digit of the fraction changes nothing: the longer
/// text stands for the same amount, or is refused for the same reason.
pub proof fn lemma_trailing_zero(text: Seq<char>)
    requires
        has_one_dot(text),
        0 < fraction_part(text).len() < 4,
    ensures
        parse_amount(text.push('0')) == parse_amount(text),
{
    let longer = text.push('0');
    let at = dot_position(text);
    assert(is_only_dot(text, at));
    assert(longer[at] == text[at]);
    assert forall|j: int| 0 <= j < longer.len() && longer[j] == '.' implies j == at by {
        if j < text.len() {
            assert(longer[j] == text[j]);
        }
    }
    assert(is_only_dot(longer, at));
    assert(is_only_dot(longer, dot_position(longer)));
    assert(dot_position(longer) == at);
    assert(whole_part(longer) =~= whole_part(text));
    let fraction = fraction_part(text);
    assert(fraction_part(longer) =~= fraction.push('0'));
    lemma_digits_value_push(fraction, '0');
    lemma_pow10_values();
    if all_digits(fraction) {
        assert forall|i: int| 0 <= i < fraction.push('0').len() implies is_digit(
            #[trigger] fraction.push('0')[i],
        ) by {
            if i < fraction.len() {
                assert(fraction.push('0')[i] == fraction[i]);
            }
        }
        let v = digits_value(fraction);
        let e = (4 - fraction.len()) as nat;
        assert(pow10(e) == 10 * pow10((e - 1) as nat));
        assert(v * 10 * pow10((e - 1) as nat) == v * pow10(e)) by (nonlinear_arith)
            requires
                pow10(e) == 10 * pow10((e - 1) as nat),
        ;
    } else {
        let i = choose|i: int| 0 <= i < fraction.len() && !is_digit(#[trigger] fraction[i]);
        assert(fraction.push('0')[i] == fraction[i]);
    }
}

/// Appending a digit to a run multiplies its value by ten and adds the digit.
pub proof fn lemma_digits_value_push(s: Seq<char>, c: char)
    ensures
        digits_value(s.push(c)) == digits_value(s) * 10 + digit_value(c),
{
    assert(s.push(c).drop_last() == s);
    assert(s.push(c).last() == c);
}

/// A run of `n` digits stands for less than ten to the `n`.
pub proof fn lemma_digits_value_bound(s: Seq<char>)
    requires
        all_digits(s),
    ensures
        digits_value(s) < pow10(s.len()),
    decreases s.len(),
{
    if s.len() > 0 {
        assert(is_digit(s[s.len() - 1]));
        assert forall|i: int| 0 <= i < s.drop_last().len() implies is_digit(
            #[trigger] s.drop_last()[i],
        ) by {
            assert(s.drop_last()[i] == s[i]);
        }
        lemma_digits_value_bound(s.drop_last());
    }
}

/// The powers of ten up to the fourth.
pub proof fn lemma_pow10_values()
    ensures
        pow10(0) == 1,
        pow10(1) == 10,
        pow10(2) == 100,
        pow10(3) == 1000,
        pow10(4) == 10000,
{
    reveal_with_fuel(pow10, 5);
}

/// The character of a digit is a digit, and stands for it.
pub proof fn lemma_digit_char(d: nat)
    requires
        d < 10,
    ensures
        is_digit(digit_char(d)),
        digit_value(digit_char(d)) == d,
        digit_char(d) != '.',
        digit_char(d) != '+',
        digit_char(d) != '-',
{
}

/// The decimal text of a number is a run of digits that stands for it.
pub proof fn lemma_decimal_text(n: nat)
    ensures
        decimal_text(n).len() > 0,
        all_digits(decimal_text(n)),
        digits_value(decimal_text(n)) == n,
    decreases n,
{
    lemma_digit_char(n % 10);
    if n < 10 {
        let t = decimal_text(n);
        assert(t.drop_last() =~= Seq::<char>::empty());
        assert(digits_value(t.drop_last()) == 0);
        assert(t.last() == digit_char(n));
    } else {
        lemma_decimal_text(n / 10);
        lemma_digits_value_push(decimal_text(n / 10), digit_char(n % 10));
    }
}

/// A number below ten thousand is made of its four decimal digits.
pub proof fn lemma_four_digits(f: nat)
    requires
        f < 10000,
    ensures
        f / 1000 < 10,
        ((f / 1000 * 10 + f / 100 % 10) * 10 + f / 10 % 10) * 10 + f % 10 == f,
{
}

/// The four digits of a fraction are a run of digits that stands for it.
pub proof fn lemma_fraction_text(f: nat)
    requires
        f < 10000,
    ensures
        fraction_text(f).len() == 4,
        all_digits(fraction_text(f)),
        digits_value(fraction_text(f)) == f,
{
    let a = digit_char(f / 1000);
    let b = digit_char(f / 100 % 10);
    let c = digit_char(f / 10 % 10);
    let d = digit_char(f % 10);
    lemma_four_digits(f);
    lemma_digit_char(f / 1000);
    lemma_digit_char(f / 100 % 10);
    lemma_digit_char(f / 10 % 10);
    lemma_digit_char(f % 10);
    let e = Seq::<char>::empty();
    let text = fraction_text(f);
    assert(text =~= e.push(a).push(b).push(c).push(d));
    assert(all_digits(text)) by {
        assert forall|i: int| 0 <= i < text.len() implies is_digit(#[trigger] text[i]) by {
            assert(i == 0 || i == 1 || i == 2 || i == 3);
        }
    }
    assert(digits_value(e) == 0);
    lemma_digits_value_push(e, a);
    lemma_digits_value_push(e.push(a), b);
    lemma_digits_value_push(e.push(a).push(b), c);
    lemma_digits_value_push(e.push(a).push(b).push(c), d);
    assert(digits_value(e.push(a)) == f / 1000);
    assert(digits_value(e.push(a).push(b)) == f / 1000 * 10 + f / 100 % 10);
    assert(digits_value(e.push(a).push(b).push(c)) == (f / 1000 * 10 + f / 100 % 10) * 10 + f / 10
        % 10);
}

/// A text made of a run without dots, a dot, and another run without dots
/// has its only dot between the two.
pub proof fn lemma_dot_between(whole: Seq<char>, fraction: Seq<char>)
    requires
        forall|i: int| 0 <= i < whole.len() ==> whole[i] != '.',
        forall|i: int| 0 <= i < fraction.len() ==> fraction[i] != '.',
    ensures
        has_one_dot(whole + seq!['.'] + fraction),
        dot_position(whole + seq!['.'] + fraction) == whole.len(),
        whole_part(whole + seq!['.'] + fraction) == whole,
        fraction_part(whole + seq!['.'] + fraction) == fraction,
{
    let t = whole + seq!['.'] + fraction;
    let at = whole.len() as int;
    assert(t[at] == '.');
    assert forall|j: int| 0 <= j < t.len() && t[j] == '.' implies j == at by {
        if j < at {
            assert(t[j] == whole[j]);
        } else if j > at {
            assert(t[j] == fraction[j - at - 1]);
        }
    }
    assert(is_only_dot(t, at));
    let chosen = dot_position(t);
    assert(is_only_dot(t, chosen));
    assert(chosen == at);
    assert(t.subrange(0, at) =~= whole);
    assert(t.subrange(at + 1, t.len() as int) =~= fraction);
}

} // verus!
