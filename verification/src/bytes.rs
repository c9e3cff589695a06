//! Byte quantities as the daemon prints them: a decimal number and a unit.
//!
//! A quantity is held exactly, as a decimal fraction of bytes, so reading
//! `"786.8 MB"` gives 786 800 000 bytes and not the nearest binary fraction.

use crate::error::Error;
use crate::text::{
    all_digits, chars_of, digit_of, digits_value, equals_str, extend_digits, find_char, index_of,
    is_all_digits, lemma_digits_value_prefix, skip_whitespace, spec_is_digit, token_end, token_len,
    trim_start,
};
use vstd::arithmetic::div_mod::lemma_div_denominator;
use vstd::prelude::*;
use vstd::slice::slice_subrange;

verus! {

/// The mathematical value of a quantity: `mantissa / 10^scale` bytes.
pub struct Quantity {
    pub mantissa: nat,
    pub scale: nat,
}

/// Ten to the power `n`.
pub open spec fn pow10(n: nat) -> nat
    decreases n,
{
    if n == 0 {
        1
    } else {
        10 * pow10((n - 1) as nat)
    }
}

/// The quantity `mantissa / 10^scale` in lowest terms: factors of ten are
/// cancelled until the scale is 0 or the mantissa no longer ends in 0.
pub open spec fn canonical(mantissa: nat, scale: nat) -> Quantity
    decreases scale,
{
    if scale > 0 && mantissa % 10 == 0 {
        canonical(mantissa / 10, (scale - 1) as nat)
    } else {
        Quantity { mantissa, scale }
    }
}

impl Quantity {
    /// Whether no factor of ten can be cancelled between mantissa and scale.
    pub open spec fn is_canonical(self) -> bool {
        self.scale == 0 || self.mantissa % 10 != 0
    }

    /// Whether `self` and `other` stand for the same number of bytes.
    pub open spec fn same_value(self, other: Quantity) -> bool {
        self.mantissa * pow10(other.scale) == other.mantissa * pow10(self.scale)
    }

    /// The number of whole bytes: the value rounded down.
    pub open spec fn whole(self) -> nat {
        self.mantissa / pow10(self.scale)
    }
}

/// The power of ten that a unit symbol multiplies by. Note that `B`
/// multiplies by ten, not by one.
pub open spec fn unit_power(unit: Seq<char>) -> Option<nat> {
    if unit == "B"@ {
        Some(1)
    } else if unit == "kB"@ {
        Some(3)
    } else if unit == "MB"@ {
        Some(6)
    } else if unit == "GB"@ {
        Some(9)
    } else {
        None
    }
}

/// The part of a magnitude token that holds the number: the token without
/// a leading plus sign.
pub open spec fn unsigned_part(token: Seq<char>) -> Seq<char> {
    if token.len() > 0 && token[0] == '+' {
        token.drop_first()
    } else {
        token
    }
}

/// The digits before the decimal point of an unsigned number.
pub open spec fn integer_digits(body: Seq<char>) -> Seq<char> {
    body.take(index_of(body, '.') as int)
}

/// The digits after the decimal point of an unsigned number; empty if there
/// is no point.
pub open spec fn fraction_digits(body: Seq<char>) -> Seq<char> {
    if index_of(body, '.') < body.len() {
        body.skip(index_of(body, '.') as int + 1)
    } else {
        Seq::empty()
    }
}

/// Reads a magnitude token: an optional `+`, digits, and optionally a point
/// and more digits, with a digit on at least one side of the point. Gives
/// the number that all the digits write and how many of them follow the
/// point, so that the magnitude is the first divided by ten to the second.
pub open spec fn magnitude(token: Seq<char>) -> Option<(nat, nat)> {
    let whole = integer_digits(unsigned_part(token));
    let fraction = fraction_digits(unsigned_part(token));
    if all_digits(whole) && all_digits(fraction) && whole.len() + fraction.len() > 0 {
        Some((digits_value(whole + fraction), fraction.len()))
    } else {
        None
    }
}

/// The first token of `text`: its first run of characters that are not
/// white space. Empty if there is none.
pub open spec fn first_token(text: Seq<char>) -> Seq<char> {
    trim_start(text).take(token_len(trim_start(text)) as int)
}

/// What follows the first token of `text`.
pub open spec fn after_first_token(text: Seq<char>) -> Seq<char> {
    trim_start(text).skip(token_len(trim_start(text)) as int)
}

/// The quantity that `text` writes: the magnitude in its first token times
/// the unit in its second, or times the unit `B` if there is no second
/// token. Further tokens are not read. `None` if the magnitude is missing
/// or no number, or the unit is not known.
pub open spec fn parse_quantity(text: Seq<char>) -> Option<Quantity> {
    let number = first_token(text);
    let unit = first_token(after_first_token(text));
    let power = if unit.len() == 0 {
        Some(1nat)
    } else {
        unit_power(unit)
    };
    if number.len() == 0 {
        None
    } else {
        match (magnitude(number), power) {
            (Some((digits, fraction)), Some(power)) => Some(
                canonical(digits * pow10(power), fraction),
            ),
            _ => None,
        }
    }
}

/// What reading `text` as a quantity gives: the quantity, or the error if
/// the text writes none or one whose mantissa is beyond a `u64`.
pub open spec fn spec_from_str(text: Seq<char>) -> Result<Quantity, Error> {
    match parse_quantity(text) {
        Some(q) => if q.mantissa <= u64::MAX {
            Ok(q)
        } else {
            Err(Error::InvalidByteFormat)
        },
        None => Err(Error::InvalidByteFormat),
    }
}

/// A power of ten is at least one.
pub proof fn lemma_pow10_positive(n: nat)
    ensures
        pow10(n) >= 1,
    decreases n,
{
    if n > 0 {
        lemma_pow10_positive((n - 1) as nat);
    }
}

/// Ten to a sum is the product of the two powers.
pub proof fn lemma_pow10_add(a: nat, b: nat)
    ensures
        pow10(a + b) == pow10(a) * pow10(b),
    decreases a,
{
    if a > 0 {
        lemma_pow10_add((a - 1) as nat, b);
        assert(pow10(a + b) == 10 * pow10((a + b - 1) as nat));
        assert(10 * (pow10((a - 1) as nat) * pow10(b)) == (10 * pow10((a - 1) as nat)) * pow10(b))
            by (nonlinear_arith);
    } else {
        assert(pow10(a) * pow10(b) == pow10(b)) by (nonlinear_arith)
            requires
                pow10(a) == 1,
        ;
    }
}

/// Cancelling a factor of ten leaves the canonical form unchanged.
pub proof fn lemma_canonical_cancel(mantissa: nat, scale: nat, k: nat)
    ensures
        canonical(mantissa * pow10(k), scale + k) == canonical(mantissa, scale),
    decreases k,
{
    if k > 0 {
        let m = mantissa * pow10((k - 1) as nat);
        assert(mantissa * pow10(k) == m * 10) by (nonlinear_arith)
            requires
                pow10(k) == 10 * pow10((k - 1) as nat),
                m == mantissa * pow10((k - 1) as nat),
        ;
        assert((m * 10) % 10 == 0 && (m * 10) / 10 == m);
        assert(canonical(m * 10, scale + k) == canonical(m, (scale + k - 1) as nat));
        lemma_canonical_cancel(mantissa, scale, (k - 1) as nat);
    } else {
        assert(pow10(0) == 1);
        assert(mantissa * pow10(0) == mantissa);
    }
}

/// The canonical form is canonical, stands for the same number of bytes as
/// the fraction it was made from, and its mantissa and scale are no larger.
pub proof fn lemma_canonical_value(mantissa: nat, scale: nat)
    ensures
        canonical(mantissa, scale).is_canonical(),
        canonical(mantissa, scale).same_value(Quantity { mantissa, scale }),
        canonical(mantissa, scale).mantissa <= mantissa,
        canonical(mantissa, scale).scale <= scale,
    decreases scale,
{
    if scale > 0 && mantissa % 10 == 0 {
        let m = mantissa / 10;
        let s = (scale - 1) as nat;
        lemma_canonical_value(m, s);
        let c = canonical(m, s);
        assert(c.mantissa * pow10(scale) == mantissa * pow10(c.scale)) by (nonlinear_arith)
            requires
                c.mantissa * pow10(s) == m * pow10(c.scale),
                pow10(scale) == 10 * pow10(s),
                mantissa == m * 10,
        ;
    }
}

/// Two canonical quantities that stand for the same number of bytes are
/// the same quantity.
pub proof fn lemma_canonical_unique(a: Quantity, b: Quantity)
    requires
        a.is_canonical(),
        b.is_canonical(),
        a.same_value(b),
    ensures
        a == b,
    decreases a.scale + b.scale,
{
    lemma_pow10_positive(a.scale);
    lemma_pow10_positive(b.scale);
    if a.scale == 0 && b.scale == 0 {
        assert(a.mantissa * 1 == b.mantissa * 1);
    } else if a.scale > 0 && b.scale > 0 {
        let pa = pow10((a.scale - 1) as nat);
        let pb = pow10((b.scale - 1) as nat);
        assert(a.mantissa * pb == b.mantissa * pa) by (nonlinear_arith)
            requires
                a.mantissa * (10 * pb) == b.mantissa * (10 * pa),
        ;
        lemma_canonical_unique(
            Quantity { mantissa: a.mantissa, scale: (a.scale - 1) as nat },
            Quantity { mantissa: b.mantissa, scale: (b.scale - 1) as nat },
        );
    } else if a.scale > 0 {
        // a.mantissa == b.mantissa * 10^a.scale would end in 0
        let pa = pow10((a.scale - 1) as nat);
        assert(a.mantissa == (b.mantissa * pa) * 10) by (nonlinear_arith)
            requires
                a.mantissa * 1 == b.mantissa * (10 * pa),
        ;
        assert(false);
    } else {
        let pb = pow10((b.scale - 1) as nat);
        assert(b.mantissa == (a.mantissa * pb) * 10) by (nonlinear_arith)
            requires
                a.mantissa * (10 * pb) == b.mantissa * 1,
        ;
        assert(false);
    }
}

/// The four units and their multipliers: `B` is ten, `kB` a thousand, `MB`
/// a million and `GB` a thousand millions.
pub proof fn unit_multipliers()
    ensures
        unit_power("B"@) == Some(1nat) && pow10(1) == 10,
        unit_power("kB"@) == Some(3nat) && pow10(3) == 1_000,
        unit_power("MB"@) == Some(6nat) && pow10(6) == 1_000_000,
        unit_power("GB"@) == Some(9nat) && pow10(9) == 1_000_000_000,
{
    reveal_strlit("B");
    reveal_strlit("kB");
    reveal_strlit("MB");
    reveal_strlit("GB");
    assert("kB"@[0] != "B"@[0]);
    assert("MB"@[0] != "B"@[0]);
    assert("MB"@[0] != "kB"@[0]);
    assert("GB"@[0] != "B"@[0]);
    assert("GB"@[0] != "kB"@[0]);
    assert("GB"@[0] != "MB"@[0]);
    reveal_with_fuel(pow10, 10);
}

/// A text that holds a magnitude and a unit writes the magnitude times the
/// unit's multiplier, and a text that holds a magnitude alone writes the
/// magnitude times the multiplier of `B`: with `digits / 10^fraction` the
/// magnitude and `10^power` the multiplier, the quantity `q` that is read
/// is in lowest terms and `q.mantissa / 10^q.scale` equals
/// `digits / 10^fraction * 10^power`.
pub proof fn quantity_is_magnitude_times_unit(
    text: Seq<char>,
    digits: nat,
    fraction: nat,
    power: nat,
)
    requires
        magnitude(first_token(text)) == Some((digits, fraction)),
        first_token(after_first_token(text)).len() == 0 ==> power == 1,
        first_token(after_first_token(text)).len() > 0 ==> unit_power(
            first_token(after_first_token(text)),
        ) == Some(power),
    ensures
        parse_quantity(text) matches Some(q) && q.is_canonical() && q.mantissa * pow10(fraction)
            == digits * pow10(power) * pow10(q.scale),
        parse_quantity(text) == Some(canonical(digits * pow10(power), fraction)),
{
    lemma_canonical_value(digits * pow10(power), fraction);
    let number = first_token(text);
    assert(number.len() > 0) by {
        if number.len() == 0 {
            assert(unsigned_part(number) =~= number);
            assert(integer_digits(number).len() == 0);
            assert(fraction_digits(number).len() == 0);
        }
    }
}

/// A text without a magnitude, with a magnitude that is no number, or
/// with a unit other than `B`, `kB`, `MB` and `GB` is rejected.
pub proof fn malformed_quantity_is_rejected(text: Seq<char>)
    requires
        ({
            let unit = first_token(after_first_token(text));
            ||| magnitude(first_token(text)) is None
            ||| unit.len() > 0 && unit != "B"@ && unit != "kB"@ && unit != "MB"@ && unit != "GB"@
        }),
    ensures
        spec_from_str(text) == Err::<Quantity, Error>(Error::InvalidByteFormat),
{
}

/// A byte quantity: an exact, non-negative decimal number of bytes.
#[derive(Clone, Copy, Debug, PartialEq, Eq, Structural)]
pub struct Bytes {
    mantissa: u64,
    scale: u64,
}

impl View for Bytes {
    type V = Quantity;

    closed spec fn view(&self) -> Quantity {
        Quantity { mantissa: self.mantissa as nat, scale: self.scale as nat }
    }
}

impl Bytes {
    #[verifier::type_invariant]
    spec fn well_formed(self) -> bool {
        self.scale == 0 || self.mantissa % 10 != 0
    }

    /// No bytes.
    pub fn zero() -> (bytes: Bytes)
        ensures
            bytes@ == (Quantity { mantissa: 0, scale: 0 }),
    {
        Bytes { mantissa: 0, scale: 0 }
    }

    /// A whole number of bytes.
    pub fn from_whole(count: u64) -> (bytes: Bytes)
        ensures
            bytes@ == (Quantity { mantissa: count as nat, scale: 0 }),
    {
        Bytes { mantissa: count, scale: 0 }
    }

    /// The quantity `mantissa / 10^scale` bytes.
    pub fn from_decimal(mantissa: u64, scale: u64) -> (bytes: Bytes)
        ensures
            bytes@ == canonical(mantissa as nat, scale as nat),
    {
        let mut m: u64 = mantissa;
        let mut s: u64 = scale;
        while s > 0 && m % 10 == 0
            invariant
                canonical(m as nat, s as nat) == canonical(mantissa as nat, scale as nat),
            decreases s,
        {
            m = m / 10;
            s = s - 1;
        }
        Bytes { mantissa: m, scale: s }
    }

    /// The digits of the quantity: the number of bytes times ten to the
    /// [`scale`](Bytes::scale).
    pub fn mantissa(&self) -> (mantissa: u64)
        ensures
            mantissa == self@.mantissa,
    {
        self.mantissa
    }

    /// How many of the digits follow the decimal point.
    pub fn scale(&self) -> (scale: u64)
        ensures
            scale == self@.scale,
    {
        self.scale
    }

    /// Whether the two quantities are the same number of bytes. Quantities
    /// are kept in lowest terms, so this is what `==` tests.
    pub fn equals(&self, other: &Bytes) -> (b: bool)
        ensures
            b == self@.same_value(other@),
            b == (self@ == other@),
    {
        proof {
            use_type_invariant(self);
            use_type_invariant(other);
            if self@.same_value(other@) {
                lemma_canonical_unique(self@, other@);
            }
        }
        self.mantissa == other.mantissa && self.scale == other.scale
    }

    /// Whether the quantity is no bytes at all.
    pub fn is_zero(&self) -> (b: bool)
        ensures
            b == (self@.mantissa == 0),
    {
        self.mantissa == 0
    }

    /// The number of whole bytes: the quantity rounded down.
    pub fn whole(&self) -> (count: u64)
        ensures
            count == self@.whole(),
    {
        let mut m: u64 = self.mantissa;
        let mut s: u64 = self.scale;
        while s > 0 && m > 0
            invariant
                m as nat / pow10(s as nat) == self@.whole(),
            decreases s,
        {
            proof {
                lemma_pow10_positive((s - 1) as nat);
                lemma_div_denominator(m as int, 10, pow10((s - 1) as nat) as int);
            }
            m = m / 10;
            s = s - 1;
        }
        proof {
            lemma_pow10_positive(s as nat);
            if s > 0 {
                assert(0nat / pow10(s as nat) == 0) by (nonlinear_arith)
                    requires
                        pow10(s as nat) >= 1,
                ;
                assert(self@.whole() == 0);
            } else {
                assert(pow10(0) == 1);
                assert(m as nat / 1 == m);
            }
        }
        m
    }

    /// Reads a quantity such as `786.8 MB`: a decimal number, and after
    /// white space one of the units `B`, `kB`, `MB` and `GB`. Without a
    /// unit the number counts in `B`. The text is rejected if it writes no
    /// quantity, or one that is too large to be held.
    pub fn from_str(s: &str) -> (res: Result<Bytes, Error>)
        ensures
            match res {
                Ok(bytes) => spec_from_str(s@) == Ok::<Quantity, Error>(bytes@),
                Err(e) => spec_from_str(s@) == Err::<Quantity, Error>(e),
            },
    {
        let chars = chars_of(s);
        Bytes::from_chars(chars.as_slice())
    }

    /// Reads a quantity from the characters of its text.
    pub fn from_chars(text: &[char]) -> (res: Result<Bytes, Error>)
        ensures
            match res {
                Ok(bytes) => spec_from_str(text@) == Ok::<Quantity, Error>(bytes@),
                Err(e) => spec_from_str(text@) == Err::<Quantity, Error>(e),
            },
    {
        let number_start = skip_whitespace(text, 0);
        let number_end = token_end(text, number_start);
        let unit_start = skip_whitespace(text, number_end);
        let unit_end = token_end(text, unit_start);
        let number = slice_subrange(text, number_start, number_end);
        let unit = slice_subrange(text, unit_start, unit_end);
        proof {
            assert(text@.skip(0) =~= text@);
            let t = trim_start(text@);
            assert(t == text@.skip(number_start as int));
            assert(number@ =~= first_token(text@));
            assert(text@.skip(number_start as int).skip(number_end - number_start) =~= text@.skip(
                number_end as int,
            ));
            assert(after_first_token(text@) == text@.skip(number_end as int));
            assert(text@.skip(number_end as int).skip(0) =~= text@.skip(number_end as int));
            assert(unit@ =~= first_token(after_first_token(text@)));
        }
        if number.len() == 0 {
            return Err(Error::InvalidByteFormat);
        }
        let power: u64 = if unit.len() == 0 {
            1
        } else if equals_str(unit, "B") {
            1
        } else if equals_str(unit, "kB") {
            3
        } else if equals_str(unit, "MB") {
            6
        } else if equals_str(unit, "GB") {
            9
        } else {
            return Err(Error::InvalidByteFormat);
        };
        match Bytes::scaled(number, power) {
            Some(bytes) => Ok(bytes),
            None => Err(Error::InvalidByteFormat),
        }
    }

    /// Reads the magnitude token `token` and multiplies by ten to the `power`.
    /// `None` if the token is no magnitude or the product is beyond a `u64`.
    fn scaled(token: &[char], power: u64) -> (res: Option<Bytes>)
        requires
            1 <= power <= 9,
        ensures
            match magnitude(token@) {
                Some((digits, fraction)) => {
                    let q = canonical(digits * pow10(power as nat), fraction);
                    if q.mantissa <= u64::MAX {
                        res matches Some(bytes) && bytes@ == q
                    } else {
                        res is None
                    }
                },
                None => res is None,
            },
    {
        let (whole, fraction) = split_number(token);
        if (whole.len() == 0 && fraction.len() == 0) || !is_all_digits(whole) || !is_all_digits(
            fraction,
        ) {
            return None;
        }
        let kept = significant_len(fraction);
        let significant = slice_subrange(fraction, 0, kept);
        let ghost all = whole@ + significant@;
        let ghost value = digits_value(all);
        let ghost target = canonical(
            digits_value(whole@ + fraction@) * pow10(power as nat),
            fraction@.len(),
        );
        proof {
            assert(significant@ =~= fraction@.take(kept as int));
            lemma_strip_zeros(whole@, fraction@, kept as nat, power as nat);
            lemma_last_digit(whole@, significant@);
            lemma_scaled_form(value, power as nat, kept as nat);
            lemma_digits_value_prefix(all, whole@.len() as int);
            assert(all.take(whole@.len() as int) =~= whole@);
            assert(Seq::<char>::empty() + whole@ =~= whole@);
        }
        let whole_value = match extend_digits(0, whole, Ghost(Seq::empty())) {
            Some(v) => v,
            None => {
                return None;
            },
        };
        let all_value = match extend_digits(whole_value, significant, Ghost(whole@)) {
            Some(v) => v,
            None => {
                return None;
            },
        };
        if kept as u64 >= power {
            Some(Bytes { mantissa: all_value, scale: kept as u64 - power })
        } else {
            match times_pow10(all_value, power - kept as u64) {
                Some(mantissa) => Some(Bytes { mantissa, scale: 0 }),
                None => None,
            }
        }
    }
}

/// The digits of a magnitude token before and after its decimal point.
fn split_number(token: &[char]) -> (parts: (&[char], &[char]))
    ensures
        parts.0@ == integer_digits(unsigned_part(token@)),
        parts.1@ == fraction_digits(unsigned_part(token@)),
{
    let start: usize = if token.len() > 0 && token[0] == '+' {
        1
    } else {
        0
    };
    let body = slice_subrange(token, start, token.len());
    let point = find_char(body, 0, '.');
    let whole = slice_subrange(body, 0, point);
    let fraction = if point < body.len() {
        slice_subrange(body, point + 1, body.len())
    } else {
        slice_subrange(body, point, point)
    };
    proof {
        assert(body@ =~= unsigned_part(token@));
        assert(body@.skip(0) =~= body@);
        assert(whole@ =~= integer_digits(body@));
        assert(fraction@ =~= fraction_digits(body@));
    }
    (whole, fraction)
}

/// The length of `fraction` without the zeros at its end.
fn significant_len(fraction: &[char]) -> (kept: usize)
    ensures
        kept <= fraction@.len(),
        kept > 0 ==> fraction@[kept - 1] != '0',
        forall|i: int| kept <= i < fraction@.len() ==> fraction@[i] == '0',
{
    let mut kept: usize = fraction.len();
    while kept > 0 && fraction[kept - 1] == '0'
        invariant
            kept <= fraction@.len(),
            forall|i: int| kept <= i < fraction@.len() ==> fraction@[i] == '0',
        decreases kept,
    {
        kept -= 1;
    }
    kept
}

/// `value` times ten to the `power`, if a `u64` can hold it.
fn times_pow10(value: u64, power: u64) -> (res: Option<u64>)
    ensures
        match res {
            Some(product) => product == value * pow10(power as nat),
            None => value * pow10(power as nat) > u64::MAX,
        },
{
    let mut product: u64 = value;
    let mut left: u64 = power;
    while left > 0
        invariant
            product * pow10(left as nat) == value * pow10(power as nat),
        decreases left,
    {
        proof {
            lemma_pow10_positive((left - 1) as nat);
            assert(product * pow10(left as nat) == (product * 10) * pow10((left - 1) as nat))
                by (nonlinear_arith)
                requires
                    pow10(left as nat) == 10 * pow10((left - 1) as nat),
            ;
            assert((product * 10) * pow10((left - 1) as nat) >= product * 10) by (nonlinear_arith)
                requires
                    pow10((left - 1) as nat) >= 1,
            ;
        }
        if product > u64::MAX / 10 {
            return None;
        }
        product = product * 10;
        left = left - 1;
    }
    proof {
        assert(pow10(0) == 1);
        assert(product * pow10(0) == product) by (nonlinear_arith)
            requires
                pow10(0) == 1,
        ;
    }
    Some(product)
}

/// Zeros at the end of the fraction do not change the quantity.
proof fn lemma_strip_zeros(whole: Seq<char>, fraction: Seq<char>, kept: nat, power: nat)
    requires
        kept <= fraction.len(),
        forall|i: int| kept <= i < fraction.len() ==> fraction[i] == '0',
    ensures
        canonical(digits_value(whole + fraction) * pow10(power), fraction.len()) == canonical(
            digits_value(whole + fraction.take(kept as int)) * pow10(power),
            kept,
        ),
    decreases fraction.len() - kept,
{
    if kept == fraction.len() {
        assert(fraction.take(kept as int) =~= fraction);
    } else {
        let shorter = fraction.drop_last();
        assert((whole + fraction).drop_last() =~= whole + shorter);
        assert((whole + fraction).last() == '0');
        let v = digits_value(whole + shorter);
        assert(digits_value(whole + fraction) == v * 10);
        assert(pow10(0) == 1);
        assert(pow10(1) == 10 * pow10(0));
        assert(v * 10 * pow10(power) == (v * pow10(power)) * pow10(1)) by (nonlinear_arith)
            requires
                pow10(1) == 10,
        ;
        lemma_canonical_cancel(v * pow10(power), shorter.len(), 1);
        assert(shorter.take(kept as int) =~= fraction.take(kept as int));
        lemma_strip_zeros(whole, shorter, kept, power);
    }
}

/// A digit other than `0` stands for a number other than 0.
proof fn lemma_nonzero_digit(c: char)
    requires
        spec_is_digit(c),
        c != '0',
    ensures
        digit_of(c) != 0,
{
    assert('0' as u32 == 0x30);
    assert(c as u32 != 0x30);
}

/// A digit string whose fraction does not end in zero writes a number that
/// does not end in zero.
proof fn lemma_last_digit(whole: Seq<char>, significant: Seq<char>)
    requires
        all_digits(significant),
        significant.len() > 0 ==> significant.last() != '0',
    ensures
        significant.len() > 0 ==> digits_value(whole + significant) % 10 != 0,
{
    if significant.len() > 0 {
        let all = whole + significant;
        let c = significant.last();
        assert(all.last() == c);
        assert(spec_is_digit(c));
        lemma_nonzero_digit(c);
        assert(digits_value(all) == digits_value(all.drop_last()) * 10 + digit_of(c));
    }
}

/// The canonical form of `value * 10^power / 10^kept` once the fraction
/// has no zero at its end; its mantissa is at least `value`.
proof fn lemma_scaled_form(value: nat, power: nat, kept: nat)
    ensures
        kept >= power && (kept > 0 ==> value % 10 != 0) ==> canonical(value * pow10(power), kept)
            == (Quantity { mantissa: value, scale: (kept - power) as nat }),
        kept < power ==> canonical(value * pow10(power), kept) == (Quantity {
            mantissa: value * pow10((power - kept) as nat),
            scale: 0,
        }),
        kept < power ==> value * pow10((power - kept) as nat) >= value,
{
    if kept >= power {
        lemma_canonical_cancel(value, (kept - power) as nat, power);
    } else {
        let rest = (power - kept) as nat;
        lemma_pow10_add(rest, kept);
        lemma_pow10_positive(rest);
        assert(value * pow10(power) == (value * pow10(rest)) * pow10(kept)) by (nonlinear_arith)
            requires
                pow10(power) == pow10(rest) * pow10(kept),
        ;
        assert(value * pow10(rest) >= value) by (nonlinear_arith)
            requires
                pow10(rest) >= 1,
        ;
        lemma_canonical_cancel(value * pow10(rest), 0, kept);
    }
}

} // verus!
