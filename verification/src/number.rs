//! JSON numbers.

use crate::text::{
    all_digits, decimal, digits_value, lemma_decimal_value, parse_digits, to_chars,
};
use vstd::prelude::*;
use vstd::string::*;

verus! {

/// `serde_json::Number`: a JSON number, integer or not.
#[verifier::external_type_specification]
#[verifier::external_body]
pub struct ExNumber(serde_json::Number);

/// The text that `Display` of `serde_json::Number` writes.
pub uninterp spec fn number_text(n: serde_json::Number) -> Seq<char>;

/// `<serde_json::Number as ToString>::to_string`: the text of a number, as it
/// stands in a JSON document.
#[verifier::external_body]
fn show_number(n: &serde_json::Number) -> (s: String)
    ensures
        s@ == number_text(*n),
{
    n.to_string()
}

/// `<serde_json::Number as Clone>::clone`: the same number.
#[verifier::external_body]
fn clone_number(n: &serde_json::Number) -> (copy: serde_json::Number)
    ensures
        copy == *n,
{
    n.clone()
}

/// `<serde_json::Number as From<u64>>::from`: a number that is written in decimal digits.
#[verifier::external_body]
fn number_from_u64(n: u64) -> (number: serde_json::Number)
    ensures
        number_text(number) == decimal(n as nat),
{
    serde_json::Number::from(n)
}

/// `<serde_json::Number as From<i64>>::from`: a number that is written in decimal
/// digits, with a minus sign in front of a negative one.
#[verifier::external_body]
fn number_from_i64(n: i64) -> (number: serde_json::Number)
    ensures
        n >= 0 ==> number_text(number) == decimal(n as nat),
        n < 0 ==> number_text(number) == seq!['-'] + decimal((-n) as nat),
{
    serde_json::Number::from(n)
}

/// The text of the double-precision number nearest to what a number text writes.
pub uninterp spec fn float_text(text: Seq<char>) -> Seq<char>;

/// `serde_json::Number::as_f64`, taken back into a number by
/// `serde_json::Number::from_f64`: the number in double precision. Every number has
/// one, and a double is always written with a point or an exponent.
#[verifier::external_body]
fn number_as_float(n: &serde_json::Number) -> (float: Option<serde_json::Number>)
    ensures
        float is Some,
        number_text(float->0) == float_text(number_text(*n)),
        !all_digits(number_text(float->0)),
{
    n.as_f64().and_then(serde_json::Number::from_f64)
}

/// Whether a number text writes an integer that fits `u64`.
pub open spec fn is_unsigned(text: Seq<char>) -> bool {
    all_digits(text) && digits_value(text) <= u64::MAX
}

/// A number that is not an integer from 0 to `u64::MAX`.
#[derive(Debug, PartialEq)]
pub struct Decimal {
    inner: serde_json::Number,
}

impl View for Decimal {
    type V = Seq<char>;

    closed spec fn view(&self) -> Seq<char> {
        number_text(self.inner)
    }
}

impl Decimal {
    #[verifier::type_invariant]
    spec fn well_formed(self) -> bool {
        !is_unsigned(number_text(self.inner))
    }

    fn copy(&self) -> (d: Decimal)
        ensures
            d@ == self@,
    {
        proof {
            use_type_invariant(self);
        }
        Decimal { inner: clone_number(&self.inner) }
    }
}

/// A JSON number: an integer that fits `u64`, or any other number.
#[derive(Debug, PartialEq)]
pub enum JsonNumber {
    Unsigned(u64),
    Other(Decimal),
}

/// What a [`JsonNumber`] stands for; a number that does not fit `u64` is its text.
#[verifier::ext_equal]
pub enum Num {
    Unsigned(u64),
    Other(Seq<char>),
}

impl View for JsonNumber {
    type V = Num;

    open spec fn view(&self) -> Num {
        match *self {
            JsonNumber::Unsigned(n) => Num::Unsigned(n),
            JsonNumber::Other(d) => Num::Other(d@),
        }
    }
}

/// The number that a text writes.
pub open spec fn num_of_text(text: Seq<char>) -> Num {
    if is_unsigned(text) {
        Num::Unsigned(digits_value(text) as u64)
    } else {
        Num::Other(text)
    }
}

impl Num {
    /// The text of a number.
    pub open spec fn text(self) -> Seq<char> {
        match self {
            Num::Unsigned(n) => decimal(n as nat),
            Num::Other(t) => t,
        }
    }

    /// The integer, where it fits `u64`.
    pub open spec fn as_u64(self) -> Option<u64> {
        match self {
            Num::Unsigned(n) => Some(n),
            Num::Other(_) => None,
        }
    }

    /// The integer, where it fits `i64`.
    pub open spec fn as_i64(self) -> Option<i64> {
        match self {
            Num::Unsigned(n) => if n <= i64::MAX {
                Some(n as i64)
            } else {
                None
            },
            Num::Other(t) => {
                let digits = t.skip(1);
                if t.len() > 0 && t[0] == '-' && all_digits(digits) && 1 <= digits_value(digits)
                    <= i64::MAX + 1 {
                    Some((-digits_value(digits)) as i64)
                } else {
                    None
                }
            },
        }
    }

    /// Whether the number is greater than zero: it has no minus sign and a digit other
    /// than zero before its exponent.
    pub open spec fn is_positive(self) -> bool {
        match self {
            Num::Unsigned(n) => n > 0,
            Num::Other(t) => t.len() > 0 && t[0] != '-' && has_significant_digit(t),
        }
    }

    /// The number in double precision.
    pub open spec fn as_float(self) -> Num {
        Num::Other(float_text(self.text()))
    }
}

/// Whether a digit from 1 to 9 stands in a number text before its exponent.
pub open spec fn has_significant_digit(t: Seq<char>) -> bool
    decreases t.len(),
{
    if t.len() == 0 || t[0] == 'e' || t[0] == 'E' {
        false
    } else {
        '1' <= t[0] <= '9' || has_significant_digit(t.skip(1))
    }
}

/// The number of an integer.
pub open spec fn num_of_i64(n: i64) -> Num {
    if n >= 0 {
        Num::Unsigned(n as u64)
    } else {
        Num::Other(seq!['-'] + decimal((-n) as nat))
    }
}

impl Clone for JsonNumber {
    fn clone(&self) -> (copy: Self)
        ensures
            copy@ == self@,
    {
        match self {
            JsonNumber::Unsigned(n) => JsonNumber::Unsigned(*n),
            JsonNumber::Other(d) => JsonNumber::Other(d.copy()),
        }
    }
}

impl JsonNumber {
    /// The number of an integer.
    pub fn from_i64(n: i64) -> (number: JsonNumber)
        ensures
            number@ == num_of_i64(n),
    {
        if n >= 0 {
            JsonNumber::Unsigned(n as u64)
        } else {
            let inner = number_from_i64(n);
            assert(!all_digits(number_text(inner))) by {
                assert(number_text(inner)[0] == '-');
            }
            JsonNumber::Other(Decimal { inner })
        }
    }

    /// Takes over a parsed number.
    pub(crate) fn from_serde(n: &serde_json::Number) -> (number: JsonNumber)
        ensures
            number@ == num_of_text(number_text(*n)),
    {
        let text = show_number(n);
        let chars = to_chars(text.as_str());
        assert(chars@.skip(0) =~= chars@);
        match parse_digits(&chars, 0) {
            Some(v) => JsonNumber::Unsigned(v),
            None => JsonNumber::Other(Decimal { inner: clone_number(n) }),
        }
    }

    /// Hands a number over for writing.
    pub(crate) fn to_serde(&self) -> (n: serde_json::Number)
        ensures
            num_of_text(number_text(n)) == self@,
    {
        match self {
            JsonNumber::Unsigned(v) => {
                proof {
                    lemma_decimal_value(*v as nat);
                }
                number_from_u64(*v)
            },
            JsonNumber::Other(d) => {
                proof {
                    use_type_invariant(d);
                }
                clone_number(&d.inner)
            },
        }
    }

    pub fn as_u64(&self) -> (n: Option<u64>)
        ensures
            n == self@.as_u64(),
    {
        match self {
            JsonNumber::Unsigned(n) => Some(*n),
            JsonNumber::Other(_) => None,
        }
    }

    pub fn as_i64(&self) -> (n: Option<i64>)
        ensures
            n == self@.as_i64(),
    {
        match self {
            JsonNumber::Unsigned(n) => if *n <= i64::MAX as u64 {
                Some(*n as i64)
            } else {
                None
            },
            JsonNumber::Other(d) => {
                let text = show_number(&d.inner);
                let chars = to_chars(text.as_str());
                if chars.len() == 0 || chars[0] != '-' {
                    return None;
                }
                match parse_digits(&chars, 1) {
                    Some(v) => if v == 0 || v > i64::MAX as u64 + 1 {
                        None
                    } else if v == i64::MAX as u64 + 1 {
                        Some(i64::MIN)
                    } else {
                        Some(-(v as i64))
                    },
                    None => None,
                }
            },
        }
    }

    /// Whether the number is greater than zero.
    pub fn is_positive(&self) -> (b: bool)
        ensures
            b == self@.is_positive(),
    {
        match self {
            JsonNumber::Unsigned(n) => *n > 0,
            JsonNumber::Other(d) => {
                let text = show_number(&d.inner);
                let chars = to_chars(text.as_str());
                if chars.len() == 0 || chars[0] == '-' {
                    return false;
                }
                let mut i: usize = 0;
                assert(chars@.skip(0) =~= chars@);
                while i < chars.len()
                    invariant
                        i <= chars@.len(),
                        chars@ == d@,
                        chars@.len() > 0,
                        chars@[0] != '-',
                        self@ == Num::Other(d@),
                        has_significant_digit(chars@) == has_significant_digit(chars@.skip(i as int)),
                    decreases chars@.len() - i,
                {
                    let c = chars[i];
                    assert(chars@.skip(i as int).skip(1) =~= chars@.skip(i + 1));
                    if c == 'e' || c == 'E' {
                        return false;
                    }
                    if '1' <= c && c <= '9' {
                        return true;
                    }
                    i += 1;
                }
                false
            },
        }
    }

    /// The number in double precision.
    pub fn as_float(&self) -> (float: JsonNumber)
        ensures
            float@ == self@.as_float(),
    {
        let n = match self {
            JsonNumber::Unsigned(v) => number_from_u64(*v),
            JsonNumber::Other(d) => clone_number(&d.inner),
        };
        match number_as_float(&n) {
            Some(inner) => JsonNumber::Other(Decimal { inner }),
            None => self.clone(),
        }
    }
}

/// A number that is written in digits is that number, and every number is written as it
/// was given. An integer reads back as itself.
pub proof fn law_numbers_read_back(n: nat, i: i64, text: Seq<char>)
    ensures
        n <= u64::MAX ==> num_of_text(decimal(n)) == Num::Unsigned(n as u64),
        n <= u64::MAX ==> Num::Unsigned(n as u64).text() == decimal(n),
        n > u64::MAX ==> num_of_text(decimal(n)) == Num::Other(decimal(n)),
        !all_digits(text) ==> num_of_text(text).text() == text,
        num_of_i64(i).as_i64() == Some(i),
        i >= 0 ==> num_of_i64(i).as_u64() == Some(i as u64),
        i < 0 ==> num_of_i64(i).as_u64() is None,
        num_of_i64(i).is_positive() <==> i > 0,
{
    lemma_decimal_value(n);
    if i < 0 {
        lemma_decimal_value((-i) as nat);
        let t = seq!['-'] + decimal((-i) as nat);
        assert(t.skip(1) =~= decimal((-i) as nat));
        assert(t[0] == '-');
    }
}

/// A number that is not an integer is positive if it has no sign and is not zero: some
/// digit before its exponent is not a zero.
pub proof fn law_positive_numbers_have_a_digit(a: Seq<char>, d: char, b: Seq<char>)
    requires
        '1' <= d <= '9',
        forall|i: int| 0 <= i < a.len() ==> #[trigger] a[i] == '0' || a[i] == '.',
    ensures
        Num::Other(a + seq![d] + b).is_positive(),
        !Num::Other(seq!['-'] + a + seq![d] + b).is_positive(),
        !Num::Other(a).is_positive(),
    decreases a.len(),
{
    let t = a + seq![d] + b;
    if a.len() == 0 {
        assert(t[0] == d);
    } else {
        let rest = a.skip(1);
        assert(a[0] == '0' || a[0] == '.');
        assert forall|i: int| 0 <= i < rest.len() implies #[trigger] rest[i] == '0' || rest[i]
            == '.' by {
            assert(a[i + 1] == '0' || a[i + 1] == '.');
        }
        law_positive_numbers_have_a_digit(rest, d, b);
        assert(t[0] == a[0]);
        assert(t.skip(1) =~= rest + seq![d] + b);
        let u = rest + seq![d] + b;
        assert(u[0] == (if rest.len() > 0 {
            rest[0]
        } else {
            d
        }));
        if rest.len() > 0 {
            assert(rest[0] != '-');
        }
        assert(has_significant_digit(u));
        assert(!has_significant_digit(rest)) by {
            lemma_zeros(rest);
        }
    }
    assert((seq!['-'] + a + seq![d] + b)[0] == '-');
    lemma_zeros(a);
}

proof fn lemma_zeros(a: Seq<char>)
    requires
        forall|i: int| 0 <= i < a.len() ==> #[trigger] a[i] == '0' || a[i] == '.',
    ensures
        !has_significant_digit(a),
    decreases a.len(),
{
    if a.len() > 0 {
        assert(a[0] == '0' || a[0] == '.');
        assert forall|i: int| 0 <= i < a.skip(1).len() implies #[trigger] a.skip(1)[i] == '0'
            || a.skip(1)[i] == '.' by {
            assert(a[i + 1] == '0' || a[i + 1] == '.');
        }
        lemma_zeros(a.skip(1));
    }
}

} // verus!
