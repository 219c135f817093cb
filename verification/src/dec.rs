//! Arbitrary-precision signed decimal numbers, modelled as an integer
//! mantissa together with a decimal scale, and their canonical text form.

use vstd::prelude::*;
use vstd::utf8::encode_utf8;

verus! {

/// Largest mantissa magnitude the external decimal library can carry
/// (96 bits).
pub open spec fn dec_max_mantissa() -> int {
    0x1000000000000000000000000
}

/// A signed decimal number: its numeric value is `mantissa / 10^scale`.
#[derive(Debug, Clone, Copy, PartialEq, Eq, Structural)]
pub struct Dec {
    pub mantissa: i128,
    pub scale: u32,
}

impl Dec {
    /// Well-formed: the mantissa fits in 96 bits and the scale is at most 28,
    /// the limits of the external decimal representation.
    pub open spec fn wf(self) -> bool {
        -dec_max_mantissa() < (self.mantissa as int) < dec_max_mantissa() && self.scale <= 28
    }

    pub open spec fn spec_mantissa(self) -> int {
        self.mantissa as int
    }

    pub open spec fn spec_scale(self) -> nat {
        self.scale as nat
    }

    /// Builds the decimal `mantissa / 10^scale`; rejects values outside the
    /// representable range.
    pub fn new(mantissa: i128, scale: u32) -> (r: Option<Dec>)
        ensures
            match r {
                Some(d) => d.wf() && d.spec_mantissa() == mantissa as int
                    && d.spec_scale() == scale as nat,
                None => !(Dec { mantissa, scale }).wf(),
            },
    {
        if mantissa > -0x1000000000000000000000000i128 && mantissa < 0x1000000000000000000000000i128
            && scale <= 28 {
            Some(Dec { mantissa, scale })
        } else {
            None
        }
    }

    pub fn mantissa(&self) -> (r: i128)
        ensures
            r as int == self.spec_mantissa(),
    {
        self.mantissa
    }

    pub fn scale(&self) -> (r: u32)
        ensures
            r as nat == self.spec_scale(),
    {
        self.scale
    }

    /// The canonical text of this decimal, as UTF-8 bytes.
    pub open spec fn spec_text(self) -> Seq<u8> {
        dec_text(self.mantissa as int, self.scale as nat)
    }
}

/// ASCII digit for one decimal digit value.
pub open spec fn digit_byte(d: int) -> u8
    recommends
        0 <= d < 10,
{
    (48 + d) as u8
}

/// The decimal digits of `n`, most significant first.
pub open spec fn nat_digits(n: int) -> Seq<u8>
    recommends
        n >= 0,
    decreases n,
{
    if n < 10 {
        seq![digit_byte(n)]
    } else {
        nat_digits(n / 10).push(digit_byte(n % 10))
    }
}

/// Left-pads `s` with ASCII zeros to at least `k` bytes.
pub open spec fn pad_zeros(s: Seq<u8>, k: int) -> Seq<u8>
    decreases k - s.len(),
{
    if s.len() >= k {
        s
    } else {
        pad_zeros(seq![48u8].add(s), k)
    }
}

/// Canonical decimal text for `mantissa / 10^scale`: an optional minus sign,
/// the integer digits, and, when the scale is positive, a point followed by
/// exactly `scale` fraction digits (trailing zeros kept).
pub open spec fn dec_text(mantissa: int, scale: nat) -> Seq<u8> {
    let mag = if mantissa < 0 { -mantissa } else { mantissa };
    let digits = pad_zeros(nat_digits(mag), scale as int + 1);
    let body = if scale == 0 {
        digits
    } else {
        digits.subrange(0, digits.len() - scale).add(seq![46u8]).add(
            digits.subrange(digits.len() - scale, digits.len() as int),
        )
    };
    if mantissa < 0 {
        seq![45u8].add(body)
    } else {
        body
    }
}

/// Relies on rust_decimal's display of `from_i128_with_scale`: the sign,
/// the integer digits, and, for a positive scale, a point and exactly
/// `scale` fraction digits with trailing zeros kept.
#[verifier::external_body]
pub(crate) fn dec_to_string(d: &Dec) -> (r: String)
    requires
        d.wf(),
    ensures
        encode_utf8(r@) == d.spec_text(),
{
    rust_decimal::Decimal::from_i128_with_scale(d.mantissa, d.scale).to_string()
}

} // verus!
