use vstd::prelude::*;

use crate::errors::LedgerError;

verus! {

/// A fixed-point decimal value, `mantissa * 10^(-scale)`: the plain-value
/// model of the 96-bit decimal domain that transactions carry.
#[derive(Clone, Copy, Debug, PartialEq, Eq, Structural)]
pub struct Amount {
    pub mantissa: i128,
    pub scale: u32,
}

impl Amount {
    /// The value lies in the representable domain: at most 28 fractional
    /// digits, and a mantissa of at most 96 bits.
    pub open spec fn valid(self) -> bool {
        &&& self.scale <= 28
        &&& -0xFFFF_FFFF_FFFF_FFFF_FFFF_FFFF <= self.mantissa <= 0xFFFF_FFFF_FFFF_FFFF_FFFF_FFFF
    }

    /// Runtime test of `valid`.
    pub fn is_valid(&self) -> (r: bool)
        ensures
            r == self.valid(),
    {
        self.scale <= 28 && -0xFFFF_FFFF_FFFF_FFFF_FFFF_FFFFi128 <= self.mantissa
            && self.mantissa <= 0xFFFF_FFFF_FFFF_FFFF_FFFF_FFFFi128
    }

    /// Constructs an amount, rejecting values outside the decimal domain with
    /// `InvalidAmount`.
    pub fn new(mantissa: i128, scale: u32) -> (r: Result<Amount, LedgerError>)
        ensures
            match r {
                Ok(a) => a == (Amount { mantissa, scale }) && a.valid(),
                Err(e) => e == LedgerError::InvalidAmount && !(Amount { mantissa, scale }).valid(),
            },
    {
        let a = Amount { mantissa, scale };
        if a.is_valid() {
            Ok(a)
        } else {
            Err(LedgerError::InvalidAmount)
        }
    }
}

/// What `rust_decimal` renders for `mantissa * 10^(-scale)`: named result of
/// `Decimal`'s `Display`, a function of mantissa and scale alone.
pub uninterp spec fn decimal_render(mantissa: i128, scale: u32) -> Seq<char>;

/// Relies on `rust_decimal::Decimal`: `from_i128_with_scale` builds the value
/// losslessly (it panics outside the valid domain, hence the `requires`) and
/// `Display` renders it as a plain decimal numeral.
#[verifier::external_body]
pub(crate) fn render_amount(a: &Amount) -> (r: String)
    requires
        a.valid(),
    ensures
        r@ == decimal_render(a.mantissa, a.scale),
{
    rust_decimal::Decimal::from_i128_with_scale(a.mantissa, a.scale).to_string()
}

} // verus!
