use vstd::prelude::*;

verus! {

/// The kind of an incoming transaction record.
#[derive(Clone, Copy, Debug, PartialEq, Eq, Structural)]
pub enum TransactionType {
    Deposit,
    Withdrawal,
    Dispute,
    Resolve,
    Chargeback,
}

/// rust_decimal's exact decimal type, used by the stream driver for raw
/// amounts.  Its value is opaque here; validation extracts its mantissa and
/// scale as plain integers and from then on everything is fixed-point
/// arithmetic on `i128` units.
#[verifier::external_type_specification]
#[verifier::external_body]
pub struct ExDecimal(rust_decimal::Decimal);

/// A raw transaction record, as deserialized from one input row and before
/// any validation.
pub struct Transaction {
    pub tx_type: TransactionType,
    pub client: u16,
    pub tx: u32,
    pub amount: Option<rust_decimal::Decimal>,
}

/// An already-validated transaction, the only form the payments engine
/// accepts.  The amount is an exact fixed-point decimal in units of
/// 1/10_000, so rounding to four decimal digits is inherent in the
/// representation.
#[derive(Clone, Copy, Debug, PartialEq, Eq, Structural)]
pub struct ValidTransaction {
    pub tx_type: TransactionType,
    pub client: u16,
    pub tx: u32,
    pub amount: Option<i128>,
}

impl ValidTransaction {
    /// What validation guarantees: deposits and withdrawals carry a strictly
    /// positive amount; the dispute-family kinds carry none.
    pub open spec fn wf(self) -> bool {
        if self.tx_type == TransactionType::Deposit || self.tx_type == TransactionType::Withdrawal {
            self.amount is Some && self.amount.unwrap() > 0
        } else {
            self.amount is None
        }
    }
}

/// A `Decimal` mantissa is a 96-bit signed magnitude, so it is strictly
/// below this bound in absolute value.
pub const MANTISSA_BOUND: i128 = 0x1000000000000000000000000;

/// The mantissa a decimal has after rounding to four fractional digits
/// with banker's rounding.  Rounding depends on the decimal's value alone,
/// so this is a function of its argument.
pub uninterp spec fn round4_mantissa(d: rust_decimal::Decimal) -> i128;

/// The scale a decimal has after rounding to four fractional digits: the
/// number of fractional decimal digits the rounded value carries.
pub uninterp spec fn round4_scale(d: rust_decimal::Decimal) -> u32;

/// Relies on rust_decimal's `Decimal::round_dp`: rounds to four decimal
/// digits of fractional portion with banker's rounding, so the result's
/// scale is at most four (a smaller scale is kept unchanged, a larger one
/// becomes exactly four); `mantissa` and `scale` then read the rounded
/// value back as plain integers, the mantissa a 96-bit signed magnitude.
#[verifier::external_body]
pub(crate) fn round4_parts(d: &rust_decimal::Decimal) -> (p: (i128, u32))
    ensures
        p.0 == round4_mantissa(*d),
        p.1 == round4_scale(*d),
        -MANTISSA_BOUND < p.0 < MANTISSA_BOUND,
        p.1 <= 4,
{
    let r = d.round_dp(4);
    (r.mantissa(), r.scale())
}

/// Ten to the power `e`.
pub open spec fn pow10(e: nat) -> int
    decreases e,
{
    if e == 0 {
        1
    } else {
        10 * pow10((e - 1) as nat)
    }
}

/// Converts a decimal written as `mantissa * 10^-scale` into fixed-point
/// units of 1/10_000.  Exact whenever the scale is at most four digits;
/// a larger scale (never produced by rounding to four digits) is refused.
pub fn amount_units(mantissa: i128, scale: u32) -> (r: Option<i128>)
    requires
        -MANTISSA_BOUND < mantissa < MANTISSA_BOUND,
    ensures
        scale <= 4 ==> r is Some && r.unwrap() == mantissa * pow10((4 - scale) as nat),
        scale > 4 ==> r is None,
{
    proof {
        reveal_with_fuel(pow10, 5);
    }
    let factor: i128 = if scale == 0 {
        10000
    } else if scale == 1 {
        1000
    } else if scale == 2 {
        100
    } else if scale == 3 {
        10
    } else if scale == 4 {
        1
    } else {
        return None;
    };
    proof {
        assert(-MANTISSA_BOUND * 10000 <= mantissa * factor <= MANTISSA_BOUND * 10000)
            by (nonlinear_arith)
            requires
                -MANTISSA_BOUND < mantissa < MANTISSA_BOUND,
                1 <= factor <= 10000,
        ;
    }
    Some(mantissa * factor)
}

/// The whole validation decision once an amount's mantissa and scale are
/// in hand: a deposit or withdrawal is accepted exactly when its rounded
/// amount is representable and strictly positive; the dispute-family
/// kinds are accepted unconditionally and carry no amount.
pub fn validated_from_parts(
    tx_type: TransactionType,
    client: u16,
    tx: u32,
    mantissa: i128,
    scale: u32,
) -> (r: Option<ValidTransaction>)
    requires
        -MANTISSA_BOUND < mantissa < MANTISSA_BOUND,
    ensures
        (tx_type == TransactionType::Deposit || tx_type == TransactionType::Withdrawal) ==> {
            &&& (r is Some <==> scale <= 4 && mantissa > 0)
            &&& r is Some ==> r.unwrap().amount is Some && r.unwrap().amount.unwrap() == mantissa
                * pow10((4 - scale) as nat)
        },
        !(tx_type == TransactionType::Deposit || tx_type == TransactionType::Withdrawal) ==> r
            == Some(ValidTransaction { tx_type, client, tx, amount: None }),
        r is Some ==> r.unwrap().wf() && r.unwrap().tx_type == tx_type && r.unwrap().client
            == client && r.unwrap().tx == tx,
{
    if tx_type == TransactionType::Deposit || tx_type == TransactionType::Withdrawal {
        match amount_units(mantissa, scale) {
            Some(units) => {
                if units > 0 {
                    proof {
                        reveal_with_fuel(pow10, 5);
                        assert(units > 0 ==> mantissa > 0) by (nonlinear_arith)
                            requires
                                units == mantissa * pow10((4 - scale) as nat),
                                pow10((4 - scale) as nat) > 0,
                        ;
                    }
                    Some(ValidTransaction { tx_type, client, tx, amount: Some(units) })
                } else {
                    proof {
                        reveal_with_fuel(pow10, 5);
                        assert(units <= 0 ==> mantissa <= 0) by (nonlinear_arith)
                            requires
                                units == mantissa * pow10((4 - scale) as nat),
                                pow10((4 - scale) as nat) > 0,
                        ;
                    }
                    // amount must be positive
                    None
                }
            },
            None => None,
        }
    } else {
        Some(ValidTransaction { tx_type, client, tx, amount: None })
    }
}

impl Transaction {
    /// Pre-engine validation of one raw record.  For deposits and
    /// withdrawals the amount must be present and, after rounding to four
    /// decimal digits, strictly greater than zero; the resulting
    /// fixed-point amount is carried in the validated transaction.  The
    /// dispute-family kinds pass unconditionally and carry no amount.
    pub fn validate(&self) -> (r: Option<ValidTransaction>)
        ensures
            r is Some ==> {
                let v = r.unwrap();
                &&& v.wf()
                &&& v.tx_type == self.tx_type
                &&& v.client == self.client
                &&& v.tx == self.tx
            },
            !(self.tx_type == TransactionType::Deposit || self.tx_type
                == TransactionType::Withdrawal) ==> r == Some(
                ValidTransaction {
                    tx_type: self.tx_type,
                    client: self.client,
                    tx: self.tx,
                    amount: None,
                },
            ),
            (self.tx_type == TransactionType::Deposit || self.tx_type
                == TransactionType::Withdrawal) && self.amount is None ==> r is None,
            (self.tx_type == TransactionType::Deposit || self.tx_type
                == TransactionType::Withdrawal) && self.amount is Some ==> {
                let m = round4_mantissa(self.amount.unwrap());
                let sc = round4_scale(self.amount.unwrap());
                &&& (r is Some <==> m > 0)
                &&& r is Some ==> r.unwrap().amount is Some && r.unwrap().amount.unwrap() == m
                    * pow10((4 - sc) as nat)
            },
    {
        if self.tx_type == TransactionType::Deposit || self.tx_type
            == TransactionType::Withdrawal {
            match &self.amount {
                Some(raw) => {
                    let (mantissa, scale) = round4_parts(raw);
                    validated_from_parts(self.tx_type, self.client, self.tx, mantissa, scale)
                },
                None => {
                    // amount must be present
                    None
                },
            }
        } else {
            Some(
                ValidTransaction {
                    tx_type: self.tx_type,
                    client: self.client,
                    tx: self.tx,
                    amount: None,
                },
            )
        }
    }
}

} // verus!
