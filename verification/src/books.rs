//! Bookkeeping profile data: tax and VAT choices loaded from data files.
use vstd::prelude::*;

verus! {

/// Tax and VAT profile loaded from data.
#[derive(Clone, Debug, PartialEq, Eq)]
pub struct TaxProfile {
    /// Stable profile id.
    pub id: String,
    /// VAT rates available to tests or local hosts.
    pub vat_rates: Vec<VatRate>,
}

/// One named VAT rate.
#[derive(Clone, Debug, PartialEq, Eq)]
pub struct VatRate {
    /// Stable rate code.
    pub code: String,
    /// Decimal percent kept as data text, not a hardwired float.
    pub percent: String,
}

} // verus!
