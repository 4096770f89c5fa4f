//! The unified fund entity and its category tag.

use vstd::prelude::*;
use crate::decimal::Dec;

verus! {

/// Purchase limit standing for "effectively unlimited": one less than the
/// largest unsigned 64-bit value, leaving the true maximum free as an
/// explicit "not set" marker if ever needed.
pub const UNLIMITED_LIMIT: u64 = 18446744073709551614;

/// The three fund classifications, each with its own listing endpoint.
#[derive(Clone, Copy, Debug, PartialEq, Eq, Structural)]
pub enum FundType {
    Qdii,
    Lof,
    Commodity,
}

/// A fund as one normalized entity, constructed once per successfully parsed
/// row and immutable thereafter.
#[derive(Clone, Debug)]
pub struct Fund {
    pub fund_type: FundType,
    pub fund_id: String,
    pub fund_name: String,
    pub premium_rate: Dec,
    pub purchase_limit: u64,
}

/// The mathematical image of a [`Fund`]: text fields as character sequences.
pub struct FundV {
    pub fund_type: FundType,
    pub fund_id: Seq<char>,
    pub fund_name: Seq<char>,
    pub premium_rate: Dec,
    pub purchase_limit: u64,
}

impl View for Fund {
    type V = FundV;

    open spec fn view(&self) -> FundV {
        FundV {
            fund_type: self.fund_type,
            fund_id: self.fund_id@,
            fund_name: self.fund_name@,
            premium_rate: self.premium_rate,
            purchase_limit: self.purchase_limit,
        }
    }
}

impl Fund {
    /// Within the range the premium-rate backend supports.
    pub open spec fn wf(self) -> bool {
        self.premium_rate.wf()
    }

    pub fn new_qdii(fund_id: String, fund_name: String, premium_rate: Dec, purchase_limit: u64) -> (r: Fund)
        ensures
            r == (Fund { fund_type: FundType::Qdii, fund_id, fund_name, premium_rate, purchase_limit }),
    {
        Fund { fund_type: FundType::Qdii, fund_id, fund_name, premium_rate, purchase_limit }
    }

    pub fn new_lof(fund_id: String, fund_name: String, premium_rate: Dec, purchase_limit: u64) -> (r: Fund)
        ensures
            r == (Fund { fund_type: FundType::Lof, fund_id, fund_name, premium_rate, purchase_limit }),
    {
        Fund { fund_type: FundType::Lof, fund_id, fund_name, premium_rate, purchase_limit }
    }

    pub fn new_commodity(fund_id: String, fund_name: String, premium_rate: Dec, purchase_limit: u64) -> (r: Fund)
        ensures
            r == (Fund { fund_type: FundType::Commodity, fund_id, fund_name, premium_rate, purchase_limit }),
    {
        Fund { fund_type: FundType::Commodity, fund_id, fund_name, premium_rate, purchase_limit }
    }
}

} // verus!
