//! Per-category row schemas and their conversion into the unified entity.
//!
//! The three categories share one wire shape: a response with an ordered row
//! sequence and a page number, each row wrapping an identifier and a cell of
//! raw textual fields. Conversion computes the premium rate with
//! [`parse_percent`] — rejecting the row when that fails — and the purchase
//! limit with [`parse_apply_status_limit`], which never fails; the category
//! tag alone tells the three apart, so the conversion logic exists once.

use vstd::prelude::*;
use crate::decimal::{all_dec_alphabet, dec_of_lit, is_dec_lit};
use crate::fund::{Fund, FundType, FundV};
use crate::parse::{clean_percent, parse_apply_status_limit, parse_percent, spec_apply_status_limit};

verus! {

/// The mathematical image of a cell: the raw fields as character sequences.
pub struct CellV {
    pub fund_id: Seq<char>,
    pub fund_nm: Seq<char>,
    pub discount_rt: Seq<char>,
    pub apply_status: Seq<char>,
}

/// The cleaned discount field is a decimal literal in range: the row
/// converts, and to a pinned premium rate.
pub open spec fn cell_ok(c: CellV) -> bool {
    is_dec_lit(clean_percent(c.discount_rt))
}

/// The cleaned discount field holds a character no numeric literal may:
/// the row is rejected.
pub open spec fn cell_rejected(c: CellV) -> bool {
    !all_dec_alphabet(clean_percent(c.discount_rt))
}

/// The discount field's fate is settled one way or the other.
pub open spec fn cell_decided(c: CellV) -> bool {
    cell_ok(c) || cell_rejected(c)
}

/// The fund a convertible cell yields.
pub open spec fn spec_cell_fund(c: CellV, category: FundType) -> FundV {
    FundV {
        fund_type: category,
        fund_id: c.fund_id,
        fund_name: c.fund_nm,
        premium_rate: dec_of_lit(clean_percent(c.discount_rt)),
        purchase_limit: spec_apply_status_limit(c.apply_status),
    }
}

/// What converting one cell guarantees: a convertible cell yields its pinned
/// fund; a conversion error carries the offending raw discount text and only
/// arises when the cell is not convertible.
pub open spec fn conversion_ok(c: CellV, category: FundType, r: Result<Fund, String>) -> bool {
    &&& (cell_ok(c) ==> r is Ok)
    &&& match r {
        Ok(f) => {
            &&& f@.fund_type == category
            &&& f@.fund_id == c.fund_id
            &&& f@.fund_name == c.fund_nm
            &&& f.wf()
            &&& f@.purchase_limit == spec_apply_status_limit(c.apply_status)
            &&& all_dec_alphabet(clean_percent(c.discount_rt))
            &&& (cell_ok(c) ==> f@.premium_rate == dec_of_lit(clean_percent(c.discount_rt)))
        },
        Err(e) => e@ == c.discount_rt && !cell_ok(c),
    }
}

/// The funds one page of decided cells yields, convertible cells in order,
/// rejected ones dropped.
pub open spec fn spec_page_funds(cells: Seq<CellV>, category: FundType) -> Seq<FundV>
    decreases cells.len(),
{
    if cells.len() == 0 {
        Seq::empty()
    } else if cell_ok(cells.last()) {
        spec_page_funds(cells.drop_last(), category).push(spec_cell_fund(cells.last(), category))
    } else {
        spec_page_funds(cells.drop_last(), category)
    }
}

/// Converts one cell's raw fields into a fund tagged with `category`, or
/// reports the unparseable discount text.
fn fund_from_fields(
    category: FundType,
    fund_id: &String,
    fund_nm: &String,
    discount_rt: &String,
    apply_status: &String,
) -> (r: Result<Fund, String>)
    ensures
        conversion_ok(
            CellV {
                fund_id: fund_id@,
                fund_nm: fund_nm@,
                discount_rt: discount_rt@,
                apply_status: apply_status@,
            },
            category,
            r,
        ),
{
    match parse_percent(discount_rt.as_str()) {
        Some(rate) => {
            let limit = parse_apply_status_limit(apply_status.as_str());
            Ok(
                Fund {
                    fund_type: category,
                    fund_id: fund_id.clone(),
                    fund_name: fund_nm.clone(),
                    premium_rate: rate,
                    purchase_limit: limit,
                },
            )
        },
        None => Err(discount_rt.clone()),
    }
}

// ---------------------------------------------------------------------------
// QDII
// ---------------------------------------------------------------------------
/// One QDII listing cell: raw textual fields as the endpoint sends them.
pub struct QdiiCell {
    pub fund_id: String,
    pub fund_nm: String,
    pub price: Option<String>,
    pub discount_rt: String,
    pub min_amt: Option<String>,
    pub apply_status: String,
    pub redeem_status: Option<String>,
    pub apply_redeem_status: Option<String>,
}

impl View for QdiiCell {
    type V = CellV;

    open spec fn view(&self) -> CellV {
        CellV {
            fund_id: self.fund_id@,
            fund_nm: self.fund_nm@,
            discount_rt: self.discount_rt@,
            apply_status: self.apply_status@,
        }
    }
}

/// One QDII listing row: an identifier wrapping a cell.
pub struct QdiiRow {
    pub id: String,
    pub cell: QdiiCell,
}

/// One page of the QDII listing.
pub struct QdiiResponse {
    pub rows: Vec<QdiiRow>,
    pub page: usize,
}

impl QdiiRow {
    /// Converts this row into a fund, or reports the unparseable discount
    /// text; the row is then dropped, never defaulted.
    pub fn to_fund(&self) -> (r: Result<Fund, String>)
        ensures
            conversion_ok(self.cell@, FundType::Qdii, r),
    {
        fund_from_fields(
            FundType::Qdii,
            &self.cell.fund_id,
            &self.cell.fund_nm,
            &self.cell.discount_rt,
            &self.cell.apply_status,
        )
    }
}

impl QdiiResponse {
    /// Converts every row of this page, dropping the rows whose discount
    /// text does not parse.
    pub fn funds(&self) -> (out: Vec<Fund>)
        ensures
            (forall|i: int|
                0 <= i < self.rows@.len() ==> cell_decided(#[trigger] self.rows@[i].cell@))
                ==> out@.map_values(|f: Fund| f@) == spec_page_funds(
                self.rows@.map_values(|r: QdiiRow| r.cell@),
                FundType::Qdii,
            ),
            forall|j: int|
                0 <= j < out@.len() ==> (#[trigger] out@[j]).wf() && out@[j].fund_type
                    == FundType::Qdii,
            out@.len() <= self.rows@.len(),
    {
        let ghost cells = self.rows@.map_values(|r: QdiiRow| r.cell@);
        let mut out: Vec<Fund> = Vec::new();
        let mut i: usize = 0;
        while i < self.rows.len()
            invariant
                i <= self.rows@.len(),
                cells == self.rows@.map_values(|r: QdiiRow| r.cell@),
                (forall|x: int| 0 <= x < i ==> cell_decided(#[trigger] self.rows@[x].cell@))
                    ==> out@.map_values(|f: Fund| f@) == spec_page_funds(
                    cells.take(i as int),
                    FundType::Qdii,
                ),
                forall|j: int|
                    0 <= j < out@.len() ==> (#[trigger] out@[j]).wf() && out@[j].fund_type
                        == FundType::Qdii,
                out@.len() <= i,
            decreases self.rows@.len() - i,
        {
            let ghost out_pre = out@;
            let converted = self.rows[i].to_fund();
            proof {
                assert(cells.take(i + 1).drop_last() =~= cells.take(i as int));
                assert(cells.take(i + 1).last() == self.rows@[i as int].cell@);
            }
            match converted {
                Ok(f) => {
                    out.push(f);
                    proof {
                        assert(out@.map_values(|f: Fund| f@) =~= out_pre.map_values(
                            |f: Fund| f@,
                        ).push(out@.last()@));
                    }
                },
                Err(_) => {},
            }
            proof {
                if forall|x: int| 0 <= x < i + 1 ==> cell_decided(#[trigger] self.rows@[x].cell@) {
                    assert(cell_decided(self.rows@[i as int].cell@));
                }
            }
            i += 1;
        }
        proof {
            assert(cells.take(self.rows@.len() as int) =~= cells);
        }
        out
    }
}

// ---------------------------------------------------------------------------
// Commodity
// ---------------------------------------------------------------------------
/// One commodity listing cell: raw textual fields as the endpoint sends them.
pub struct CommodityCell {
    pub fund_id: String,
    pub fund_nm: String,
    pub price: Option<String>,
    pub discount_rt: String,
    pub min_amt: Option<String>,
    pub apply_status: String,
    pub redeem_status: Option<String>,
    pub apply_redeem_status: Option<String>,
}

impl View for CommodityCell {
    type V = CellV;

    open spec fn view(&self) -> CellV {
        CellV {
            fund_id: self.fund_id@,
            fund_nm: self.fund_nm@,
            discount_rt: self.discount_rt@,
            apply_status: self.apply_status@,
        }
    }
}

/// One commodity listing row: an identifier wrapping a cell.
pub struct CommodityRow {
    pub id: String,
    pub cell: CommodityCell,
}

/// One page of the commodity listing.
pub struct CommodityResponse {
    pub rows: Vec<CommodityRow>,
    pub page: usize,
}

impl CommodityRow {
    /// Converts this row into a fund, or reports the unparseable discount
    /// text; the row is then dropped, never defaulted.
    pub fn to_fund(&self) -> (r: Result<Fund, String>)
        ensures
            conversion_ok(self.cell@, FundType::Commodity, r),
    {
        fund_from_fields(
            FundType::Commodity,
            &self.cell.fund_id,
            &self.cell.fund_nm,
            &self.cell.discount_rt,
            &self.cell.apply_status,
        )
    }
}

impl CommodityResponse {
    /// Converts every row of this page, dropping the rows whose discount
    /// text does not parse.
    pub fn funds(&self) -> (out: Vec<Fund>)
        ensures
            (forall|i: int|
                0 <= i < self.rows@.len() ==> cell_decided(#[trigger] self.rows@[i].cell@))
                ==> out@.map_values(|f: Fund| f@) == spec_page_funds(
                self.rows@.map_values(|r: CommodityRow| r.cell@),
                FundType::Commodity,
            ),
            forall|j: int|
                0 <= j < out@.len() ==> (#[trigger] out@[j]).wf() && out@[j].fund_type
                    == FundType::Commodity,
            out@.len() <= self.rows@.len(),
    {
        let ghost cells = self.rows@.map_values(|r: CommodityRow| r.cell@);
        let mut out: Vec<Fund> = Vec::new();
        let mut i: usize = 0;
        while i < self.rows.len()
            invariant
                i <= self.rows@.len(),
                cells == self.rows@.map_values(|r: CommodityRow| r.cell@),
                (forall|x: int| 0 <= x < i ==> cell_decided(#[trigger] self.rows@[x].cell@))
                    ==> out@.map_values(|f: Fund| f@) == spec_page_funds(
                    cells.take(i as int),
                    FundType::Commodity,
                ),
                forall|j: int|
                    0 <= j < out@.len() ==> (#[trigger] out@[j]).wf() && out@[j].fund_type
                        == FundType::Commodity,
                out@.len() <= i,
            decreases self.rows@.len() - i,
        {
            let ghost out_pre = out@;
            let converted = self.rows[i].to_fund();
            proof {
                assert(cells.take(i + 1).drop_last() =~= cells.take(i as int));
                assert(cells.take(i + 1).last() == self.rows@[i as int].cell@);
            }
            match converted {
                Ok(f) => {
                    out.push(f);
                    proof {
                        assert(out@.map_values(|f: Fund| f@) =~= out_pre.map_values(
                            |f: Fund| f@,
                        ).push(out@.last()@));
                    }
                },
                Err(_) => {},
            }
            proof {
                if forall|x: int| 0 <= x < i + 1 ==> cell_decided(#[trigger] self.rows@[x].cell@) {
                    assert(cell_decided(self.rows@[i as int].cell@));
                }
            }
            i += 1;
        }
        proof {
            assert(cells.take(self.rows@.len() as int) =~= cells);
        }
        out
    }
}

// ---------------------------------------------------------------------------
// LOF (stock and index listings share this shape)
// ---------------------------------------------------------------------------
/// One LOF listing cell: raw textual fields as the endpoint sends them.
pub struct LofCell {
    pub fund_id: String,
    pub fund_nm: String,
    pub price: Option<String>,
    pub discount_rt: String,
    pub min_amt: Option<String>,
    pub apply_status: String,
    pub redeem_status: Option<String>,
    pub apply_redeem_status: Option<String>,
}

impl View for LofCell {
    type V = CellV;

    open spec fn view(&self) -> CellV {
        CellV {
            fund_id: self.fund_id@,
            fund_nm: self.fund_nm@,
            discount_rt: self.discount_rt@,
            apply_status: self.apply_status@,
        }
    }
}

/// One LOF listing row: an identifier wrapping a cell.
pub struct LofRow {
    pub id: String,
    pub cell: LofCell,
}

/// One page of an LOF listing.
pub struct LofResponse {
    pub rows: Vec<LofRow>,
    pub page: usize,
}

impl LofRow {
    /// Converts this row into a fund, or reports the unparseable discount
    /// text; the row is then dropped, never defaulted.
    pub fn to_fund(&self) -> (r: Result<Fund, String>)
        ensures
            conversion_ok(self.cell@, FundType::Lof, r),
    {
        fund_from_fields(
            FundType::Lof,
            &self.cell.fund_id,
            &self.cell.fund_nm,
            &self.cell.discount_rt,
            &self.cell.apply_status,
        )
    }
}

impl LofResponse {
    /// Converts every row of this page, dropping the rows whose discount
    /// text does not parse.
    pub fn funds(&self) -> (out: Vec<Fund>)
        ensures
            (forall|i: int|
                0 <= i < self.rows@.len() ==> cell_decided(#[trigger] self.rows@[i].cell@))
                ==> out@.map_values(|f: Fund| f@) == spec_page_funds(
                self.rows@.map_values(|r: LofRow| r.cell@),
                FundType::Lof,
            ),
            forall|j: int|
                0 <= j < out@.len() ==> (#[trigger] out@[j]).wf() && out@[j].fund_type
                    == FundType::Lof,
            out@.len() <= self.rows@.len(),
    {
        let ghost cells = self.rows@.map_values(|r: LofRow| r.cell@);
        let mut out: Vec<Fund> = Vec::new();
        let mut i: usize = 0;
        while i < self.rows.len()
            invariant
                i <= self.rows@.len(),
                cells == self.rows@.map_values(|r: LofRow| r.cell@),
                (forall|x: int| 0 <= x < i ==> cell_decided(#[trigger] self.rows@[x].cell@))
                    ==> out@.map_values(|f: Fund| f@) == spec_page_funds(
                    cells.take(i as int),
                    FundType::Lof,
                ),
                forall|j: int|
                    0 <= j < out@.len() ==> (#[trigger] out@[j]).wf() && out@[j].fund_type
                        == FundType::Lof,
                out@.len() <= i,
            decreases self.rows@.len() - i,
        {
            let ghost out_pre = out@;
            let converted = self.rows[i].to_fund();
            proof {
                assert(cells.take(i + 1).drop_last() =~= cells.take(i as int));
                assert(cells.take(i + 1).last() == self.rows@[i as int].cell@);
            }
            match converted {
                Ok(f) => {
                    out.push(f);
                    proof {
                        assert(out@.map_values(|f: Fund| f@) =~= out_pre.map_values(
                            |f: Fund| f@,
                        ).push(out@.last()@));
                    }
                },
                Err(_) => {},
            }
            proof {
                if forall|x: int| 0 <= x < i + 1 ==> cell_decided(#[trigger] self.rows@[x].cell@) {
                    assert(cell_decided(self.rows@[i as int].cell@));
                }
            }
            i += 1;
        }
        proof {
            assert(cells.take(self.rows@.len() as int) =~= cells);
        }
        out
    }
}

} // verus!
