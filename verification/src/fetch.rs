//! The paginated-fetch protocol: endpoint metadata, the page-loop decision
//! state, and JSONP envelope unwrapping.
//!
//! One [`Paginator`] drives one category listing: pages are requested from 1
//! upward; a page with no rows ends the fetch, a page shorter than the one
//! before it is the provider's implicit final page and ends the fetch after
//! being included, and a hard cap bounds any single listing at 200 pages.
//! The caller performs the requests and hands each page's row count back
//! through [`Paginator::advance`].

use vstd::prelude::*;
use crate::fund::Fund;
use crate::parse::{chars_of, copy_range};

verus! {

// ---------------------------------------------------------------------------
// Endpoints
// ---------------------------------------------------------------------------
/// The four listing endpoints: one per category, the LOF category split into
/// a stock and an index sub-endpoint.
#[derive(Clone, Copy, Debug, PartialEq, Eq, Structural)]
pub enum FundApiType {
    Qdii,
    Commodity,
    StockLof,
    IndexLof,
}

impl FundApiType {
    /// The endpoint's path under the provider's base host.
    pub fn url_path(&self) -> (r: &'static str)
        ensures
            r@ == match *self {
                FundApiType::Qdii => "/data/qdii/qdii_list/E"@,
                FundApiType::Commodity => "/data/qdii/qdii_list/C"@,
                FundApiType::StockLof => "/data/lof/stock_lof_list/"@,
                FundApiType::IndexLof => "/data/lof/index_lof_list/"@,
            },
    {
        match self {
            FundApiType::Qdii => "/data/qdii/qdii_list/E",
            FundApiType::Commodity => "/data/qdii/qdii_list/C",
            FundApiType::StockLof => "/data/lof/stock_lof_list/",
            FundApiType::IndexLof => "/data/lof/index_lof_list/",
        }
    }

    /// The referer header the endpoint expects.
    pub fn referer(&self) -> (r: &'static str)
        ensures
            r@ == match *self {
                FundApiType::Qdii | FundApiType::Commodity => "https://www.jisilu.cn/data/qdii/"@,
                FundApiType::StockLof | FundApiType::IndexLof => "https://www.jisilu.cn/data/lof/"@,
            },
    {
        match self {
            FundApiType::Qdii | FundApiType::Commodity => "https://www.jisilu.cn/data/qdii/",
            FundApiType::StockLof | FundApiType::IndexLof => "https://www.jisilu.cn/data/lof/",
        }
    }
}

// ---------------------------------------------------------------------------
// Pagination
// ---------------------------------------------------------------------------
/// The largest page number ever requested from a single listing.
pub const PAGE_CAP: u32 = 200;

/// The decision state of one category listing's page loop.
pub struct Paginator {
    /// The page to request next; pages start at 1.
    pub next_page: u32,
    /// The row count of the page before, or `None` before the first page.
    pub prev_rows: Option<usize>,
    /// No further page is to be requested.
    pub done: bool,
}

impl Paginator {
    pub open spec fn wf(self) -> bool {
        1 <= self.next_page <= PAGE_CAP
    }

    /// How one observed page moves the state on: an empty page ends the
    /// fetch; a page shorter than the one before is the final page and ends
    /// it; the cap ends it after page 200; otherwise the next page is due.
    pub open spec fn spec_advance(self, row_count: usize) -> Paginator {
        if row_count == 0 {
            Paginator { done: true, ..self }
        } else if self.prev_rows matches Some(p) && row_count < p {
            Paginator { done: true, ..self }
        } else if self.next_page >= PAGE_CAP {
            Paginator { done: true, ..self }
        } else {
            Paginator {
                next_page: (self.next_page + 1) as u32,
                prev_rows: Some(row_count),
                done: false,
            }
        }
    }

    pub fn new() -> (r: Paginator)
        ensures
            r == (Paginator { next_page: 1u32, prev_rows: None::<usize>, done: false }),
            r.wf(),
    {
        Paginator { next_page: 1, prev_rows: None, done: false }
    }

    /// The page to request now, or `None` once the listing is finished.
    pub fn pending_page(&self) -> (r: Option<u32>)
        ensures
            r == if self.done {
                None::<u32>
            } else {
                Some(self.next_page)
            },
    {
        if self.done {
            None
        } else {
            Some(self.next_page)
        }
    }

    /// Records that the pending page came back with `row_count` rows.
    pub fn advance(&mut self, row_count: usize)
        requires
            old(self).wf(),
            !old(self).done,
        ensures
            *final(self) == old(self).spec_advance(row_count),
            final(self).wf(),
    {
        if row_count == 0 {
            self.done = true;
        } else {
            let stop_short = match self.prev_rows {
                Some(p) => row_count < p,
                None => false,
            };
            if stop_short {
                self.done = true;
            } else if self.next_page >= PAGE_CAP {
                self.done = true;
            } else {
                self.next_page = self.next_page + 1;
                self.prev_rows = Some(row_count);
            }
        }
    }
}

/// Each observed page either finishes the listing or moves it exactly one
/// page forward — with the page number capped, a listing can never take more
/// than the cap's worth of requests.
pub proof fn lemma_paginator_progress(p: Paginator, row_count: usize)
    requires
        p.wf(),
        !p.done,
    ensures
        p.spec_advance(row_count).wf(),
        p.spec_advance(row_count).done || p.spec_advance(row_count).next_page == p.next_page + 1,
{
}

// ---------------------------------------------------------------------------
// Merging
// ---------------------------------------------------------------------------
/// Concatenates the three categories' funds in the fixed category order,
/// each category's intra-page order preserved.
pub fn merge_category_funds(qdii: Vec<Fund>, commodity: Vec<Fund>, lof: Vec<Fund>) -> (r: Vec<
    Fund,
>)
    ensures
        r@ == qdii@ + commodity@ + lof@,
{
    let mut r = qdii;
    let mut commodity = commodity;
    let mut lof = lof;
    r.append(&mut commodity);
    r.append(&mut lof);
    r
}

// ---------------------------------------------------------------------------
// JSONP unwrapping
// ---------------------------------------------------------------------------
/// The sentinel opening a JSONP-wrapped response body.
pub open spec fn jsonp_sentinel() -> Seq<char> {
    seq!['/', '*', '-', 's', 'e', 'c', 'u', 'r', 'e', '-']
}

pub open spec fn has_jsonp_sentinel(s: Seq<char>) -> bool {
    s.len() >= 10 && s.take(10) == jsonp_sentinel()
}

/// Index of the first newline in `s`, or `s.len()` if there is none.
pub open spec fn first_newline(s: Seq<char>) -> int
    decreases s.len(),
{
    if s.len() == 0 {
        0
    } else if s[0] == '\n' {
        0
    } else {
        1 + first_newline(s.drop_first())
    }
}

/// Everything after the first line; empty when there is no newline.
pub open spec fn after_first_line(s: Seq<char>) -> Seq<char> {
    if first_newline(s) == s.len() {
        Seq::empty()
    } else {
        s.skip(first_newline(s) + 1)
    }
}

/// Lines rejoined with nothing between them: every newline is dropped, as is
/// a carriage return standing right before one.
pub open spec fn join_lines(s: Seq<char>) -> Seq<char>
    decreases s.len(),
{
    if s.len() == 0 {
        s
    } else if s[0] == '\n' || (s[0] == '\r' && s.len() >= 2 && s[1] == '\n') {
        join_lines(s.drop_first())
    } else {
        seq![s[0]] + join_lines(s.drop_first())
    }
}

/// Trailing statement terminators removed.
pub open spec fn strip_semis(s: Seq<char>) -> Seq<char>
    decreases s.len(),
{
    if s.len() > 0 && s.last() == ';' {
        strip_semis(s.drop_last())
    } else {
        s
    }
}

/// What unwrapping recovers: a body opened by the JSONP sentinel loses its
/// first line, has the remaining lines rejoined, and sheds trailing
/// statement terminators; any other body passes through unchanged.
pub open spec fn spec_unwrap_jsonp(s: Seq<char>) -> Seq<char> {
    if has_jsonp_sentinel(s) {
        strip_semis(join_lines(after_first_line(s)))
    } else {
        s
    }
}

proof fn lemma_first_newline_at(s: Seq<char>, i: int)
    requires
        0 <= i <= s.len(),
        forall|j: int| 0 <= j < i ==> s[j] != '\n',
        i == s.len() || s[i] == '\n',
    ensures
        first_newline(s) == i,
    decreases i,
{
    if i > 0 {
        lemma_first_newline_at(s.drop_first(), i - 1);
    }
}

/// Recovers bare JSON from a possibly JSONP-wrapped response body.
pub fn unwrap_jsonp(body: &str) -> (r: String)
    ensures
        r@ == spec_unwrap_jsonp(body@),
{
    let cs = chars_of(body);
    let n = cs.len();
    let sentinel = if n >= 10 {
        cs[0] == '/' && cs[1] == '*' && cs[2] == '-' && cs[3] == 's' && cs[4] == 'e' && cs[5]
            == 'c' && cs[6] == 'u' && cs[7] == 'r' && cs[8] == 'e' && cs[9] == '-'
    } else {
        false
    };
    proof {
        if sentinel {
            assert(cs@.take(10) =~= jsonp_sentinel());
        } else if has_jsonp_sentinel(cs@) {
            assert(cs@.take(10)[0] == cs@[0]);
            assert(cs@.take(10)[1] == cs@[1]);
            assert(cs@.take(10)[2] == cs@[2]);
            assert(cs@.take(10)[3] == cs@[3]);
            assert(cs@.take(10)[4] == cs@[4]);
            assert(cs@.take(10)[5] == cs@[5]);
            assert(cs@.take(10)[6] == cs@[6]);
            assert(cs@.take(10)[7] == cs@[7]);
            assert(cs@.take(10)[8] == cs@[8]);
            assert(cs@.take(10)[9] == cs@[9]);
        }
    }
    if !sentinel {
        return String::from_str(body);
    }
    // find the end of the first line
    let mut nl: usize = 0;
    while nl < n && cs[nl] != '\n'
        invariant
            nl <= n,
            n == cs@.len(),
            forall|j: int| 0 <= j < nl ==> cs@[j] != '\n',
        decreases n - nl,
    {
        nl += 1;
    }
    proof {
        lemma_first_newline_at(cs@, nl as int);
    }
    let ghost tail = after_first_line(cs@);
    let start: usize = if nl == n {
        n
    } else {
        nl + 1
    };
    proof {
        if nl == n {
            assert(tail =~= cs@.subrange(start as int, n as int));
        } else {
            assert(tail =~= cs@.subrange(start as int, n as int));
        }
    }
    // rejoin the remaining lines with nothing between them
    let mut out: Vec<char> = Vec::new();
    let mut i: usize = start;
    proof {
        assert(tail.skip(0) =~= tail);
    }
    while i < n
        invariant
            start <= i <= n,
            n == cs@.len(),
            tail == cs@.subrange(start as int, n as int),
            join_lines(tail) == out@ + join_lines(tail.skip(i - start)),
        decreases n - i,
    {
        let ghost rem = tail.skip(i - start);
        let c = cs[i];
        proof {
            assert(rem[0] == cs@[i as int]);
            if i + 1 < n {
                assert(rem[1] == cs@[i + 1]);
            }
            assert(rem.drop_first() =~= tail.skip(i + 1 - start));
        }
        if c == '\n' {
            // a line break: dropped
        } else if c == '\r' && i + 1 < n && cs[i + 1] == '\n' {
            // a carriage return before a line break: dropped
        } else {
            let ghost out_pre = out@;
            out.push(c);
            proof {
                assert(out@ =~= out_pre + seq![rem[0]]);
                assert(out_pre + seq![rem[0]] + join_lines(rem.drop_first()) =~= out_pre + (
                seq![rem[0]] + join_lines(rem.drop_first())));
            }
        }
        i += 1;
    }
    proof {
        assert(tail.skip(n - start) =~= Seq::<char>::empty());
        assert(out@ + Seq::<char>::empty() =~= out@);
    }
    // shed trailing statement terminators
    let m = out.len();
    proof {
        assert(out@.subrange(0, m as int) =~= out@);
    }
    let mut j: usize = m;
    while j > 0 && out[j - 1] == ';'
        invariant
            j <= m,
            m == out@.len(),
            strip_semis(out@) == strip_semis(out@.subrange(0, j as int)),
        decreases j,
    {
        proof {
            assert(out@.subrange(0, j as int).last() == out@[j - 1]);
            assert(out@.subrange(0, j as int).drop_last() =~= out@.subrange(0, j - 1));
        }
        j -= 1;
    }
    proof {
        if j > 0 {
            assert(out@.subrange(0, j as int).last() == out@[j - 1]);
        }
        assert(strip_semis(out@.subrange(0, j as int)) == out@.subrange(0, j as int));
    }
    let trimmed = copy_range(&out, 0, j);
    string_from_chars(&trimmed)
}

/// Relies on std's `FromIterator` for `String`: collecting characters yields
/// the string of exactly those characters in order.
#[verifier::external_body]
fn string_from_chars(v: &Vec<char>) -> (s: String)
    ensures
        s@ == v@,
{
    v.iter().collect()
}

} // verus!
