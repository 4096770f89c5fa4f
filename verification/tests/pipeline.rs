use jisilu_funds::decimal::Dec;
use jisilu_funds::fetch::{merge_category_funds, unwrap_jsonp, FundApiType, Paginator};
use jisilu_funds::filter::{filter_funds, FilterRule};
use jisilu_funds::fund::{Fund, FundType};
use jisilu_funds::schema::{QdiiCell, QdiiResponse, QdiiRow};

fn cell(id: &str, name: &str, discount: &str, status: &str) -> QdiiCell {
    QdiiCell {
        fund_id: id.to_string(),
        fund_nm: name.to_string(),
        price: None,
        discount_rt: discount.to_string(),
        min_amt: None,
        apply_status: status.to_string(),
        redeem_status: None,
        apply_redeem_status: None,
    }
}

fn row(id: &str, discount: &str) -> QdiiRow {
    QdiiRow {
        id: id.to_string(),
        cell: cell(id, "some fund", discount, "开放申购"),
    }
}

/// Runs one paginated fetch against a fixed script of page row counts and
/// reports how many requests were issued.
fn run_pagination(counts: &[usize]) -> (usize, Vec<u32>) {
    let mut paginator = Paginator::new();
    let mut requests = 0usize;
    let mut pages = Vec::new();
    while let Some(page) = paginator.pending_page() {
        pages.push(page);
        let rows = if requests < counts.len() { counts[requests] } else { 0 };
        requests += 1;
        paginator.advance(rows);
    }
    (requests, pages)
}

#[test]
fn test_pagination_stops_after_partial_page() {
    let (requests, pages) = run_pagination(&[55, 55, 55, 30]);
    assert_eq!(requests, 4);
    assert_eq!(pages, vec![1, 2, 3, 4]);
}

#[test]
fn test_pagination_empty_first_page() {
    let (requests, pages) = run_pagination(&[0]);
    assert_eq!(requests, 1);
    assert_eq!(pages, vec![1]);
    let empty_page = QdiiResponse { rows: Vec::new(), page: 1 };
    assert!(empty_page.funds().is_empty());
}

#[test]
fn test_pagination_equal_then_empty_page() {
    // a final full page is only detected by the empty page after it
    let (requests, _) = run_pagination(&[55, 55]);
    assert_eq!(requests, 3);
}

#[test]
fn test_pagination_hard_cap() {
    let counts = [55usize; 500];
    let (requests, _) = run_pagination(&counts);
    assert_eq!(requests, 200);
}

#[test]
fn test_filter_boundary() {
    let rule = FilterRule { premium_threshold: Dec::new(150, 2), purchase_limit: 1000 };
    let equal_premium = Fund::new_qdii("a".to_string(), "a".to_string(), Dec::new(150, 2), 10);
    let above_premium_equal_limit =
        Fund::new_qdii("b".to_string(), "b".to_string(), Dec::new(151, 2), 1000);
    let above_premium_above_limit =
        Fund::new_qdii("c".to_string(), "c".to_string(), Dec::new(2, 0), 1001);
    let funds = vec![equal_premium, above_premium_equal_limit, above_premium_above_limit];
    let kept = filter_funds(&funds, &rule);
    assert_eq!(kept.len(), 1);
    assert_eq!(kept[0].fund_id, "b");
}

#[test]
fn test_filter_keeps_order_and_negative_rates() {
    let rule = FilterRule { premium_threshold: Dec::new(-10, 1), purchase_limit: u64::MAX };
    let f1 = Fund::new_lof("x".to_string(), "x".to_string(), Dec::new(-5, 1), 1);
    let f2 = Fund::new_lof("y".to_string(), "y".to_string(), Dec::new(-20, 1), 1);
    let f3 = Fund::new_lof("z".to_string(), "z".to_string(), Dec::new(0, 0), 1);
    let funds = vec![f1, f2, f3];
    let kept = filter_funds(&funds, &rule);
    let ids: Vec<&str> = kept.iter().map(|f| f.fund_id.as_str()).collect();
    assert_eq!(ids, vec!["x", "z"]);
}

#[test]
fn test_row_conversion_skips_bad_discount() {
    let resp = QdiiResponse {
        rows: vec![row("f1", "5.25%"), row("f2", "N/A"), row("f3", "-1.75%")],
        page: 1,
    };
    let funds = resp.funds();
    assert_eq!(funds.len(), 2);
    assert_eq!(funds[0].fund_id, "f1");
    assert_eq!(funds[0].premium_rate, Dec::new(525, 2));
    assert_eq!(funds[1].fund_id, "f3");
    assert_eq!(funds[1].premium_rate, Dec::new(-175, 2));
    let err = row("f2", "N/A").to_fund().unwrap_err();
    assert_eq!(err, "N/A");
}

#[test]
fn test_row_conversion_fields() {
    let r = QdiiRow { id: "1".to_string(), cell: cell("f9", "nine", "0.30%", "限10万") };
    let fund = r.to_fund().unwrap();
    assert_eq!(fund.fund_type, FundType::Qdii);
    assert_eq!(fund.fund_id, "f9");
    assert_eq!(fund.fund_name, "nine");
    assert_eq!(fund.premium_rate, Dec::new(30, 2));
    assert_eq!(fund.purchase_limit, 100000);
}

#[test]
fn test_merge_preserves_category_order() {
    let qdii: Vec<Fund> = (0..5)
        .map(|i| Fund::new_qdii(format!("q{i}"), "q".to_string(), Dec::new(1, 0), 1))
        .collect();
    let commodity: Vec<Fund> = (0..3)
        .map(|i| Fund::new_commodity(format!("c{i}"), "c".to_string(), Dec::new(1, 0), 1))
        .collect();
    let lof: Vec<Fund> = (0..2)
        .map(|i| Fund::new_lof(format!("l{i}"), "l".to_string(), Dec::new(1, 0), 1))
        .collect();
    let merged = merge_category_funds(qdii, commodity, lof);
    assert_eq!(merged.len(), 10);
    let ids: Vec<&str> = merged.iter().map(|f| f.fund_id.as_str()).collect();
    assert_eq!(ids, vec!["q0", "q1", "q2", "q3", "q4", "c0", "c1", "c2", "l0", "l1"]);
    assert!(merged[..5].iter().all(|f| f.fund_type == FundType::Qdii));
    assert!(merged[5..8].iter().all(|f| f.fund_type == FundType::Commodity));
    assert!(merged[8..].iter().all(|f| f.fund_type == FundType::Lof));
}

#[test]
fn test_unwrap_jsonp() {
    let wrapped = "/*-secure-\n{\"rows\":[],\n\"page\":1};";
    assert_eq!(unwrap_jsonp(wrapped), "{\"rows\":[],\"page\":1}");
    let wrapped_crlf = "/*-secure- x*/\r\n{\"a\":1}\r\n;;";
    assert_eq!(unwrap_jsonp(wrapped_crlf), "{\"a\":1}");
    let bare = "{\"rows\":[]}";
    assert_eq!(unwrap_jsonp(bare), bare);
    assert_eq!(unwrap_jsonp("/*-secure-"), "");
    assert_eq!(unwrap_jsonp("/*-secure-\n"), "");
}

#[test]
fn test_endpoint_metadata() {
    assert_eq!(FundApiType::Qdii.url_path(), "/data/qdii/qdii_list/E");
    assert_eq!(FundApiType::Commodity.url_path(), "/data/qdii/qdii_list/C");
    assert_eq!(FundApiType::StockLof.url_path(), "/data/lof/stock_lof_list/");
    assert_eq!(FundApiType::IndexLof.url_path(), "/data/lof/index_lof_list/");
    assert_eq!(FundApiType::Qdii.referer(), "https://www.jisilu.cn/data/qdii/");
    assert_eq!(FundApiType::Commodity.referer(), "https://www.jisilu.cn/data/qdii/");
    assert_eq!(FundApiType::StockLof.referer(), "https://www.jisilu.cn/data/lof/");
    assert_eq!(FundApiType::IndexLof.referer(), "https://www.jisilu.cn/data/lof/");
}

#[test]
fn test_decimal_order() {
    // numeric order across scales
    assert!(Dec::new(525, 2).exceeds(&Dec::new(52, 1)));
    assert!(!Dec::new(50, 1).exceeds(&Dec::new(5, 0)));
    assert!(!Dec::new(5, 0).exceeds(&Dec::new(50, 1)));
    assert!(Dec::new(0, 0).exceeds(&Dec::new(-1, 2)));
    assert!(!Dec::new(-525, 2).exceeds(&Dec::new(-5, 0)));
}
