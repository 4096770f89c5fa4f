//! Screens exchange-traded funds from a financial data provider's paginated
//! listing endpoints: normalizes raw textual fields into numeric domain
//! values, converts per-category row schemas into one `Fund` entity, decides
//! when a paginated fetch is finished, and filters the merged result against
//! configured thresholds.

pub mod decimal;
pub mod fund;
pub mod parse;
pub mod schema;
pub mod fetch;
pub mod filter;
