//! Text helpers for short data-analysis scripts: duration abbreviations,
//! clock ranges, recency-ordered log scanning and small code generators.
pub mod text;
pub mod duration;
pub mod timerange;
pub mod scan;
pub mod snippets;
pub mod imports;
