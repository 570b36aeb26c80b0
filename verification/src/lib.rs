//! Ranking of alternative bicycle routes by a rider's preferences.
//!
//! A routing engine proposes candidate routes; `scoring::build_suggestions`
//! measures them, scores each under the rider's preferences, and returns the
//! best as a ranked list with an explanation for each.
//!
//! Every quantity is held in fixed point: values of the unit interval
//! (preferences, normalised metrics, road-class ratios) in millionths,
//! lengths and durations in thousandths, presented values in hundredths or
//! thousandths. All arithmetic is exact integer arithmetic.
//!
//! - `fixed`: ratios, normalisation and rounding in fixed point
//! - `models`: the records of a scoring pass
//! - `json`: reading a route's road-class detail out of its JSON payload
//! - `scoring`: metrics, scores, explanations and the list of suggestions
//! - `ranking`: the order of candidates by score
//! - `text`, `util`, `graphhopper`: text helpers, coordinate pairs, addresses

pub mod fixed;
pub mod graphhopper;
pub mod json;
pub mod models;
pub mod ranking;
pub mod scoring;
pub mod text;
pub mod util;
