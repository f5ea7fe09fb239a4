//! Turns the rows of a query result into named integer metrics.
//!
//! A metric-name pattern such as `db.{host}.load` names key columns between
//! braces. Every other column of the result is a value column: each row gives
//! one metric per value column, named by the pattern filled from the row and
//! followed by `.` and the column name.
pub mod configuration;
pub mod error;
pub mod matrix;
pub mod metric;
pub mod number;
pub mod row;
pub mod template;

pub use configuration::{Configuration, Source, SourceType};
pub use error::MetricError;
pub use matrix::Matrix;
pub use metric::{Metric, Timespec, ToMillis};
pub use row::Row;
pub use template::Template;
