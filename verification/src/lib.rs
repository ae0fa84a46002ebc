//! Chart planning for embedding diagnostics: axis ranges, label colours,
//! scatter markers and legend geometry, computed exactly over integers.
//!
//! Coordinates are integers, in a unit that the caller chooses. What the
//! library derives from them (legend positions, padded ranges, hues) it hands
//! out as exact fractions. A chart is planned in full here; drawing the plan
//! is the caller's part.

pub mod axis;
pub mod chart;
pub mod color;
pub mod config;
pub mod error;
pub mod key;
pub mod label;
pub mod legend;
pub mod ratio;
pub mod series;
pub mod style;

pub use chart::{chart_vector, plot_loss, LossChart, ScatterChart};
pub use config::{ChartConfig, ChartConfigBuilder};
pub use error::RenderError;
