//! Download-statistics chart pipeline: timestamp parsing, axis bounds,
//! plot series, point-marker annotation and the render-pass controller.

pub mod annotate;
pub mod bounds;
pub mod controller;
pub mod ident;
pub mod model;
pub mod render;
pub mod series;
pub mod time;

pub use annotate::{annotate, decimal_string};
pub use bounds::{compute_bounds, renderable_bounds, AxisBounds, Padding};
pub use ident::MyUuid;
pub use controller::{ChartController, Phase, StatsSeries, Surface};
pub use model::{ChartError, DataPoint, PlotPoint};
pub use render::{axis_date_label, color_of, draw_series, plan_render, ChartLayout, NamedSeries, RenderPlan, Rgb, SeriesRole};
pub use series::{build_plot_points, flatten_series};
pub use time::parse_timestamp;
