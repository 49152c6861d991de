pub mod analytics;
pub mod args;
pub mod counter;
pub mod filter;
pub mod report;
pub mod scan;
pub mod text;
pub mod tree;

pub use analytics::Analytics;
pub use args::{Args, Structure, Target};
pub use report::{Full, Report};
pub use scan::{Contents, Entry, IoError};
pub use tree::{Directory, FileReport, Files, Tree};
