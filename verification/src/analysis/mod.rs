pub mod report;

pub use report::normalize_decorations;
