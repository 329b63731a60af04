pub mod app;
pub mod format;
pub mod ingest;
pub mod styled;
pub mod store;
pub mod tabs;
pub mod viewport;
pub mod wrap;
