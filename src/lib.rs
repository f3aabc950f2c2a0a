//! Telemetry for accelerator devices: parsers for the diagnostic tools' line
//! formats, bounded per-device histories, and a store that joins per-process
//! data from several sources.
pub mod text;
pub mod parser;
pub mod topology;
pub mod history;
pub mod store;
pub mod format;
pub mod app;
pub mod supervisor;
mod keyed;
