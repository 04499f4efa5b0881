//! Planning and bookkeeping for bulk retrieval of hourly, time-indexed radar
//! imagery: which images a date range asks for, which of them are already on
//! disk, what each HTTP outcome means for one image, and what a finished run
//! reports.
//!
//! Everything here works on plain values; reading directories, talking HTTP
//! and writing files is left to the caller.

pub mod calendar;
pub mod enumerate;
pub mod existing;
pub mod fetch;
pub mod plan;
pub mod report;
pub mod text;
pub mod work_item;
