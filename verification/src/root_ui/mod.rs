//! The surfaces the host draws, described by role rather than colour.

pub mod adapter;
pub mod language;
pub mod navigation;
pub mod output;
