//! What the UI protocol is given to draw: highlight ids and the cells of
//! each window's rows.

pub mod grid;
pub mod hl;
pub mod paint;
pub mod refresh;
pub mod rpc;
pub mod views;
