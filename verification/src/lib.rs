//! Conversion of a CDtree XML export into bar-separated rows for sqlite3.
use vstd::prelude::*;

pub mod text;
pub mod date;
pub mod execpress;
pub mod scan;
pub mod panel;

verus! {

/// The result of the start-up pause of the window.
#[derive(Debug, Clone)]
pub struct Progstart {}

} // verus!
