//! The error taxonomy of the pipeline: I/O failures carry a description
//! from the surrounding runtime; logic failures report a sample-size
//! shortfall, the number of bullets seen against the number required.
use vstd::prelude::*;

verus! {

#[derive(Debug)]
pub enum ProcError {
    Io(String),
    Logic { seen: usize, required: usize },
}

} // verus!
