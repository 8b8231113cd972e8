//! Value extraction over a pre-scanned JSON tape: lazily parsed numbers,
//! a cursor that pulls typed values out of the tape, and a fallible bridge
//! between the library's value tree and a generic JSON value model.

pub mod borrowed;
pub mod builder;
pub mod error;
pub mod grammar;
pub mod node;
pub mod number;
pub mod value;
pub mod walker;
