//! Errors of the IR transport.

use vstd::prelude::*;

verus! {

#[derive(Debug)]
pub enum IrError {
    DecodeFailed(String),
    EncodeFailed(String),
    UnknownCommand,
}

} // verus!
