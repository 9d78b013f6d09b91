//! Errors reported at the FEN parse boundary.

use vstd::prelude::*;

verus! {

#[derive(Clone, Debug)]
pub enum Error {
    FailedToParseFEN(String),
    InvalidPiece(char),
    InvalidFile(char),
    InvalidRank(char),
}

} // verus!
