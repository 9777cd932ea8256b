//! The bus that the chips share.

use vstd::prelude::*;

verus! {

/// Why a bus transaction failed.
#[derive(Copy, Clone, Debug, PartialEq, Eq)]
pub enum FramSpiError<SpiError, CsError> {
    InvalidChip,
    Spi(SpiError),
    Cs(CsError),
}

} // verus!
