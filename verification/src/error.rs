//! The errors that field and packet operations report.

use vstd::prelude::*;

verus! {

/// Why a field or packet operation was rejected.
#[derive(Clone, Copy, Debug, PartialEq, Eq, Structural)]
pub enum PacketError {
    /// The name is not declared in the class's layout, nor found along the
    /// payload chain.
    UnknownField,
    /// The value cannot be represented by the field's kind or width.
    TypeConversion,
    /// Fewer bytes remain than a fixed-width field needs, or layers nest
    /// deeper than dissection follows.
    TruncatedInput,
    /// An externally supplied field implementation failed.
    ExtensionField,
}

} // verus!
