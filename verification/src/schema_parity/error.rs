//! Errors of schema-parity parsing, normalization and comparison.
use vstd::prelude::*;

verus! {

/// Why a projection could not be parsed, normalized or compared.
#[derive(Clone, Copy, Debug, PartialEq, Eq, Structural)]
pub enum ParityError {
    DuplicateColumn,
    DuplicatePrimaryKeyColumn,
    DuplicateTable,
    EmptyProjection,
    EmptyTable,
    InvalidArgument,
    InvalidEngine,
    InvalidGeneratedSource,
    InvalidJson,
    InvalidOrdinal,
    InvalidPath,
    InvalidText,
    InvalidTypeFamily,
    Io,
    UnknownPrimaryKeyColumn,
    UnsupportedSchemaVersion,
}

impl ParityError {
    /// The variant's name, which is how the error is displayed.
    pub fn name(&self) -> (s: &'static str)
        ensures
            s@ == self.spec_name(),
    {
        match self {
            ParityError::DuplicateColumn => "DuplicateColumn",
            ParityError::DuplicatePrimaryKeyColumn => "DuplicatePrimaryKeyColumn",
            ParityError::DuplicateTable => "DuplicateTable",
            ParityError::EmptyProjection => "EmptyProjection",
            ParityError::EmptyTable => "EmptyTable",
            ParityError::InvalidArgument => "InvalidArgument",
            ParityError::InvalidEngine => "InvalidEngine",
            ParityError::InvalidGeneratedSource => "InvalidGeneratedSource",
            ParityError::InvalidJson => "InvalidJson",
            ParityError::InvalidOrdinal => "InvalidOrdinal",
            ParityError::InvalidPath => "InvalidPath",
            ParityError::InvalidText => "InvalidText",
            ParityError::InvalidTypeFamily => "InvalidTypeFamily",
            ParityError::Io => "Io",
            ParityError::UnknownPrimaryKeyColumn => "UnknownPrimaryKeyColumn",
            ParityError::UnsupportedSchemaVersion => "UnsupportedSchemaVersion",
        }
    }

    pub open spec fn spec_name(&self) -> Seq<char> {
        match self {
            ParityError::DuplicateColumn => "DuplicateColumn"@,
            ParityError::DuplicatePrimaryKeyColumn => "DuplicatePrimaryKeyColumn"@,
            ParityError::DuplicateTable => "DuplicateTable"@,
            ParityError::EmptyProjection => "EmptyProjection"@,
            ParityError::EmptyTable => "EmptyTable"@,
            ParityError::InvalidArgument => "InvalidArgument"@,
            ParityError::InvalidEngine => "InvalidEngine"@,
            ParityError::InvalidGeneratedSource => "InvalidGeneratedSource"@,
            ParityError::InvalidJson => "InvalidJson"@,
            ParityError::InvalidOrdinal => "InvalidOrdinal"@,
            ParityError::InvalidPath => "InvalidPath"@,
            ParityError::InvalidText => "InvalidText"@,
            ParityError::InvalidTypeFamily => "InvalidTypeFamily"@,
            ParityError::Io => "Io"@,
            ParityError::UnknownPrimaryKeyColumn => "UnknownPrimaryKeyColumn"@,
            ParityError::UnsupportedSchemaVersion => "UnsupportedSchemaVersion"@,
        }
    }
}

} // verus!
