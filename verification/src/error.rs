//! The failures a packing run can end in.

use vstd::prelude::*;

verus! {

/// Why a packing run produced no atlas.
#[derive(Clone, Copy, Debug, PartialEq, Eq, Structural)]
pub enum PackerError {
    /// No power-of-two sheet within the size limit holds every item.
    PackingInfeasible,
    /// A placement handed to the compositor contradicts the sheet or its item.
    InternalGeometryViolation,
    /// Two frames were given the same name.
    DuplicateName,
    /// Template output was requested without a template file.
    NoTemplateFile,
}

impl PackerError {
    /// The text of [`PackerError::message`].
    pub open spec fn message_text(self) -> Seq<char> {
        match self {
            PackerError::PackingInfeasible => "the items do not fit into a sheet of the allowed size"@,
            PackerError::InternalGeometryViolation => "a placement does not fit the sheet or its item"@,
            PackerError::DuplicateName => "two frames share one name"@,
            PackerError::NoTemplateFile => "template output needs a template file"@,
        }
    }

    /// A sentence describing the failure.
    pub fn message(&self) -> (text: String)
        ensures
            text@ == self.message_text(),
    {
        match self {
            PackerError::PackingInfeasible => "the items do not fit into a sheet of the allowed size".to_owned(),
            PackerError::InternalGeometryViolation => "a placement does not fit the sheet or its item".to_owned(),
            PackerError::DuplicateName => "two frames share one name".to_owned(),
            PackerError::NoTemplateFile => "template output needs a template file".to_owned(),
        }
    }
}

} // verus!
