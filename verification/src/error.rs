//! The error taxonomy of the library.

use vstd::prelude::*;
use vstd::string::*;

verus! {

/// What can go wrong in a module-tree operation.
///
/// `IllegalOperation`: a structural rule was broken, such as adding a child
/// to a leaf module. `InvalidPath`: a path cannot be converted to a dotted
/// module name. `IoFailure`: a file was missing from the project tree.
#[derive(Clone, Copy, Debug, PartialEq, Eq, Structural)]
pub enum ModuleError {
    IllegalOperation,
    InvalidPath,
    IoFailure,
}

impl ModuleError {
    /// The human-readable description of this error.
    pub open spec fn message_spec(&self) -> Seq<char> {
        match self {
            ModuleError::IllegalOperation => "Files cannot contain other modules"@,
            ModuleError::InvalidPath => "Invalid path"@,
            ModuleError::IoFailure => "Could not read file"@,
        }
    }

    pub fn message(&self) -> (r: String)
        ensures
            r@ == self.message_spec(),
    {
        match self {
            ModuleError::IllegalOperation => String::from_str("Files cannot contain other modules"),
            ModuleError::InvalidPath => String::from_str("Invalid path"),
            ModuleError::IoFailure => String::from_str("Could not read file"),
        }
    }
}

} // verus!
