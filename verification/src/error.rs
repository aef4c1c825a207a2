//! Errors of the notebook editing operations.
use vstd::prelude::*;

use crate::text::{decimal, push_decimal, push_str};

verus! {

/// Why an editing operation failed.
#[derive(Debug)]
pub enum EditError {
    /// The markdown text held no cell that could be parsed.
    NoValidCells,
    /// No cell carries the requested id.
    CellNotFound(String),
    /// No cell carries the id after which a new cell was to be inserted.
    InsertAfterNotFound(String),
    /// The cell type is not `code`, `markdown` or `raw`.
    InvalidCellType(String),
    /// No cell stands at the index after which a new cell was to be inserted.
    IndexOutOfRange(usize),
}

/// The message that describes an error.
pub open spec fn error_message(e: EditError) -> Seq<char> {
    match e {
        EditError::NoValidCells => "Could not parse notebook content. No valid cells found (minimum 1 required)"@,
        EditError::CellNotFound(id) => "Cell not found with ID: "@ + id@,
        EditError::InsertAfterNotFound(id) => "Cell to insert after not found: "@ + id@,
        EditError::InvalidCellType(t) => "Invalid cell type: "@ + t@
            + ". Must be 'code', 'markdown', or 'raw'"@,
        EditError::IndexOutOfRange(k) => "Cell index to insert after out of range: "@ + decimal(
            k as nat,
        ),
    }
}

impl EditError {
    /// The message that describes the error.
    pub fn message(&self) -> (s: String)
        ensures
            s@ == error_message(*self),
    {
        let mut s = String::new();
        match self {
            EditError::NoValidCells => {
                push_str(
                    &mut s,
                    "Could not parse notebook content. No valid cells found (minimum 1 required)",
                );
            },
            EditError::CellNotFound(id) => {
                push_str(&mut s, "Cell not found with ID: ");
                push_str(&mut s, id.as_str());
            },
            EditError::InsertAfterNotFound(id) => {
                push_str(&mut s, "Cell to insert after not found: ");
                push_str(&mut s, id.as_str());
            },
            EditError::InvalidCellType(t) => {
                push_str(&mut s, "Invalid cell type: ");
                push_str(&mut s, t.as_str());
                push_str(&mut s, ". Must be 'code', 'markdown', or 'raw'");
            },
            EditError::IndexOutOfRange(k) => {
                push_str(&mut s, "Cell index to insert after out of range: ");
                push_decimal(&mut s, *k as u64);
            },
        }
        assert(s@ =~= error_message(*self));
        s
    }
}

} // verus!
