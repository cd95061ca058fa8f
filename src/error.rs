use vstd::prelude::*;

verus! {

/// Why an edit was refused. A refused edit leaves the buffer as it was.
#[derive(Debug, Clone, Copy, PartialEq, Eq, Structural)]
pub enum EditError {
    /// A column is out of bounds for its row; carries the column.
    IndexError(usize),
    /// A row does not exist and cannot be made; carries the row.
    RowNotFound(usize),
    /// A row to join lies past the end of the document; carries the row.
    OutOfRange(usize),
}

} // verus!
