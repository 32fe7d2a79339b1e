//! Errors of the inspector and the validation of a file's layout.

use vstd::prelude::*;
use vstd::string::*;

verus! {

/// The errors that the inspector itself raises.
#[derive(Debug, Clone, Copy, PartialEq, Eq, Structural)]
pub enum PqDumpError {
    /// Missing or extra positional argument.
    Usage,
    /// The file holds more than one row group.
    MultipleRowGroups,
    /// The row group holds no column.
    NoColumns,
}

/// How a file with `column_counts[i]` columns in its row group `i` is judged.
pub open spec fn layout_verdict(column_counts: Seq<usize>) -> Result<(), PqDumpError> {
    if column_counts.len() > 1 {
        Err(PqDumpError::MultipleRowGroups)
    } else if column_counts.len() == 0 || column_counts[0] == 0 {
        Err(PqDumpError::NoColumns)
    } else {
        Ok(())
    }
}

/// Accepts exactly the files with one row group that holds at least one column.
pub fn check_layout(column_counts: &Vec<usize>) -> (r: Result<(), PqDumpError>)
    ensures
        r == layout_verdict(column_counts@),
        r is Ok <==> (column_counts@.len() == 1 && column_counts@[0] >= 1),
        r == Err::<(), PqDumpError>(PqDumpError::MultipleRowGroups) <==> column_counts@.len() > 1,
{
    if column_counts.len() > 1 {
        Err(PqDumpError::MultipleRowGroups)
    } else if column_counts.len() == 0 || column_counts[0] == 0 {
        Err(PqDumpError::NoColumns)
    } else {
        Ok(())
    }
}


/// The message shown for an error; `bin` is the name the program was run as.
pub open spec fn message_text(e: PqDumpError, bin: Seq<char>) -> Seq<char> {
    match e {
        PqDumpError::Usage => "Invalid usage...\nUsage: "@ + bin + " <PATH>\n"@,
        PqDumpError::MultipleRowGroups => "Multiple row groups given"@,
        PqDumpError::NoColumns => "No columns given"@,
    }
}

impl PqDumpError {
    /// The message shown for the error; `bin` is the name the program was
    /// run as, which the usage line names.
    pub fn message(&self, bin: &str) -> (r: String)
        ensures
            r@ == message_text(*self, bin@),
    {
        match self {
            PqDumpError::Usage => {
                let mut out = String::from_str("Invalid usage...\nUsage: ");
                out.append(bin);
                out.append(" <PATH>\n");
                out
            },
            PqDumpError::MultipleRowGroups => String::from_str("Multiple row groups given"),
            PqDumpError::NoColumns => String::from_str("No columns given"),
        }
    }
}

} // verus!
