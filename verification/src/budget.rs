//! The byte budget of one extraction: a hard ceiling and, where the client
//! declared a length, that length.

use crate::error::{CsvExtractError, Failure};
use vstd::prelude::*;

verus! {

/// Whether `incoming` more bytes, after `bytes_read`, break the budget, and
/// how. The declared length is looked at first: a body longer than what was
/// announced is a malformed one, whatever the limit would have allowed.
pub open spec fn budget_verdict(
    limit: usize,
    length: Option<usize>,
    bytes_read: usize,
    incoming: nat,
) -> Option<Failure> {
    if length is Some && bytes_read + incoming > length->Some_0 {
        Some(Failure::OverflowKnownLength { length: length->Some_0 })
    } else if bytes_read + incoming > limit {
        Some(Failure::Overflow { limit })
    } else {
        None
    }
}

/// A body of `size` bytes stays within the limit and within the declared
/// length, where one was declared.
pub open spec fn within_budget(limit: usize, length: Option<usize>, size: nat) -> bool {
    size <= limit && (length is Some ==> size <= length->Some_0)
}

/// Accounts for a chunk of `incoming` bytes before any of them is looked at.
/// Returns the new running total, or the error that `budget_verdict` names.
pub fn charge(limit: usize, length: Option<usize>, bytes_read: usize, incoming: usize) -> (verdict:
    Result<usize, CsvExtractError>)
    ensures
        budget_verdict(limit, length, bytes_read, incoming as nat) is None ==> verdict == Ok::<
            usize,
            CsvExtractError,
        >((bytes_read + incoming) as usize),
        budget_verdict(limit, length, bytes_read, incoming as nat) is Some ==> verdict is Err
            && verdict->Err_0@ == budget_verdict(limit, length, bytes_read, incoming as nat)->Some_0,
{
    let projected = bytes_read.checked_add(incoming);
    if let Some(length) = length {
        let over = match projected {
            Some(total) => total > length,
            None => true,
        };
        if over {
            return Err(CsvExtractError::OverflowKnownLength { length });
        }
    }
    match projected {
        Some(total) => {
            if total > limit {
                Err(CsvExtractError::Overflow { limit })
            } else {
                Ok(total)
            }
        },
        None => Err(CsvExtractError::Overflow { limit }),
    }
}

} // verus!
