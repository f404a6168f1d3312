//! Verbs that are registered but do nothing yet.

use vstd::prelude::*;

use crate::error::{CliError, CliErrorModel};

verus! {

/// The failure of a verb that is not there yet.
pub fn unimplemented(verb: &str, stage: &str) -> (r: CliError)
    ensures
        r.deep_view() == (CliErrorModel::Unimplemented { verb: verb@, stage: stage@ }),
{
    CliError::Unimplemented { verb: verb.to_owned(), stage: stage.to_owned() }
}

} // verus!
