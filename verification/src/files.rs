//! Which files one run works on.

use vstd::prelude::*;
use std::path::PathBuf;
use crate::error::RemapError;

verus! {

/// `std::path::PathBuf`, which the library hands on and never looks into.
#[verifier::external_type_specification]
#[verifier::external_body]
pub struct ExPathBuf(PathBuf);

/// Lists the input files that `input_path` stands for: the path itself and
/// nothing else. A directory is not walked.
pub fn get_input_files(input_path: &PathBuf) -> (files: Result<Vec<&PathBuf>, RemapError>)
    ensures
        files matches Ok(list) && list@ == seq![input_path],
{
    let mut list: Vec<&PathBuf> = Vec::new();
    list.push(input_path);
    assert(list@ =~= seq![input_path]);
    Ok(list)
}

} // verus!
