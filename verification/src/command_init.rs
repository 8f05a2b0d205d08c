//! The initialization decision: whether a run of the init command wipes the
//! data directory, creates a fresh one, loads what already exists, or aborts.
//! The surrounding program prompts the operator and touches the filesystem;
//! this module decides.

use vstd::prelude::*;
use crate::strutil::{trim_spec, trim_spaces};

verus! {

/// The operator declined the destructive reset.
#[derive(Clone, Copy, PartialEq, Eq, Structural, Debug)]
pub struct InitError;

/// What a run of the init command must do.
#[derive(Clone, Copy, PartialEq, Eq, Structural, Debug)]
pub enum InitAction {
    /// Forced reset confirmed: delete the data directory, then create
    /// directories, database schema and default configuration.
    WipeAndCreate,
    /// Forced reset declined: stop without touching anything.
    Abort,
    /// A configuration already exists: load it and change nothing.
    LoadExisting,
    /// No complete configuration yet: create directories, database schema and
    /// default configuration.
    Create,
}

/// The init command's decision. With `--force` everything rests on the
/// operator's confirmation; without it, an existing data directory with a
/// configuration file is loaded as it is, and anything less is (re)created in
/// place.
pub fn init_plan(force: bool, confirmed: bool, datadir_exists: bool, configfile_exists: bool) -> (a:
    InitAction)
    ensures
        a == (if force {
            if confirmed {
                InitAction::WipeAndCreate
            } else {
                InitAction::Abort
            }
        } else if datadir_exists && configfile_exists {
            InitAction::LoadExisting
        } else {
            InitAction::Create
        }),
{
    if force {
        if confirmed {
            InitAction::WipeAndCreate
        } else {
            InitAction::Abort
        }
    } else if datadir_exists && configfile_exists {
        InitAction::LoadExisting
    } else {
        InitAction::Create
    }
}

/// Does an answer to the reset prompt confirm the reset? Exactly the trimmed
/// answers `Yes`, `Y` and `y` do.
pub fn is_affirmative(answer: &str) -> (r: bool)
    ensures
        r == (trim_spec(answer@) == "Yes"@ || trim_spec(answer@) == "Y"@ || trim_spec(answer@)
            == "y"@),
{
    let t = trim_spaces(answer);
    let yes: String = "Yes".to_string();
    let cap: String = "Y".to_string();
    let low: String = "y".to_string();
    t == yes || t == cap || t == low
}

} // verus!
