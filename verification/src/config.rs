//! Management of the user level config.
use crate::errors::NotebookError;
use vstd::prelude::*;

verus! {

/// Application config model.
pub struct Config {
    /// Notebook to use when no explicit notebook is named on the
    /// command line.
    pub default_book: String,
}

/// Interface of a backing storage of a config.  A backend outside this
/// crate implements it; no contract is assumed of such an implementation.
pub trait ConfigStore {
    /// Ensures the underlying storage exists and is ready to use.
    fn setup(&self) -> Result<(), NotebookError>;

    /// Loads the config from the backing storage.
    fn load(&self) -> Result<Config, NotebookError>;
}

} // verus!
