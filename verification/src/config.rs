//! What a run is configured with.

use vstd::prelude::*;
use std::collections::HashMap;
use std::path::PathBuf;
use std::sync::Arc;

verus! {

/// A path of the standard library; nothing is known of it.
#[verifier::external_type_specification]
#[verifier::external_body]
pub struct ExPathBuf(PathBuf);

/// Where a project's files are and which variables its tools get.
pub struct RepoConfig {
    pub riotfile_path: PathBuf,
    pub riot_root: PathBuf,
    pub build_env: Arc<HashMap<String, String>>,
    pub run_env: Arc<HashMap<String, String>>,
    pub pytest_plugin_dir: Option<PathBuf>,
}

/// Which environments are meant.
pub enum Selector {
    /// Every environment.
    All,
    /// A hash, a compound hash, or a pattern for names.
    Pattern(String),
    /// A pattern, narrowed to some interpreter versions.
    Generic { python: Option<Vec<String>>, pattern: Option<String> },
}

/// How the selected contexts are run.
pub struct RunConfig {
    pub command_override: Option<String>,
    pub cmdargs: Vec<String>,
    pub action_label: String,
}

} // verus!
