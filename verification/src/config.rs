use vstd::prelude::*;

verus! {

/// Engine configuration. The directories are explicit values rather than
/// process-wide lookups, so callers and tests can redirect every path; the
/// surrounding program resolves them (XDG-style) and loads or edits the
/// config file.
#[derive(Clone, Debug)]
pub struct Config {
    /// The directory holding the configuration.
    pub config_dir: String,
    /// The main config file path.
    pub config_file_path: String,
    /// The directory holding per-chunk cache artifacts.
    pub cache_dir: String,
    /// The history (record store) file path.
    pub history_file_path: String,
    /// The directory holding log files.
    pub log_dir: String,
    /// Where finished downloads land.
    pub download_dir: String,
    /// How many connections a download may use.
    pub threads: usize,
}

} // verus!
