use vstd::prelude::*;

pub mod graph;
pub mod laws;
pub mod scanset;
pub mod symbols;

verus! {

/// Options of one analysis run: how the package is built and which units count.
pub struct Args {
    /// Print the build plan instead of compiling.
    pub build_plan: bool,
    /// Space- or comma-separated features to enable.
    pub features: Option<String>,
    pub all_features: bool,
    pub no_default_features: bool,
    /// Path to the package manifest.
    pub manifest_path: Option<String>,
    /// Number of parallel build jobs.
    pub jobs: Option<u32>,
    pub verbose: u32,
    pub quiet: bool,
    /// Output coloring: auto, always or never.
    pub color: Option<String>,
    pub frozen: bool,
    pub locked: bool,
    /// Unstable build-tool flags.
    pub unstable_flags: Vec<String>,
    /// Count unsafe code that only test units compile.
    pub include_tests: bool,
    /// Name of the package whose call graph is analysed.
    pub crate_name: String,
}

} // verus!
