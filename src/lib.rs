//! Discovery of control groups: the pattern filter and the traversal rules
//! that turn directory walks of a cgroup hierarchy into the relative paths
//! of the cgroups found there.

mod explorer;
mod path;
mod pattern;

pub use explorer::{
    candidate, candidates_before_failure, has_failure, lemma_no_patterns_finds_all,
    lemma_non_directory_never_found, lemma_root_never_found, lemma_v2_deterministic,
    lemma_v2_walk_order_kept, Explorer, ExplorerBuilder, Generation, V2Step, WalkItem,
};
pub use path::{comps, join_components, joined, relative_to, strip_base, subtree_root};
pub use pattern::{
    glob_match, glob_valid, parse_include, parse_include_regex, path_matches_include,
    path_matches_include_regex, regex_match, regex_valid, rejected_text, rejection_message, ExplorerBuilderError, Glob, Rx,
};
