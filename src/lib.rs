//! Build-script dependency declarations for the entries of one directory,
//! leaving out the paths that the caller excludes.
//!
//! The library works on what a directory listing produced (see
//! [`DirEntryPath`]); reading the directory itself is the caller's part.

mod laws;
mod rerun;

pub use rerun::{
    declaration_line, declarations, excluded, is_excluded, join_lines, kept_paths,
    path_components_equal, rerun_in_listing, rerun_line, rerun_unmarked, same_path,
    unmarked_paths, DirEntryPath, DECLARATION_PREFIX,
};
pub use laws::{
    lemma_all_excluded_empty, lemma_declared_iff_not_excluded, lemma_kept_paths_append,
    lemma_every_line_declares, lemma_listing_order_keeps_paths, lines_well_formed, prefix_at,
};
