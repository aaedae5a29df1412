//! A directory-recursive file transcoder: it mirrors an input directory tree
//! into an output tree, applying a reversible per-file byte transform to the
//! files that carry the source extension of the selected mode and skipping
//! everything else.
//!
//! The tree itself is modelled in memory (`tree`), the per-file byte
//! transform lives in `codec`, and the walk, its counting and its error
//! rules live in `tsc`. Reading a tree from disk and writing the transcoded
//! tree back are left to the caller.

pub mod codec;
pub mod tree;
pub mod tsc;
