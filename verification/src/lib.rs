//! A project-scaffolding and repository-bookkeeping library.
//!
//! The library keeps a registry of known project directories ([`repo::Repo`]),
//! each tagged with a set of labels; renders file/directory templates
//! ([`template::Template`]) into a plan of filesystem operations under a
//! text-substitution model; and builds composable boolean filters
//! ([`batch_filter::FilterExpr`]) over the registry for batch commands.
//!
//! Filesystem paths are modelled throughout as their sequence of components
//! below the root, so that everything the logic decides is stated and proved
//! over plain values; reading and writing the real filesystem, the registry
//! file, and template files is left to the embedding program.

pub mod batch_filter;
pub mod errors;
pub mod repo;
pub mod repo_manager;
pub mod template;
