//! Calendar versions (`YY.M.R`) for the commits of a git repository: the
//! version type, the release history along HEAD's first-parent line, and
//! the choice and tagging of the next release.
pub mod calver;
pub mod repo;
pub mod repo_release;
pub mod releaser;
