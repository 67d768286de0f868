//! Coordination logic for a family of mutually exclusive profile instances:
//! the build-time reconciler that keeps generated artifacts and the on-disk
//! registry in step with the desired profiles, and the run-time supervisor
//! that every instance runs at start-up.
pub mod launch;
pub mod names;
pub mod reconcile;
pub mod registry;
pub mod supervisor;
pub mod text;
