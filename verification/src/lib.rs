//! Adapter core for surfacing per-file version-control status from the `jj`
//! backend: a verified status-line interpreter (including the rename
//! grammar) and an atomically replaceable head-label snapshot.
pub mod find;
pub mod jj;
pub mod status;

pub use jj::apply_refresh;
pub use jj::find_rename;
pub use jj::get_diff_base;
pub use jj::head_snapshot_from_output;
pub use jj::status_to_change;
pub use jj::visit_changes;
pub use jj::Error;
pub use jj::HeadSnapshot;
pub use status::ChangeView;
pub use status::FileChange;
