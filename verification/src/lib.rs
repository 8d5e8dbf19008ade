//! Summaries of automatically created ZFS snapshots: the lines of a snapshot
//! listing are parsed, the names that follow the autosnap convention are
//! recognised, and the recognised snapshots are counted per dataset and period.

pub mod autosnap;
pub mod parser;
pub mod text;
pub mod time;
pub mod zfs;
