//! Planning and supervising incremental, hard-linked snapshot backups that an
//! external file-synchronisation tool carries out.

pub mod args;
pub mod demux;
pub mod model;
pub mod outcome;
pub mod plan;
pub mod split;
pub mod supervise;
pub mod timestamp;
pub mod versioning;
