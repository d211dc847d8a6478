pub mod blocks;
pub mod blocks_laws;
pub mod blockset;
pub mod budget_laws;
pub mod cache;
pub mod cache_laws;
pub mod clock;
pub mod commands;
pub mod commands_laws;
pub mod datafile;
pub mod drafts;
pub mod drafts_laws;
pub mod error;
pub mod files_laws;
pub mod frontend_laws;
pub mod frontend_util;
pub mod fuse;
pub mod hash;
pub mod hash_laws;
pub mod idmap;
pub mod keymap;
pub mod mount;
pub mod mount_laws;
pub mod namespace_laws;
pub mod nfs;
pub mod reach;
pub mod scan;
pub mod scan_laws;
pub mod text;
pub mod text_laws;
pub mod tree;
pub mod tree_laws;
pub mod upload_laws;
pub mod vfs;
pub mod vfs_laws;
pub mod writeback;
pub mod writeback_laws;
