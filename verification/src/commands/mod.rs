pub mod cache;
pub mod check;
pub mod edit;
pub mod explain;
pub mod ext;
pub mod hooks;
pub mod info;
pub mod init;
pub mod info_reason;
pub mod install;
pub mod lint;
pub mod list;
