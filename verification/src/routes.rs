pub mod auth;
pub mod checkpoint;
pub mod files_list;
pub mod servers_list;
