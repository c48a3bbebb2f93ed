use vstd::prelude::*;

verus! {

/// Installation / repair state of a server. The operational state is
/// represented as `Option::<ServerStatus>::None` on the server row.
#[derive(PartialEq, Eq, Structural, Clone, Copy, Debug)]
pub enum ServerStatus {
    Installing,
    InstallFailed,
    ReinstallFailed,
    RestoringBackup,
}

/// Resource limits of a server.
#[derive(Clone, Debug)]
pub struct ApiServerLimits {
    pub cpu: i32,
    pub memory: i64,
    pub swap: i64,
    pub disk: i64,
    pub io_weight: Option<i16>,
}

/// Feature count limits of a server.
#[derive(Clone, Debug)]
pub struct ApiServerFeatureLimits {
    pub allocations: i32,
    pub databases: i32,
    pub backups: i32,
}

/// Automatic kill policy of a server, stored on the row and forwarded to the
/// node agent unchanged.
#[derive(Clone, Debug)]
pub struct ServerConfigurationAutoKill {
    pub enabled: bool,
    pub seconds: u64,
}

/// The caller identity that the permission filter reads: only the admin flag
/// and the numeric identity matter to the library.
#[derive(Clone, Debug)]
pub struct User {
    pub id: i32,
    pub admin: bool,
}

/// An agent endpoint. The address is kept as plain text; the token
/// authenticates the control plane against the agent.
#[derive(Clone, Debug)]
pub struct Node {
    pub id: i32,
    pub uuid: u128,
    pub name: String,
    pub url: String,
    pub token: String,
    pub public_url: Option<String>,
    pub sftp_host: Option<String>,
    pub sftp_port: i32,
    pub maintenance_message: Option<String>,
}

/// The parts of a workload template that server materialization reads.
/// Configuration blobs are carried as pre-rendered text.
#[derive(Clone, Debug)]
pub struct NestEgg {
    pub id: i32,
    pub force_outgoing_ip: bool,
    pub file_denylist: Vec<String>,
    pub config_startup: String,
    pub config_stop: String,
    pub config_files: String,
}

/// One page of a listing.
pub struct Pagination<T> {
    pub total: i64,
    pub per_page: i64,
    pub page: i64,
    pub data: Vec<T>,
}

} // verus!
