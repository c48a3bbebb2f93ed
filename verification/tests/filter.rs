use panel_core::model::{NestEgg, Node, ServerConfigurationAutoKill, User};
use panel_core::routes::files_list::{files_list_gate, FilesListGate, Params};
use panel_core::server::Server;
use panel_core::store::ServerRow;

fn egg() -> NestEgg {
    NestEgg {
        id: 3,
        force_outgoing_ip: false,
        file_denylist: Vec::new(),
        config_startup: String::from("{}"),
        config_stop: String::from("stop"),
        config_files: String::from("[]"),
    }
}

fn node() -> Node {
    Node {
        id: 1,
        uuid: 0xAA,
        name: String::from("node-a"),
        url: String::from("http://agent.internal:8080"),
        token: String::from("token-a"),
        public_url: None,
        sftp_host: None,
        sftp_port: 2022,
        maintenance_message: None,
    }
}

fn row() -> ServerRow {
    ServerRow {
        id: 1,
        uuid: 0x1,
        uuid_short: 0,
        external_id: None,
        node_id: 1,
        owner_id: 7,
        egg_id: 3,
        allocation_id: None,
        destination_node_id: None,
        status: None,
        suspended: false,
        name: String::from("craft"),
        description: None,
        memory: 1024,
        swap: 0,
        disk: 4096,
        io_weight: None,
        cpu: 100,
        pinned_cpus: Vec::new(),
        startup: String::from("run"),
        image: String::from("java:21"),
        timezone: None,
        allocation_limit: 1,
        database_limit: 1,
        backup_limit: 1,
        auto_kill: ServerConfigurationAutoKill { enabled: false, seconds: 0 },
        created: 0,
    }
}

fn server(
    permissions: Option<Vec<String>>,
    ignored_files: Option<Vec<String>>,
) -> Server {
    Server::assemble(row(), None, node(), egg(), permissions, ignored_files)
}

#[test]
fn full_grant_allows_every_permission() {
    let s = server(None, None);
    assert!(s.has_permission("files.read").is_ok());
    assert!(s.has_permission("control.console").is_ok());
    assert!(s.has_permission("anything.at.all").is_ok());
}

#[test]
fn restricted_grant_allows_only_listed_permissions() {
    let s = server(
        Some(vec![String::from("files.read"), String::from("control.console")]),
        None,
    );
    assert!(s.has_permission("files.read").is_ok());
    assert!(s.has_permission("control.console").is_ok());
    let denial = s.has_permission("files.delete").unwrap_err();
    assert_eq!(
        denial,
        "you do not have permission to perform this action: files.delete"
    );
}

#[test]
fn empty_grant_denies_everything() {
    let s = server(Some(Vec::new()), None);
    assert!(s.has_permission("files.read").is_err());
}

#[test]
fn no_patterns_hide_nothing() {
    let mut s = server(None, None);
    assert!(!s.is_ignored("anything", false));
    assert!(!s.is_ignored("anything", true));
}

#[test]
fn glob_patterns_hide_matching_paths() {
    let mut s = server(None, Some(vec![String::from("*.log")]));
    assert!(s.is_ignored("server.log", false));
    assert!(s.is_ignored("logs/latest.log", false));
    assert!(!s.is_ignored("server.properties", false));
}

#[test]
fn is_ignored_is_idempotent_and_compiles_once() {
    let mut s = server(None, Some(vec![String::from("secrets/"), String::from("*.key")]));
    let first = s.is_ignored("ssl.key", false);
    let second = s.is_ignored("ssl.key", false);
    assert_eq!(first, second);
    assert!(first);
    let dir_first = s.is_ignored("secrets", true);
    let dir_second = s.is_ignored("secrets", true);
    assert_eq!(dir_first, dir_second);
    assert!(dir_first);
    assert!(!s.is_ignored("world/level.dat", false));
}

#[test]
fn directory_awareness_distinguishes_files_from_directories() {
    let mut s = server(None, Some(vec![String::from("backups/")]));
    // A directory-only pattern hides the directory, not a plain file of the
    // same name.
    assert!(s.is_ignored("backups", true));
    assert!(!s.is_ignored("backups", false));
}

#[test]
fn wings_permissions_for_admin_subuser_and_owner() {
    let admin = User { id: 1, admin: true };
    let plain = User { id: 2, admin: false };

    let s = server(Some(vec![String::from("files.read")]), None);
    assert_eq!(
        s.wings_permissions(&admin),
        vec![
            "websocket.connect",
            "*",
            "admin.websocket.errors",
            "admin.websocket.install",
            "admin.websocket.transfer",
        ]
    );
    assert_eq!(
        s.wings_permissions(&plain),
        vec!["websocket.connect", "files.read"]
    );

    let owner = server(None, None);
    assert_eq!(
        owner.wings_permissions(&plain),
        vec!["websocket.connect", "*"]
    );
}

#[test]
fn listing_passes_the_checks_in_order() {
    let mut full = server(None, None);
    let bad = Params { page: 0, per_page: 10, directory: String::from("/") };
    assert!(matches!(files_list_gate(&mut full, &bad), FilesListGate::BadRequest));

    let ok = Params { page: 1, per_page: 10, directory: String::from("/") };
    assert!(matches!(files_list_gate(&mut full, &ok), FilesListGate::Proceed));

    let mut unauthorized = server(Some(vec![String::from("control.console")]), None);
    match files_list_gate(&mut unauthorized, &ok) {
        FilesListGate::Unauthorized(message) => assert_eq!(
            message,
            "you do not have permission to perform this action: files.read"
        ),
        _ => panic!("expected the capability check to deny"),
    }

    let mut hidden = server(
        Some(vec![String::from("files.read")]),
        Some(vec![String::from("secrets/")]),
    );
    let secret_dir = Params { page: 1, per_page: 10, directory: String::from("secrets") };
    assert!(matches!(files_list_gate(&mut hidden, &secret_dir), FilesListGate::NotFound));
    let open_dir = Params { page: 1, per_page: 10, directory: String::from("world") };
    assert!(matches!(files_list_gate(&mut hidden, &open_dir), FilesListGate::Proceed));
}
