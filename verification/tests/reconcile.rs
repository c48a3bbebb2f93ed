use panel_core::model::{ApiServerFeatureLimits, ApiServerLimits, ServerStatus};
use panel_core::reconcile::reconcile_node_reset;
use panel_core::saga::CreateParams;
use panel_core::server::Server;
use panel_core::store::Store;

fn params(node_id: i32, name: &str) -> CreateParams {
    CreateParams {
        node_id,
        owner_id: 7,
        egg_id: 3,
        allocation_id: None,
        allocation_ids: Vec::new(),
        external_id: None,
        start_on_completion: false,
        skip_scripts: true,
        name: String::from(name),
        description: None,
        limits: ApiServerLimits { cpu: 100, memory: 512, swap: 0, disk: 1024, io_weight: None },
        pinned_cpus: Vec::new(),
        startup: String::from("run"),
        image: String::from("java:21"),
        timezone: None,
        feature_limits: ApiServerFeatureLimits { allocations: 1, databases: 0, backups: 2 },
        created: 100,
    }
}

fn add_node(store: &mut Store, uuid: u128) -> i32 {
    store
        .add_node(
            uuid,
            String::from("node"),
            String::from("http://agent.internal:8080"),
            String::from("token"),
            None,
            None,
            2022,
            None,
        )
        .unwrap()
}

fn set_status(store: &mut Store, server_id: i32, status: Option<ServerStatus>) {
    for row in store.servers.iter_mut() {
        if row.id == server_id {
            row.status = status;
        }
    }
}

#[test]
fn reset_clears_interrupted_restores_and_closes_open_backups() {
    let mut store = Store::new();
    let n1 = add_node(&mut store, 0xA1);
    let n2 = add_node(&mut store, 0xA2);

    let (restoring, _) = Server::create_with_candidates(
        &mut store,
        params(n1, "restoring"),
        &vec![(0x1_u128 << 96) | 0x1; 8],
    )
    .unwrap();
    let (installing, _) = Server::create_with_candidates(
        &mut store,
        params(n1, "installing"),
        &vec![(0x2_u128 << 96) | 0x2; 8],
    )
    .unwrap();
    let (elsewhere, _) = Server::create_with_candidates(
        &mut store,
        params(n2, "elsewhere"),
        &vec![(0x3_u128 << 96) | 0x3; 8],
    )
    .unwrap();
    set_status(&mut store, restoring, Some(ServerStatus::RestoringBackup));
    set_status(&mut store, installing, Some(ServerStatus::Installing));
    set_status(&mut store, elsewhere, Some(ServerStatus::RestoringBackup));

    let open_on_n1 = store.add_backup(restoring, 0xB1, None).unwrap();
    let closed_on_n1 = store.add_backup(restoring, 0xB2, Some(50)).unwrap();
    let open_on_n2 = store.add_backup(elsewhere, 0xB3, None).unwrap();

    reconcile_node_reset(&mut store, n1, 1234);

    // Every restoring server on the node is operational again; other
    // statuses and other nodes are untouched.
    assert_eq!(Server::by_id(&store, restoring).unwrap().status, None);
    assert_eq!(
        Server::by_id(&store, installing).unwrap().status,
        Some(ServerStatus::Installing)
    );
    assert_eq!(
        Server::by_id(&store, elsewhere).unwrap().status,
        Some(ServerStatus::RestoringBackup)
    );

    // Every open backup on the node is closed as failed, completed now; a
    // completed backup and backups on other nodes keep their marks.
    for b in store.backups.iter() {
        if b.id == open_on_n1 {
            assert!(!b.successful);
            assert_eq!(b.completed, Some(1234));
        }
        if b.id == closed_on_n1 {
            assert_eq!(b.completed, Some(50));
        }
        if b.id == open_on_n2 {
            assert_eq!(b.completed, None);
        }
    }
}

#[test]
fn reset_on_an_idle_node_changes_nothing() {
    let mut store = Store::new();
    let n1 = add_node(&mut store, 0xA1);
    let (sid, _) = Server::create_with_candidates(
        &mut store,
        params(n1, "quiet"),
        &vec![(0x4_u128 << 96) | 0x4; 8],
    )
    .unwrap();
    reconcile_node_reset(&mut store, n1, 99);
    assert_eq!(Server::by_id(&store, sid).unwrap().status, None);
    assert_eq!(store.servers.len(), 1);
}
