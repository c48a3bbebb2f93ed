use panel_core::agent::ApiError;
use panel_core::allocation::AllocationError;
use panel_core::model::{ApiServerFeatureLimits, ApiServerLimits};
use panel_core::saga::{CreateError, CreateParams};
use panel_core::server::Server;
use panel_core::store::{NodeAllocation, ServerAllocation, Store};

fn limits() -> ApiServerLimits {
    ApiServerLimits { cpu: 200, memory: 1024, swap: 0, disk: 4096, io_weight: Some(500) }
}

fn feature_limits() -> ApiServerFeatureLimits {
    ApiServerFeatureLimits { allocations: 2, databases: 1, backups: 3 }
}

fn params(node_id: i32, allocation_id: Option<i32>, skip_scripts: bool) -> CreateParams {
    CreateParams {
        node_id,
        owner_id: 7,
        egg_id: 3,
        allocation_id,
        allocation_ids: Vec::new(),
        external_id: None,
        start_on_completion: true,
        skip_scripts,
        name: String::from("craft"),
        description: Some(String::from("a small world")),
        limits: limits(),
        pinned_cpus: vec![0, 2],
        startup: String::from("java -jar server.jar"),
        image: String::from("java:21"),
        timezone: Some(String::from("Etc/UTC")),
        feature_limits: feature_limits(),
        created: 1_700_000_000,
    }
}

fn store_with_node() -> (Store, i32) {
    let mut store = Store::new();
    let node_id = store
        .add_node(
            0xAA,
            String::from("node-a"),
            String::from("http://agent.internal:8080"),
            String::from("token-a"),
            None,
            None,
            2022,
            None,
        )
        .unwrap();
    (store, node_id)
}

fn agent_error() -> (u16, ApiError) {
    (500, ApiError { error: String::from("boom") })
}

#[test]
fn create_with_allocation_success() {
    let (mut store, node_id) = store_with_node();
    NodeAllocation::create(&mut store, node_id, 0x0A00_0001, None, 25565, 5).unwrap();
    let endpoint_id = store.node_allocations[0].id;

    let uuid: u128 = 0xDEAD_BEEF_0000_0000_0000_0000_0000_0001;
    let candidates = vec![uuid; 8];
    let (server_id, got_uuid) = Server::create_with_candidates(
        &mut store,
        params(node_id, Some(endpoint_id), false),
        &candidates,
    )
    .unwrap();
    assert_eq!(got_uuid, uuid);

    // Agent call succeeds: nothing more changes locally.
    Server::create_resolve(&mut store, server_id, Ok(())).unwrap();

    let row = Server::by_id(&store, server_id).unwrap();
    assert_eq!(
        row.status,
        Some(panel_core::model::ServerStatus::Installing)
    );
    assert_eq!(row.uuid, uuid);
    assert_eq!(row.uuid_short, (uuid >> 96) as u32);
    assert_eq!(row.name, "craft");

    // Exactly one binding, to the requested endpoint, and the default
    // pointer names it.
    let bindings = ServerAllocation::all_by_server_id(&store, server_id);
    assert_eq!(bindings.len(), 1);
    assert_eq!(bindings[0].allocation_id, endpoint_id);
    assert_eq!(row.allocation_id, Some(bindings[0].id));
}

#[test]
fn create_with_skip_scripts_has_no_install_state() {
    let (mut store, node_id) = store_with_node();
    let candidates = vec![(0x1_u128 << 96) | 0x1; 8];
    let (server_id, _) =
        Server::create_with_candidates(&mut store, params(node_id, None, true), &candidates)
            .unwrap();
    let row = Server::by_id(&store, server_id).unwrap();
    assert_eq!(row.status, None);
}

#[test]
fn eight_forced_collisions_exhaust_the_identifier_budget() {
    let (mut store, node_id) = store_with_node();
    let taken: u128 = 0xCAFE_0000_0000_0000_0000_0000_0000_0042;
    let candidates = vec![taken; 8];
    Server::create_with_candidates(&mut store, params(node_id, None, false), &candidates).unwrap();
    assert_eq!(store.servers.len(), 1);

    // Every one of the eight candidates collides with the existing server.
    let err =
        Server::create_with_candidates(&mut store, params(node_id, None, false), &candidates)
            .unwrap_err();
    assert_eq!(err, CreateError::IdentifierCollisionExhausted);
    // No server row was left behind.
    assert_eq!(store.servers.len(), 1);
    assert_eq!(store.server_allocations.len(), 0);
}

#[test]
fn short_identifier_collision_counts_as_collision() {
    let (mut store, node_id) = store_with_node();
    let taken: u128 = 0x1234_5678_0000_0000_0000_0000_0000_0001;
    Server::create_with_candidates(&mut store, params(node_id, None, false), &vec![taken; 8])
        .unwrap();
    // Same leading 32 bits, different tail: still a collision, eight times.
    let same_short: u128 = 0x1234_5678_0000_0000_0000_0000_0000_0999;
    let err = Server::create_with_candidates(
        &mut store,
        params(node_id, None, false),
        &vec![same_short; 8],
    )
    .unwrap_err();
    assert_eq!(err, CreateError::IdentifierCollisionExhausted);
}

#[test]
fn create_picks_the_first_fresh_candidate() {
    let (mut store, node_id) = store_with_node();
    let taken: u128 = 0xAAAA_0000_0000_0000_0000_0000_0000_0001;
    Server::create_with_candidates(&mut store, params(node_id, None, false), &vec![taken; 8])
        .unwrap();
    let fresh: u128 = 0xBBBB_0000_0000_0000_0000_0000_0000_0002;
    let mut candidates = vec![taken; 8];
    candidates[3] = fresh;
    candidates[5] = 0xCCCC_0000_0000_0000_0000_0000_0000_0003;
    let (_, got) =
        Server::create_with_candidates(&mut store, params(node_id, None, false), &candidates)
            .unwrap();
    assert_eq!(got, fresh);
}

#[test]
fn create_rejects_missing_node_and_missing_endpoint() {
    let (mut store, node_id) = store_with_node();
    let candidates = vec![(0x77_u128 << 96) | 0x77; 8];
    let err = Server::create_with_candidates(&mut store, params(999, None, false), &candidates)
        .unwrap_err();
    assert_eq!(err, CreateError::NotFound);

    let err = Server::create_with_candidates(
        &mut store,
        params(node_id, Some(12345), false),
        &candidates,
    )
    .unwrap_err();
    assert_eq!(err, CreateError::NotFound);
    assert_eq!(store.servers.len(), 0);
}

#[test]
fn create_rejects_an_endpoint_bound_elsewhere() {
    let (mut store, node_id) = store_with_node();
    NodeAllocation::create(&mut store, node_id, 0x0A00_0001, None, 25565, 5).unwrap();
    let endpoint_id = store.node_allocations[0].id;
    Server::create_with_candidates(
        &mut store,
        params(node_id, Some(endpoint_id), false),
        &vec![(0x1_u128 << 96) | 0x1; 8],
    )
    .unwrap();

    let err = Server::create_with_candidates(
        &mut store,
        params(node_id, Some(endpoint_id), false),
        &vec![(0x2_u128 << 96) | 0x2; 8],
    )
    .unwrap_err();
    assert_eq!(err, CreateError::Conflict);
    assert_eq!(store.servers.len(), 1);
}

#[test]
fn failed_agent_call_compensates_the_committed_row() {
    let (mut store, node_id) = store_with_node();
    NodeAllocation::create(&mut store, node_id, 0x0A00_0001, None, 25565, 5).unwrap();
    let endpoint_id = store.node_allocations[0].id;
    let (server_id, _) = Server::create_with_candidates(
        &mut store,
        params(node_id, Some(endpoint_id), false),
        &vec![(0x1_u128 << 96) | 0x1; 8],
    )
    .unwrap();
    assert!(Server::by_id(&store, server_id).is_some());

    let err = Server::create_resolve(&mut store, server_id, Err(agent_error())).unwrap_err();
    assert_eq!(err.0, 500);
    assert_eq!(err.1.error, "boom");
    // The compensating delete removed the row and its binding.
    assert!(Server::by_id(&store, server_id).is_none());
    assert_eq!(store.server_allocations.len(), 0);
    // The endpoint itself survives and can be bound again.
    let (sid, _) = Server::create_with_candidates(
        &mut store,
        params(node_id, None, false),
        &vec![(0x9_u128 << 96) | 0x9; 8],
    )
    .unwrap();
    assert!(ServerAllocation::new(&mut store, sid, endpoint_id, 6));
}

#[test]
fn unforced_delete_rolls_back_on_agent_failure() {
    let (mut store, node_id) = store_with_node();
    let (server_id, _) = Server::create_with_candidates(
        &mut store,
        params(node_id, None, false),
        &vec![(0x5_u128 << 96) | 0x5; 8],
    )
    .unwrap();
    let name_before = Server::by_id(&store, server_id).unwrap().name.clone();

    let err = Server::delete(&mut store, server_id, false, Err(agent_error())).unwrap_err();
    assert_eq!(err.1.error, "boom");
    // The row is fully intact and queryable by id with unchanged data.
    let row = Server::by_id(&store, server_id).unwrap();
    assert_eq!(row.name, name_before);
    assert_eq!(row.owner_id, 7);
    assert_eq!(
        row.status,
        Some(panel_core::model::ServerStatus::Installing)
    );
}

#[test]
fn forced_delete_commits_despite_agent_failure() {
    let (mut store, node_id) = store_with_node();
    let (server_id, _) = Server::create_with_candidates(
        &mut store,
        params(node_id, None, false),
        &vec![(0x6_u128 << 96) | 0x6; 8],
    )
    .unwrap();
    store.add_backup(server_id, 0xB1, None).unwrap();

    Server::delete(&mut store, server_id, true, Err(agent_error())).unwrap();
    assert!(Server::by_id(&store, server_id).is_none());
    // The cascade removed the backups as well.
    assert!(store.backups.is_empty());
}

#[test]
fn delete_with_agent_success_removes_the_row() {
    let (mut store, node_id) = store_with_node();
    let (server_id, _) = Server::create_with_candidates(
        &mut store,
        params(node_id, None, false),
        &vec![(0x8_u128 << 96) | 0x8; 8],
    )
    .unwrap();
    Server::delete(&mut store, server_id, false, Ok(())).unwrap();
    assert!(Server::by_id(&store, server_id).is_none());
}

#[test]
fn random_identifier_creation_inserts_a_row() {
    let (mut store, node_id) = store_with_node();
    let (server_id, uuid) = Server::create(&mut store, params(node_id, None, false)).unwrap();
    let row = Server::by_id(&store, server_id).unwrap();
    assert_eq!(row.uuid, uuid);
    assert_eq!(row.uuid_short, (uuid >> 96) as u32);
}

#[test]
fn exclusive_bind_rejects_a_second_claim() {
    let (mut store, node_id) = store_with_node();
    NodeAllocation::create(&mut store, node_id, 0x0A00_0002, None, 25566, 5).unwrap();
    let endpoint_id = store.node_allocations[0].id;
    let (s1, _) = Server::create_with_candidates(
        &mut store,
        params(node_id, None, false),
        &vec![(0x11_u128 << 96) | 0x11; 8],
    )
    .unwrap();
    let (s2, _) = Server::create_with_candidates(
        &mut store,
        params(node_id, None, false),
        &vec![(0x22_u128 << 96) | 0x22; 8],
    )
    .unwrap();
    assert!(ServerAllocation::new(&mut store, s1, endpoint_id, 9));
    // The store rejects a second bind of the same endpoint, even by the
    // same server.
    assert!(!ServerAllocation::new(&mut store, s2, endpoint_id, 9));
    assert!(!ServerAllocation::new(&mut store, s1, endpoint_id, 9));
}

#[test]
fn bulk_endpoint_delete_refuses_bound_endpoints() {
    let (mut store, node_id) = store_with_node();
    NodeAllocation::create(&mut store, node_id, 0x0A00_0003, None, 1000, 5).unwrap();
    NodeAllocation::create(&mut store, node_id, 0x0A00_0003, None, 1001, 5).unwrap();
    let bound_id = store.node_allocations[0].id;
    let free_id = store.node_allocations[1].id;
    let (sid, _) = Server::create_with_candidates(
        &mut store,
        params(node_id, None, false),
        &vec![(0x33_u128 << 96) | 0x33; 8],
    )
    .unwrap();
    assert!(ServerAllocation::new(&mut store, sid, bound_id, 9));

    let err = NodeAllocation::delete_by_ids(&mut store, &vec![bound_id, free_id]).unwrap_err();
    assert_eq!(err, AllocationError::Conflict);
    assert_eq!(store.node_allocations.len(), 2);

    NodeAllocation::delete_by_ids(&mut store, &vec![free_id]).unwrap();
    assert_eq!(store.node_allocations.len(), 1);
    assert_eq!(store.node_allocations[0].id, bound_id);
}

#[test]
fn unbinding_clears_a_default_pointer() {
    let (mut store, node_id) = store_with_node();
    NodeAllocation::create(&mut store, node_id, 0x0A00_0004, None, 7000, 5).unwrap();
    NodeAllocation::create(&mut store, node_id, 0x0A00_0004, None, 7001, 5).unwrap();
    let default_endpoint = store.node_allocations[0].id;
    let extra_endpoint = store.node_allocations[1].id;
    let (server_id, _) = Server::create_with_candidates(
        &mut store,
        params(node_id, Some(default_endpoint), false),
        &vec![(0x44_u128 << 96) | 0x44; 8],
    )
    .unwrap();
    assert!(ServerAllocation::new(&mut store, server_id, extra_endpoint, 6));
    assert_eq!(ServerAllocation::all_by_server_id(&store, server_id).len(), 2);

    // Unbinding the non-default endpoint keeps the pointer.
    ServerAllocation::delete_by_id(&mut store, server_id, extra_endpoint);
    assert!(Server::by_id(&store, server_id).unwrap().allocation_id.is_some());
    assert_eq!(ServerAllocation::all_by_server_id(&store, server_id).len(), 1);

    // Unbinding the default endpoint clears the pointer with the row.
    ServerAllocation::delete_by_id(&mut store, server_id, default_endpoint);
    assert_eq!(Server::by_id(&store, server_id).unwrap().allocation_id, None);
    assert!(ServerAllocation::all_by_server_id(&store, server_id).is_empty());

    // A pair that matches nothing deletes nothing.
    ServerAllocation::delete_by_id(&mut store, server_id, default_endpoint);
    assert_eq!(store.servers.len(), 1);
}
