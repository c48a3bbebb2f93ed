use panel_core::agent::{classify_agent_failure, status_is_success, uuid_hyphenated, AgentFailureKind, WingsClient};
use panel_core::identifier::{parse_i32, parse_u32_hex};
use panel_core::routes::auth::{classify_auth, AuthGate};
use panel_core::routes::checkpoint::{checkpoint_code_path, CheckpointDecision};
use panel_core::server::Server;
use panel_core::store::Store;

#[test]
fn hyphenated_identifier_matches_the_canonical_rendering() {
    let values: [u128; 3] = [
        0,
        0x123e4567_e89b_12d3_a456_426614174000,
        u128::MAX,
    ];
    for v in values {
        assert_eq!(uuid_hyphenated(v), uuid::Uuid::from_u128(v).hyphenated().to_string());
    }
}

#[test]
fn request_url_strips_trailing_slashes_only() {
    let c = WingsClient::new(String::from("http://agent.internal:8080///"), String::new());
    assert_eq!(c.request_url("/api/servers"), "http://agent.internal:8080/api/servers");
    let c = WingsClient::new(String::from("http://agent.internal:8080"), String::new());
    assert_eq!(c.request_url("/api/system"), "http://agent.internal:8080/api/system");
}

#[test]
fn per_server_endpoint_path_embeds_the_identifier() {
    let u: u128 = 0x123e4567_e89b_12d3_a456_426614174000;
    assert_eq!(
        WingsClient::servers_server_path(u),
        "/api/servers/123e4567-e89b-12d3-a456-426614174000"
    );
    assert_eq!(WingsClient::servers_path(), "/api/servers");
}

#[test]
fn status_classification_matches_the_error_taxonomy() {
    assert!(status_is_success(200));
    assert!(status_is_success(202));
    assert!(!status_is_success(404));
    assert!(!status_is_success(199));
    assert_eq!(classify_agent_failure(404), AgentFailureKind::NotFound);
    assert_eq!(classify_agent_failure(417), AgentFailureKind::ExpectationFailed);
    assert_eq!(classify_agent_failure(500), AgentFailureKind::Internal);
}

#[test]
fn short_identifier_parsing_accepts_hexadecimal() {
    assert_eq!(parse_u32_hex("0000002a"), Some(0x2A));
    assert_eq!(parse_u32_hex("DeadBeef"), Some(0xDEADBEEF));
    assert_eq!(parse_u32_hex("ffffffff"), Some(u32::MAX));
    assert_eq!(parse_u32_hex("1000000000"), None);
    assert_eq!(parse_u32_hex("12g45678"), None);
    assert_eq!(parse_u32_hex(""), None);
}

#[test]
fn numeric_identifier_parsing_matches_signed_32_bit_rules() {
    assert_eq!(parse_i32("123"), Some(123));
    assert_eq!(parse_i32("+7"), Some(7));
    assert_eq!(parse_i32("-12"), Some(-12));
    assert_eq!(parse_i32("2147483647"), Some(i32::MAX));
    assert_eq!(parse_i32("2147483648"), None);
    assert_eq!(parse_i32("-2147483648"), Some(i32::MIN));
    assert_eq!(parse_i32("-2147483649"), None);
    assert_eq!(parse_i32("12a"), None);
    assert_eq!(parse_i32(""), None);
    assert_eq!(parse_i32("-"), None);
}

#[test]
fn identifier_dispatch_follows_the_text_length() {
    let mut store = Store::new();
    let node_id = store
        .add_node(
            0xA1,
            String::from("node"),
            String::from("http://agent.internal:8080"),
            String::from("token"),
            None,
            None,
            2022,
            None,
        )
        .unwrap();
    let uuid: u128 = 0x123e4567_e89b_12d3_a456_426614174000;
    let params = panel_core::saga::CreateParams {
        node_id,
        owner_id: 7,
        egg_id: 3,
        allocation_id: None,
        allocation_ids: Vec::new(),
        external_id: None,
        start_on_completion: false,
        skip_scripts: true,
        name: String::from("craft"),
        description: None,
        limits: panel_core::model::ApiServerLimits {
            cpu: 100,
            memory: 512,
            swap: 0,
            disk: 1024,
            io_weight: None,
        },
        pinned_cpus: Vec::new(),
        startup: String::from("run"),
        image: String::from("java:21"),
        timezone: None,
        feature_limits: panel_core::model::ApiServerFeatureLimits {
            allocations: 1,
            databases: 0,
            backups: 0,
        },
        created: 0,
    };
    let (server_id, _) =
        Server::create_with_candidates(&mut store, params, &vec![uuid; 8]).unwrap();

    // Thirty-six bytes: the full identifier, rendered as the uuid crate
    // renders it.
    let text = uuid::Uuid::from_u128(uuid).hyphenated().to_string();
    let row = Server::by_identifier(&store, &text).unwrap().unwrap();
    assert_eq!(row.uuid, uuid);

    // Eight bytes: the short identifier in hexadecimal.
    let short_text = format!("{:08x}", (uuid >> 96) as u32);
    let row = Server::by_identifier(&store, &short_text).unwrap().unwrap();
    assert_eq!(row.id, server_id);

    // Anything else: the numeric row identifier.
    let row = Server::by_identifier(&store, &server_id.to_string()).unwrap().unwrap();
    assert_eq!(row.uuid, uuid);

    // Text that does not parse as the selected kind is an error.
    assert!(Server::by_identifier(&store, "zzzzzzzz").is_err());
    assert!(Server::by_identifier(&store, "not-a-number").is_err());
}

#[test]
fn checkpoint_codes_route_by_length() {
    assert_eq!(checkpoint_code_path("123456"), CheckpointDecision::TotpCheck);
    assert_eq!(checkpoint_code_path("0123456789"), CheckpointDecision::RecoveryCheck);
    assert_eq!(checkpoint_code_path("1234"), CheckpointDecision::Invalid);
}

#[test]
fn auth_gate_checks_credential_lengths() {
    assert_eq!(classify_auth(Some(81), None), AuthGate::SessionLookup);
    assert_eq!(classify_auth(Some(80), None), AuthGate::InvalidCookie);
    assert_eq!(classify_auth(Some(80), Some(55)), AuthGate::InvalidCookie);
    assert_eq!(classify_auth(None, Some(55)), AuthGate::ApiKeyLookup);
    assert_eq!(classify_auth(None, Some(54)), AuthGate::InvalidHeader);
    assert_eq!(classify_auth(None, None), AuthGate::Missing);
}
