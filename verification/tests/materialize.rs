use panel_core::mail::{Mail, MailMode, Settings, Transport};
use panel_core::model::{NestEgg, Node, ServerConfigurationAutoKill};
use panel_core::remote_config::{EggEnvironmentVariable, Mount};
use panel_core::server::Server;
use panel_core::store::{NodeAllocation, ServerAllocation, ServerRow};
use std::sync::Arc;

fn egg() -> NestEgg {
    NestEgg {
        id: 0x0102_0304,
        force_outgoing_ip: true,
        file_denylist: vec![String::from("server.jar")],
        config_startup: String::from("{\"done\":\"Done\"}"),
        config_stop: String::from("stop"),
        config_files: String::from("[]"),
    }
}

fn node() -> Node {
    Node {
        id: 1,
        uuid: 0xAA,
        name: String::from("node-a"),
        url: String::from("http://agent.internal:8080"),
        token: String::from("token-a"),
        public_url: None,
        sftp_host: None,
        sftp_port: 2022,
        maintenance_message: None,
    }
}

fn row() -> ServerRow {
    ServerRow {
        id: 9,
        uuid: 0x42,
        uuid_short: 0,
        external_id: None,
        node_id: 1,
        owner_id: 7,
        egg_id: 0x0102_0304,
        allocation_id: Some(31),
        destination_node_id: None,
        status: None,
        suspended: true,
        name: String::from("craft"),
        description: None,
        memory: 2048,
        swap: -1,
        disk: 8192,
        io_weight: Some(500),
        cpu: 300,
        pinned_cpus: vec![0, 3, 12],
        startup: String::from("java -jar server.jar"),
        image: String::from("java:21"),
        timezone: Some(String::from("Etc/UTC")),
        allocation_limit: 2,
        database_limit: 1,
        backup_limit: 3,
        auto_kill: ServerConfigurationAutoKill { enabled: true, seconds: 30 },
        created: 100,
    }
}

#[test]
fn remote_object_materializes_the_agent_configuration() {
    let binding = ServerAllocation {
        id: 31,
        server_id: 9,
        allocation_id: 11,
        notes: None,
        created: 100,
    };
    let endpoint = NodeAllocation {
        id: 11,
        node_id: 1,
        ip: 0x0A00_0001,
        ip_alias: None,
        port: 25565,
        created: 100,
    };
    let server = Server::assemble(row(), Some((binding, endpoint)), node(), egg(), None, None);

    let variables = vec![
        EggEnvironmentVariable {
            env_variable: String::from("SERVER_JARFILE"),
            value: Some(String::from("server.jar")),
        },
        EggEnvironmentVariable { env_variable: String::from("EULA"), value: None },
    ];
    let mounts = vec![Mount {
        source: String::from("/mnt/shared"),
        target: String::from("/home/shared"),
        read_only: true,
    }];
    let allocations: Vec<(u128, i32)> = vec![
        (0x0A00_0001, 25565),
        (0x0A00_0002, 25570),
        (0x0A00_0001, 25566),
    ];

    let remote = server.into_remote_api_object(variables, vec![0xB1, 0xB2], mounts, allocations);

    assert_eq!(remote.settings.uuid, 0x42);
    assert_eq!(remote.settings.start_on_completion, None);
    assert_eq!(remote.settings.meta.name, "craft");
    assert_eq!(remote.settings.meta.description, "");
    assert!(remote.settings.suspended);
    assert_eq!(remote.settings.invocation, "java -jar server.jar");
    assert!(!remote.settings.skip_egg_scripts);

    assert_eq!(remote.settings.environment.len(), 2);
    assert_eq!(remote.settings.environment[0].0, "SERVER_JARFILE");
    assert_eq!(remote.settings.environment[0].1, "server.jar");
    assert_eq!(remote.settings.environment[1].0, "EULA");
    assert_eq!(remote.settings.environment[1].1, "");

    assert_eq!(remote.settings.backups, vec![0xB1, 0xB2]);

    assert!(remote.settings.allocations.force_outgoing_ip);
    let default = remote.settings.allocations.default.as_ref().unwrap();
    assert_eq!(default.ip, 0x0A00_0001);
    assert_eq!(default.port, 25565);
    // Grouped per address in first-seen order, ports in listing order.
    assert_eq!(remote.settings.allocations.mappings.len(), 2);
    assert_eq!(remote.settings.allocations.mappings[0].0, 0x0A00_0001);
    assert_eq!(remote.settings.allocations.mappings[0].1, vec![25565, 25566]);
    assert_eq!(remote.settings.allocations.mappings[1].0, 0x0A00_0002);
    assert_eq!(remote.settings.allocations.mappings[1].1, vec![25570]);

    assert_eq!(remote.settings.build.memory_limit, 2048);
    assert_eq!(remote.settings.build.swap, -1);
    assert_eq!(remote.settings.build.io_weight, Some(500));
    assert_eq!(remote.settings.build.cpu_limit, 300);
    assert_eq!(remote.settings.build.disk_space, 8192);
    assert_eq!(remote.settings.build.threads.as_deref(), Some("0,3,12"));
    assert!(remote.settings.build.oom_disabled);

    assert_eq!(remote.settings.mounts.len(), 1);
    assert_eq!(remote.settings.mounts[0].target, "/home/shared");

    // The template identifier is spread over the leading fields, exactly as
    // the uuid crate composes them.
    let expected = uuid::Uuid::from_fields(
        0x0102_0304_u32,
        (0x0102_0304_i32 >> 16) as u16,
        0x0102_0304_i32 as u16,
        &[0; 8],
    );
    assert_eq!(remote.settings.egg.id, expected.as_u128());
    assert_eq!(remote.settings.egg.file_denylist, vec![String::from("server.jar")]);

    assert_eq!(remote.settings.container.image, "java:21");
    assert_eq!(remote.settings.container.timezone.as_deref(), Some("Etc/UTC"));
    assert!(remote.settings.auto_kill.enabled);
    assert_eq!(remote.settings.auto_kill.seconds, 30);

    assert_eq!(remote.process_configuration.stop, "stop");
}

#[test]
fn threads_text_is_empty_only_without_pinned_cpus() {
    let mut r = row();
    r.pinned_cpus = Vec::new();
    let server = Server::assemble(r, None, node(), egg(), None, None);
    let remote = server.into_remote_api_object(Vec::new(), Vec::new(), Vec::new(), Vec::new());
    assert_eq!(remote.settings.build.threads, None);
    assert!(remote.settings.allocations.default.is_none());
    assert_eq!(remote.settings.allocations.mappings.len(), 0);
}

#[test]
fn transport_plan_follows_the_mail_settings() {
    let off = Mail::new(Arc::new(Settings { mail_mode: MailMode::Disabled }));
    assert!(matches!(off.get_transport(), Transport::Disabled));

    let smtp = Mail::new(Arc::new(Settings {
        mail_mode: MailMode::Smtp {
            host: String::from("mail.example.net"),
            port: 587,
            username: Some(String::from("panel")),
            password: None,
            use_tls: true,
            from_address: String::from("panel@example.net"),
            from_name: Some(String::from("The Panel")),
        },
    }));
    match smtp.get_transport() {
        Transport::Smtp { host, port, tls_required, credentials, from_address, from_name } => {
            assert_eq!(host, "mail.example.net");
            assert_eq!(port, 587);
            assert!(tls_required);
            // A configured user without a password gets a blank password.
            assert_eq!(credentials, Some((String::from("panel"), String::new())));
            assert_eq!(from_address, "panel@example.net");
            assert_eq!(from_name.as_deref(), Some("The Panel"));
        },
        Transport::Disabled => panic!("expected an SMTP plan"),
    }

    let anonymous = Mail::new(Arc::new(Settings {
        mail_mode: MailMode::Smtp {
            host: String::from("mail.example.net"),
            port: 25,
            username: None,
            password: Some(String::from("ignored")),
            use_tls: false,
            from_address: String::from("panel@example.net"),
            from_name: None,
        },
    }));
    match anonymous.get_transport() {
        Transport::Smtp { tls_required, credentials, .. } => {
            assert!(!tls_required);
            assert_eq!(credentials, None);
        },
        Transport::Disabled => panic!("expected an SMTP plan"),
    }
}
