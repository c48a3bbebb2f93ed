use panel_core::store::{NodeAllocation, Store};

fn add_node(store: &mut Store, uuid: u128) -> i32 {
    store
        .add_node(
            uuid,
            String::from("node"),
            String::from("http://agent.internal:8080"),
            String::from("token"),
            None,
            None,
            2022,
            None,
        )
        .unwrap()
}

#[test]
fn endpoints_list_in_address_then_port_order() {
    let mut store = Store::new();
    let n1 = add_node(&mut store, 0xA1);
    // Inserted out of order on purpose.
    NodeAllocation::create(&mut store, n1, 0x0A00_0002, None, 100, 1).unwrap();
    NodeAllocation::create(&mut store, n1, 0x0A00_0001, None, 200, 1).unwrap();
    NodeAllocation::create(&mut store, n1, 0x0A00_0001, None, 100, 1).unwrap();
    NodeAllocation::create(&mut store, n1, 0x0A00_0002, None, 50, 1).unwrap();

    let page = NodeAllocation::by_node_id_with_pagination(&store, n1, 1, 10);
    let got: Vec<(u128, i32)> = page.data.iter().map(|a| (a.ip, a.port)).collect();
    assert_eq!(
        got,
        vec![
            (0x0A00_0001, 100),
            (0x0A00_0001, 200),
            (0x0A00_0002, 50),
            (0x0A00_0002, 100),
        ]
    );
    assert_eq!(page.total, 4);
    assert_eq!(page.page, 1);
    assert_eq!(page.per_page, 10);
}

#[test]
fn listing_pages_slice_the_ordered_rows() {
    let mut store = Store::new();
    let n1 = add_node(&mut store, 0xA1);
    let n2 = add_node(&mut store, 0xA2);
    for port in [10, 20, 30, 40, 50] {
        NodeAllocation::create(&mut store, n1, 0x0A00_0001, None, port, 1).unwrap();
    }
    NodeAllocation::create(&mut store, n2, 0x0A00_0001, None, 15, 1).unwrap();

    let page = NodeAllocation::by_node_id_with_pagination(&store, n1, 2, 2);
    let got: Vec<i32> = page.data.iter().map(|a| a.port).collect();
    assert_eq!(got, vec![30, 40]);
    assert_eq!(page.total, 5);

    // A page beyond the rows is empty, with the zero total the backing
    // listing reports in that case.
    let beyond = NodeAllocation::by_node_id_with_pagination(&store, n1, 9, 2);
    assert!(beyond.data.is_empty());
    assert_eq!(beyond.total, 0);
}

#[test]
fn duplicate_endpoint_on_one_node_is_a_conflict() {
    let mut store = Store::new();
    let n1 = add_node(&mut store, 0xA1);
    let n2 = add_node(&mut store, 0xA2);
    NodeAllocation::create(&mut store, n1, 0x0A00_0001, None, 100, 1).unwrap();
    // Same endpoint on another node is fine; on the same node it is not.
    NodeAllocation::create(&mut store, n2, 0x0A00_0001, None, 100, 1).unwrap();
    let err = NodeAllocation::create(&mut store, n1, 0x0A00_0001, None, 100, 1).unwrap_err();
    assert_eq!(err, panel_core::allocation::AllocationError::Conflict);
}

#[test]
fn endpoint_lookup_is_scoped_to_the_node() {
    let mut store = Store::new();
    let n1 = add_node(&mut store, 0xA1);
    let n2 = add_node(&mut store, 0xA2);
    NodeAllocation::create(&mut store, n1, 0x0A00_0001, Some(String::from("lan")), 100, 1)
        .unwrap();
    let id = store.node_allocations[0].id;
    let found = NodeAllocation::by_node_id_id(&store, n1, id).unwrap();
    assert_eq!(found.port, 100);
    assert_eq!(found.ip_alias.as_deref(), Some("lan"));
    assert!(NodeAllocation::by_node_id_id(&store, n2, id).is_none());
}
