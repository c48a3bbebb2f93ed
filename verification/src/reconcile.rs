use vstd::prelude::*;

use crate::model::ServerStatus;
use crate::store::{server_with_id, BackupRow, ServerRow, Store};

verus! {

/// Whether the server with this identifier lives on the node.
pub open spec fn server_on_node(servers: Seq<ServerRow>, server_id: i32, node_id: i32) -> bool {
    exists|k: int|
        0 <= k < servers.len() && #[trigger] servers[k].id == server_id && servers[k].node_id
            == node_id
}

/// What the reset does to one server row: an interrupted restore on the
/// named node is assumed abandoned and the server returns to operational.
pub open spec fn spec_reset_server(r: ServerRow, node_id: i32) -> ServerRow {
    if r.node_id == node_id && r.status == Some(ServerStatus::RestoringBackup) {
        ServerRow { status: None, ..r }
    } else {
        r
    }
}

/// What the reset does to one backup: a backup of a server on the named node
/// that never completed is closed as failed, completed now.
pub open spec fn spec_reset_backup(
    b: BackupRow,
    servers: Seq<ServerRow>,
    node_id: i32,
    now: i64,
) -> BackupRow {
    if b.completed is None && server_on_node(servers, b.server_id, node_id) {
        BackupRow { successful: false, completed: Some(now), ..b }
    } else {
        b
    }
}

/// Whether a server with the given identifier lives on the node.
fn server_on_node_exec(store: &Store, server_id: i32, node_id: i32) -> (r: bool)
    ensures
        r == server_on_node(store.servers@, server_id, node_id),
{
    let mut i: usize = 0;
    while i < store.servers.len()
        invariant
            i <= store.servers@.len(),
            forall|k: int|
                0 <= k < i ==> !(#[trigger] store.servers@[k].id == server_id
                    && store.servers@[k].node_id == node_id),
        decreases store.servers@.len() - i,
    {
        if store.servers[i].id == server_id && store.servers[i].node_id == node_id {
            return true;
        }
        i += 1;
    }
    false
}

/// Invoked when an agent reports that it has restarted: every server on the
/// node still marked as restoring a backup is reset to operational, and every
/// backup of a server on the node that never completed is closed as failed,
/// completed at `now`. Nothing else changes.
#[verifier::loop_isolation(false)]
pub fn reconcile_node_reset(store: &mut Store, node_id: i32, now: i64)
    requires
        old(store).wf(),
    ensures
        final(store).wf(),
        final(store).backups@.len() == old(store).backups@.len(),
        forall|i: int|
            0 <= i < old(store).backups@.len() ==> #[trigger] final(store).backups@[i]
                == spec_reset_backup(old(store).backups@[i], old(store).servers@, node_id, now),
        final(store).servers@.len() == old(store).servers@.len(),
        forall|i: int|
            0 <= i < old(store).servers@.len() ==> #[trigger] final(store).servers@[i]
                == spec_reset_server(old(store).servers@[i], node_id),
        final(store).nodes@ == old(store).nodes@,
        final(store).server_allocations@ == old(store).server_allocations@,
        final(store).node_allocations@ == old(store).node_allocations@,
        final(store).next_node_id == old(store).next_node_id,
        final(store).next_server_id == old(store).next_server_id,
        final(store).next_server_allocation_id == old(store).next_server_allocation_id,
        final(store).next_node_allocation_id == old(store).next_node_allocation_id,
        final(store).next_backup_id == old(store).next_backup_id,
{
    let mut i: usize = 0;
    while i < store.backups.len()
        invariant
            i <= store.backups@.len(),
            store.backups@.len() == old(store).backups@.len(),
            forall|k: int|
                0 <= k < i ==> #[trigger] store.backups@[k] == spec_reset_backup(
                    old(store).backups@[k],
                    old(store).servers@,
                    node_id,
                    now,
                ),
            forall|k: int|
                i <= k < store.backups@.len() ==> #[trigger] store.backups@[k] == old(
                    store,
                ).backups@[k],
            store.servers@ == old(store).servers@,
            store.nodes@ == old(store).nodes@,
            store.server_allocations@ == old(store).server_allocations@,
            store.node_allocations@ == old(store).node_allocations@,
            store.next_node_id == old(store).next_node_id,
            store.next_server_id == old(store).next_server_id,
            store.next_server_allocation_id == old(store).next_server_allocation_id,
            store.next_node_allocation_id == old(store).next_node_allocation_id,
            store.next_backup_id == old(store).next_backup_id,
        decreases store.backups@.len() - i,
    {
        let b = store.backups[i];
        if b.completed.is_none() && server_on_node_exec(store, b.server_id, node_id) {
            let updated = BackupRow { successful: false, completed: Some(now), ..b };
            store.backups.set(i, updated);
        }
        i += 1;
    }

    let ghost backups_mid = store.backups@;
    let mut servers: Vec<ServerRow> = Vec::new();
    core::mem::swap(&mut servers, &mut store.servers);
    let ghost servers0 = servers@;
    let mut src = servers;
    let mut out: Vec<ServerRow> = Vec::new();
    while src.len() > 0
        invariant
            src@.len() <= servers0.len(),
            out@.len() + src@.len() == servers0.len(),
            forall|k: int|
                0 <= k < out@.len() ==> #[trigger] out@[k] == spec_reset_server(
                    servers0[k],
                    node_id,
                ),
            forall|k: int|
                0 <= k < src@.len() ==> #[trigger] src@[k] == servers0[out@.len() + k],
        decreases src@.len(),
    {
        let mut row = src.remove(0);
        if row.node_id == node_id {
            let restoring = match &row.status {
                Some(s) => matches!(s, ServerStatus::RestoringBackup),
                None => false,
            };
            if restoring {
                row.status = None;
            }
        }
        out.push(row);
    }
    store.servers = out;

    proof {
        lemma_reset_preserves_wf(*old(store), *store, node_id, now);
    }
}

/// The reset changes only server statuses and backup completion marks, so
/// the store invariant carries over.
proof fn lemma_reset_preserves_wf(pre: Store, post: Store, node_id: i32, now: i64)
    requires
        pre.wf(),
        post.backups@.len() == pre.backups@.len(),
        forall|i: int|
            0 <= i < pre.backups@.len() ==> #[trigger] post.backups@[i] == spec_reset_backup(
                pre.backups@[i],
                pre.servers@,
                node_id,
                now,
            ),
        post.servers@.len() == pre.servers@.len(),
        forall|i: int|
            0 <= i < pre.servers@.len() ==> #[trigger] post.servers@[i] == spec_reset_server(
                pre.servers@[i],
                node_id,
            ),
        post.nodes@ == pre.nodes@,
        post.server_allocations@ == pre.server_allocations@,
        post.node_allocations@ == pre.node_allocations@,
        post.next_node_id == pre.next_node_id,
        post.next_server_id == pre.next_server_id,
        post.next_server_allocation_id == pre.next_server_allocation_id,
        post.next_node_allocation_id == pre.next_node_allocation_id,
        post.next_backup_id == pre.next_backup_id,
    ensures
        post.wf(),
{
    assert forall|i: int| 0 <= i < post.servers@.len() implies {
        &&& #[trigger] post.servers@[i].id == pre.servers@[i].id
        &&& post.servers@[i].uuid == pre.servers@[i].uuid
        &&& post.servers@[i].uuid_short == pre.servers@[i].uuid_short
        &&& post.servers@[i].node_id == pre.servers@[i].node_id
        &&& post.servers@[i].allocation_id == pre.servers@[i].allocation_id
    } by {
        assert(post.servers@[i] == spec_reset_server(pre.servers@[i], node_id));
    }
    assert forall|i: int| 0 <= i < post.backups@.len() implies {
        &&& #[trigger] post.backups@[i].id == pre.backups@[i].id
        &&& post.backups@[i].server_id == pre.backups@[i].server_id
    } by {
        assert(post.backups@[i] == spec_reset_backup(
            pre.backups@[i],
            pre.servers@,
            node_id,
            now,
        ));
    }
    assert forall|i: int| 0 <= i < post.servers@.len() implies crate::store::node_with_id(
        post.nodes@,
        #[trigger] post.servers@[i].node_id,
    ) by {
        let t = choose|t: int|
            0 <= t < pre.nodes@.len() && #[trigger] pre.nodes@[t].id == pre.servers@[i].node_id;
        assert(post.nodes@[t].id == post.servers@[i].node_id);
    }
    assert forall|i: int|
        0 <= i < post.servers@.len() implies match #[trigger] post.servers@[i].allocation_id {
        Some(aid) => exists|k: int|
            0 <= k < post.server_allocations@.len() && #[trigger] post.server_allocations@[k].id
                == aid && post.server_allocations@[k].server_id == post.servers@[i].id,
        None => true,
    } by {
        match post.servers@[i].allocation_id {
            Some(aid) => {
                assert(pre.servers@[i].allocation_id == Some(aid));
                let t = choose|t: int|
                    0 <= t < pre.server_allocations@.len()
                        && #[trigger] pre.server_allocations@[t].id == aid
                        && pre.server_allocations@[t].server_id == pre.servers@[i].id;
                assert(post.server_allocations@[t].id == aid
                    && post.server_allocations@[t].server_id == post.servers@[i].id);
            },
            None => {},
        }
    }
    assert forall|i: int| 0 <= i < post.server_allocations@.len() implies server_with_id(
        post.servers@,
        #[trigger] post.server_allocations@[i].server_id,
    ) by {
        let t = choose|t: int|
            0 <= t < pre.servers@.len() && #[trigger] pre.servers@[t].id
                == pre.server_allocations@[i].server_id;
        assert(post.servers@[t].id == post.server_allocations@[i].server_id);
    }
    assert forall|i: int| 0 <= i < post.backups@.len() implies server_with_id(
        post.servers@,
        #[trigger] post.backups@[i].server_id,
    ) by {
        let t = choose|t: int|
            0 <= t < pre.servers@.len() && #[trigger] pre.servers@[t].id
                == pre.backups@[i].server_id;
        assert(post.servers@[t].id == post.backups@[i].server_id);
    }
}

} // verus!
