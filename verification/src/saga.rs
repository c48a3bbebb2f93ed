use vstd::prelude::*;
use vstd::seq_lib::*;

use crate::model::ServerStatus;
use crate::agent::ApiError;
use crate::server::Server;
use crate::store::{
    collides, lemma_filter_origin, lemma_filter_preserves_pairwise, BackupRow, NodeAllocation,
    ServerAllocation, ServerRow, Store,
};
use crate::{short_of, spec_short_of};

verus! {

/// How server creation fails: the identifier retry budget ran out; a
/// requested endpoint is already bound (or requested twice); a referenced
/// node or endpoint does not exist.
#[derive(PartialEq, Eq, Structural, Clone, Copy, Debug)]
pub enum CreateError {
    IdentifierCollisionExhausted,
    Conflict,
    NotFound,
}

/// The request that provisions a server.
pub struct CreateParams {
    pub node_id: i32,
    pub owner_id: i32,
    pub egg_id: i32,
    pub allocation_id: Option<i32>,
    pub allocation_ids: Vec<i32>,
    pub external_id: Option<String>,
    pub start_on_completion: bool,
    pub skip_scripts: bool,
    pub name: String,
    pub description: Option<String>,
    pub limits: crate::model::ApiServerLimits,
    pub pinned_cpus: Vec<i16>,
    pub startup: String,
    pub image: String,
    pub timezone: Option<String>,
    pub feature_limits: crate::model::ApiServerFeatureLimits,
    pub created: i64,
}

/// The endpoints the request asks to bind: the default one first, then the
/// additional list.
pub open spec fn requested_allocations(p: CreateParams) -> Seq<i32> {
    match p.allocation_id {
        Some(a) => seq![a] + p.allocation_ids@,
        None => p.allocation_ids@,
    }
}

/// The first candidate identifier from position `i` on that does not collide
/// with an existing server, if any.
pub open spec fn first_fresh_from(servers: Seq<ServerRow>, cands: Seq<u128>, i: int) -> Option<
    int,
>
    decreases cands.len() - i,
{
    if i >= cands.len() {
        None
    } else if !collides(servers, cands[i]) {
        Some(i)
    } else {
        first_fresh_from(servers, cands, i + 1)
    }
}

/// The first candidate identifier that does not collide with an existing
/// server, if any.
pub open spec fn first_fresh_index(servers: Seq<ServerRow>, cands: Seq<u128>) -> Option<int> {
    first_fresh_from(servers, cands, 0)
}

pub open spec fn allocs_all_exist(req: Seq<i32>, endpoints: Seq<NodeAllocation>) -> bool {
    forall|i: int|
        0 <= i < req.len() ==> crate::store::node_allocation_with_id(endpoints, #[trigger] req[i])
}

pub open spec fn allocs_all_free(req: Seq<i32>, bindings: Seq<ServerAllocation>) -> bool {
    forall|i: int|
        0 <= i < req.len() ==> !crate::store::allocation_bound(bindings, #[trigger] req[i])
}

pub open spec fn allocs_distinct(req: Seq<i32>) -> bool {
    forall|i: int, j: int| 0 <= i < j < req.len() ==> req[i] != req[j]
}

/// The server row that a successful creation inserts.
pub open spec fn spec_created_row(
    p: CreateParams,
    id: i32,
    uuid: u128,
    default_alloc: Option<i32>,
) -> ServerRow {
    ServerRow {
        id,
        uuid,
        uuid_short: spec_short_of(uuid),
        external_id: p.external_id,
        node_id: p.node_id,
        owner_id: p.owner_id,
        egg_id: p.egg_id,
        allocation_id: default_alloc,
        destination_node_id: None,
        status: if p.skip_scripts {
            None
        } else {
            Some(ServerStatus::Installing)
        },
        suspended: false,
        name: p.name,
        description: p.description,
        memory: p.limits.memory,
        swap: p.limits.swap,
        disk: p.limits.disk,
        io_weight: p.limits.io_weight,
        cpu: p.limits.cpu,
        pinned_cpus: p.pinned_cpus,
        startup: p.startup,
        image: p.image,
        timezone: p.timezone,
        allocation_limit: p.feature_limits.allocations,
        database_limit: p.feature_limits.databases,
        backup_limit: p.feature_limits.backups,
        auto_kill: crate::model::ServerConfigurationAutoKill { enabled: false, seconds: 0 },
        created: p.created,
    }
}

/// The binding rows that a successful creation inserts, one per requested
/// endpoint, with serial identifiers from `first_id` on.
pub open spec fn spec_created_bindings(
    req: Seq<i32>,
    server_id: i32,
    first_id: i32,
    created: i64,
) -> Seq<ServerAllocation> {
    Seq::new(
        req.len(),
        |t: int|
            ServerAllocation {
                id: (first_id + t) as i32,
                server_id,
                allocation_id: req[t],
                notes: None,
                created,
            },
    )
}

/// Whether creation succeeds on this store and request: some candidate
/// identifier is fresh, the node exists, and the requested endpoints exist,
/// are unbound and are pairwise distinct.
pub open spec fn create_ok(pre: Store, params: CreateParams, cands: Seq<u128>) -> bool {
    &&& first_fresh_index(pre.servers@, cands) is Some
    &&& crate::store::node_with_id(pre.nodes@, params.node_id)
    &&& allocs_all_exist(requested_allocations(params), pre.node_allocations@)
    &&& allocs_all_free(requested_allocations(params), pre.server_allocations@)
    &&& allocs_distinct(requested_allocations(params))
}

/// Which error a failed creation reports: an exhausted identifier budget
/// first; then a missing node or endpoint; else a binding conflict.
pub open spec fn create_error_of(pre: Store, params: CreateParams, cands: Seq<u128>) -> CreateError {
    if first_fresh_index(pre.servers@, cands) is None {
        CreateError::IdentifierCollisionExhausted
    } else if !crate::store::node_with_id(pre.nodes@, params.node_id) || !allocs_all_exist(
        requested_allocations(params),
        pre.node_allocations@,
    ) {
        CreateError::NotFound
    } else {
        CreateError::Conflict
    }
}

/// The exact effect of the local creation phase: on success the chosen row
/// and its bindings are appended and the serial counters advance; on failure
/// the store is left as it was and the error names the cause.
pub open spec fn create_result_spec(
    pre: Store,
    params: CreateParams,
    cands: Seq<u128>,
    post: Store,
    r: Result<(i32, u128), CreateError>,
) -> bool {
    if create_ok(pre, params, cands) {
        let k = first_fresh_index(pre.servers@, cands).unwrap();
        let uuid = cands[k];
        let id = pre.next_server_id;
        let req = requested_allocations(params);
        let default_alloc: Option<i32> = if params.allocation_id is Some {
            Some(pre.next_server_allocation_id)
        } else {
            None
        };
        &&& r matches Ok(ok) && ok == (id, uuid)
        &&& post.servers@ == pre.servers@.push(spec_created_row(params, id, uuid, default_alloc))
        &&& post.server_allocations@ == pre.server_allocations@ + spec_created_bindings(
            req,
            id,
            pre.next_server_allocation_id,
            params.created,
        )
        &&& post.nodes@ == pre.nodes@
        &&& post.node_allocations@ == pre.node_allocations@
        &&& post.backups@ == pre.backups@
        &&& post.next_server_id == pre.next_server_id + 1
        &&& post.next_server_allocation_id == pre.next_server_allocation_id + req.len()
        &&& post.next_node_id == pre.next_node_id
        &&& post.next_node_allocation_id == pre.next_node_allocation_id
        &&& post.next_backup_id == pre.next_backup_id
    } else {
        &&& r matches Err(e) && e == create_error_of(pre, params, cands)
        &&& post == pre
    }
}

/// If every candidate identifier collides with an existing server, no fresh
/// one is found; and a fresh one is found whenever some candidate does not
/// collide. This is what makes the bounded retry exhaustible exactly by
/// forcing every candidate into a collision.
pub proof fn lemma_first_fresh_none_iff_all_collide(servers: Seq<ServerRow>, cands: Seq<u128>)
    ensures
        first_fresh_index(servers, cands) is None <==> (forall|i: int|
            0 <= i < cands.len() ==> collides(servers, #[trigger] cands[i])),
{
    lemma_first_fresh_from_none_iff(servers, cands, 0);
}

proof fn lemma_first_fresh_from_none_iff(servers: Seq<ServerRow>, cands: Seq<u128>, i: int)
    ensures
        first_fresh_from(servers, cands, i) is None <==> (forall|j: int|
            i <= j < cands.len() ==> collides(servers, #[trigger] cands[j])),
    decreases cands.len() - i,
{
    if i < cands.len() {
        lemma_first_fresh_from_none_iff(servers, cands, i + 1);
    }
}

/// A found fresh candidate is within bounds and does not collide.
pub proof fn lemma_first_fresh_sound(servers: Seq<ServerRow>, cands: Seq<u128>, i: int)
    ensures
        (first_fresh_from(servers, cands, i) matches Some(k) ==> i <= k < cands.len() && !collides(
            servers,
            cands[k],
        )),
    decreases cands.len() - i,
{
    if i < cands.len() {
        lemma_first_fresh_sound(servers, cands, i + 1);
    }
}

/// The server rows that survive deleting `id`: all whose identifier differs.
pub open spec fn servers_without(s: Seq<ServerRow>, id: i32) -> Seq<ServerRow> {
    s.filter(|r: ServerRow| r.id != id)
}

/// The binding rows that survive deleting server `id`.
pub open spec fn bindings_without(s: Seq<ServerAllocation>, id: i32) -> Seq<ServerAllocation> {
    s.filter(|b: ServerAllocation| b.server_id != id)
}

/// The backups that survive deleting server `id`.
pub open spec fn backups_without(s: Seq<BackupRow>, id: i32) -> Seq<BackupRow> {
    s.filter(|b: BackupRow| b.server_id != id)
}

/// How one appended row changes the survivors.
proof fn lemma_servers_without_push(s: Seq<ServerRow>, x: ServerRow, id: i32)
    ensures
        servers_without(s.push(x), id) == if x.id != id {
            servers_without(s, id).push(x)
        } else {
            servers_without(s, id)
        },
{
    broadcast use Seq::lemma_filter_push;

}

proof fn lemma_bindings_without_push(s: Seq<ServerAllocation>, x: ServerAllocation, id: i32)
    ensures
        bindings_without(s.push(x), id) == if x.server_id != id {
            bindings_without(s, id).push(x)
        } else {
            bindings_without(s, id)
        },
{
    broadcast use Seq::lemma_filter_push;

}

proof fn lemma_backups_without_push(s: Seq<BackupRow>, x: BackupRow, id: i32)
    ensures
        backups_without(s.push(x), id) == if x.server_id != id {
            backups_without(s, id).push(x)
        } else {
            backups_without(s, id)
        },
{
    broadcast use Seq::lemma_filter_push;

}

/// Keeps the server rows whose identifier differs, in order.
fn filter_servers(v: Vec<ServerRow>, server_id: i32) -> (r: Vec<ServerRow>)
    ensures
        r@ == servers_without(v@, server_id),
{
    broadcast use Seq::lemma_filter_push;

    let ghost orig = v@;
    let mut src = v;
    let mut out: Vec<ServerRow> = Vec::new();
    while src.len() > 0
        invariant
            src@.len() <= orig.len(),
            src@ =~= orig.skip(orig.len() - src@.len()),
            out@ == servers_without(orig.take(orig.len() - src@.len()), server_id),
        decreases src@.len(),
    {
        let ghost i = orig.len() - src@.len();
        let row = src.remove(0);
        proof {
            assert(row == orig[i]);
            assert(src@ =~= orig.skip(i + 1));
            assert(orig.take(i + 1) =~= orig.take(i).push(orig[i]));
            lemma_servers_without_push(orig.take(i), orig[i], server_id);
        }
        if row.id != server_id {
            out.push(row);
        }
    }
    proof {
        assert(orig.take(orig.len() as int) =~= orig);
    }
    out
}

/// Keeps the binding rows of other servers, in order.
fn filter_bindings(v: Vec<ServerAllocation>, server_id: i32) -> (r: Vec<ServerAllocation>)
    ensures
        r@ == bindings_without(v@, server_id),
{
    broadcast use Seq::lemma_filter_push;

    let ghost orig = v@;
    let mut src = v;
    let mut out: Vec<ServerAllocation> = Vec::new();
    while src.len() > 0
        invariant
            src@.len() <= orig.len(),
            src@ =~= orig.skip(orig.len() - src@.len()),
            out@ == bindings_without(orig.take(orig.len() - src@.len()), server_id),
        decreases src@.len(),
    {
        let ghost i = orig.len() - src@.len();
        let row = src.remove(0);
        proof {
            assert(row == orig[i]);
            assert(src@ =~= orig.skip(i + 1));
            assert(orig.take(i + 1) =~= orig.take(i).push(orig[i]));
            lemma_bindings_without_push(orig.take(i), orig[i], server_id);
        }
        if row.server_id != server_id {
            out.push(row);
        }
    }
    proof {
        assert(orig.take(orig.len() as int) =~= orig);
    }
    out
}

/// Keeps the backups of other servers, in order.
fn filter_backups(v: Vec<BackupRow>, server_id: i32) -> (r: Vec<BackupRow>)
    ensures
        r@ == backups_without(v@, server_id),
{
    broadcast use Seq::lemma_filter_push;

    let ghost orig = v@;
    let mut src = v;
    let mut out: Vec<BackupRow> = Vec::new();
    while src.len() > 0
        invariant
            src@.len() <= orig.len(),
            src@ =~= orig.skip(orig.len() - src@.len()),
            out@ == backups_without(orig.take(orig.len() - src@.len()), server_id),
        decreases src@.len(),
    {
        let ghost i = orig.len() - src@.len();
        let row = src.remove(0);
        proof {
            assert(row == orig[i]);
            assert(src@ =~= orig.skip(i + 1));
            assert(orig.take(i + 1) =~= orig.take(i).push(orig[i]));
            lemma_backups_without_push(orig.take(i), orig[i], server_id);
        }
        if row.server_id != server_id {
            out.push(row);
        }
    }
    proof {
        assert(orig.take(orig.len() as int) =~= orig);
    }
    out
}

/// Removes the server row, cascading to its binding rows and its backups;
/// every other row stays, in order.
pub(crate) fn cascade_delete(store: &mut Store, server_id: i32)
    requires
        old(store).wf(),
    ensures
        final(store).wf(),
        final(store).servers@ == servers_without(old(store).servers@, server_id),
        final(store).server_allocations@ == bindings_without(
            old(store).server_allocations@,
            server_id,
        ),
        final(store).backups@ == backups_without(old(store).backups@, server_id),
        final(store).nodes@ == old(store).nodes@,
        final(store).node_allocations@ == old(store).node_allocations@,
        final(store).next_node_id == old(store).next_node_id,
        final(store).next_server_id == old(store).next_server_id,
        final(store).next_server_allocation_id == old(store).next_server_allocation_id,
        final(store).next_node_allocation_id == old(store).next_node_allocation_id,
        final(store).next_backup_id == old(store).next_backup_id,
{
    let mut servers: Vec<ServerRow> = Vec::new();
    core::mem::swap(&mut servers, &mut store.servers);
    let servers = filter_servers(servers, server_id);
    store.servers = servers;

    let mut bindings: Vec<ServerAllocation> = Vec::new();
    core::mem::swap(&mut bindings, &mut store.server_allocations);
    let bindings = filter_bindings(bindings, server_id);
    store.server_allocations = bindings;

    let mut backups: Vec<BackupRow> = Vec::new();
    core::mem::swap(&mut backups, &mut store.backups);
    let backups = filter_backups(backups, server_id);
    store.backups = backups;

    proof {
        lemma_cascade_preserves_wf(*old(store), *store, server_id);
    }
}

/// Deleting one server together with its bindings and backups preserves the
/// store invariant.
proof fn lemma_cascade_preserves_wf(pre: Store, post: Store, server_id: i32)
    requires
        pre.wf(),
        post.servers@ == servers_without(pre.servers@, server_id),
        post.server_allocations@ == bindings_without(pre.server_allocations@, server_id),
        post.backups@ == backups_without(pre.backups@, server_id),
        post.nodes@ == pre.nodes@,
        post.node_allocations@ == pre.node_allocations@,
        post.next_node_id == pre.next_node_id,
        post.next_server_id == pre.next_server_id,
        post.next_server_allocation_id == pre.next_server_allocation_id,
        post.next_node_allocation_id == pre.next_node_allocation_id,
        post.next_backup_id == pre.next_backup_id,
    ensures
        post.wf(),
{
    let spred = |r: ServerRow| r.id != server_id;
    let bpred = |b: ServerAllocation| b.server_id != server_id;
    let kpred = |b: BackupRow| b.server_id != server_id;
    let sf = pre.servers@.filter(spred);
    let bf = pre.server_allocations@.filter(bpred);
    let kf = pre.backups@.filter(kpred);
    assert(post.servers@ == sf);
    assert(post.server_allocations@ == bf);
    assert(post.backups@ == kf);

    let srel = |a: ServerRow, b: ServerRow|
        a.id != b.id && a.uuid != b.uuid && a.uuid_short != b.uuid_short;
    assert forall|i: int, j: int| 0 <= i < j < pre.servers@.len() implies #[trigger] srel(
        pre.servers@[i],
        pre.servers@[j],
    ) by {
        assert(pre.servers@[i].id != pre.servers@[j].id);
    }
    lemma_filter_preserves_pairwise(pre.servers@, spred, srel);
    assert forall|i: int, j: int| 0 <= i < j < sf.len() implies #[trigger] sf[i].id
        != #[trigger] sf[j].id && sf[i].uuid != sf[j].uuid && sf[i].uuid_short
        != sf[j].uuid_short by {
        assert(srel(sf[i], sf[j]));
    }

    let brel = |a: ServerAllocation, b: ServerAllocation|
        a.id != b.id && a.allocation_id != b.allocation_id;
    assert forall|i: int, j: int| 0 <= i < j < pre.server_allocations@.len() implies #[trigger] brel(
        pre.server_allocations@[i],
        pre.server_allocations@[j],
    ) by {
        assert(pre.server_allocations@[i].id != pre.server_allocations@[j].id);
    }
    lemma_filter_preserves_pairwise(pre.server_allocations@, bpred, brel);
    assert forall|i: int, j: int| 0 <= i < j < bf.len() implies #[trigger] bf[i].id
        != #[trigger] bf[j].id && bf[i].allocation_id != bf[j].allocation_id by {
        assert(brel(bf[i], bf[j]));
    }

    let krel = |a: BackupRow, b: BackupRow| a.id != b.id;
    assert forall|i: int, j: int| 0 <= i < j < pre.backups@.len() implies #[trigger] krel(
        pre.backups@[i],
        pre.backups@[j],
    ) by {
        assert(pre.backups@[i].id != pre.backups@[j].id);
    }
    lemma_filter_preserves_pairwise(pre.backups@, kpred, krel);
    assert forall|i: int, j: int| 0 <= i < j < kf.len() implies #[trigger] kf[i].id
        != #[trigger] kf[j].id by {
        assert(krel(kf[i], kf[j]));
    }

    assert forall|i: int| 0 <= i < post.servers@.len() implies 0 < #[trigger] post.servers@[i].id
        < post.next_server_id by {
        let k = lemma_filter_origin(pre.servers@, spred, i);
    }
    assert forall|i: int|
        0 <= i < post.servers@.len() implies #[trigger] post.servers@[i].uuid_short
        == spec_short_of(post.servers@[i].uuid) by {
        let k = lemma_filter_origin(pre.servers@, spred, i);
    }
    assert forall|i: int| 0 <= i < post.servers@.len() implies crate::store::node_with_id(
        post.nodes@,
        #[trigger] post.servers@[i].node_id,
    ) by {
        let k = lemma_filter_origin(pre.servers@, spred, i);
        let t = choose|t: int|
            0 <= t < pre.nodes@.len() && #[trigger] pre.nodes@[t].id == pre.servers@[k].node_id;
        assert(post.nodes@[t].id == post.servers@[i].node_id);
    }
    assert forall|i: int|
        0 <= i < post.servers@.len() implies match #[trigger] post.servers@[i].allocation_id {
        Some(aid) => exists|k: int|
            0 <= k < post.server_allocations@.len() && #[trigger] post.server_allocations@[k].id
                == aid && post.server_allocations@[k].server_id == post.servers@[i].id,
        None => true,
    } by {
        let k = lemma_filter_origin(pre.servers@, spred, i);
        match post.servers@[i].allocation_id {
            Some(aid) => {
                assert(pre.servers@[k].allocation_id == Some(aid));
                let t = choose|t: int|
                    0 <= t < pre.server_allocations@.len()
                        && #[trigger] pre.server_allocations@[t].id == aid
                        && pre.server_allocations@[t].server_id == pre.servers@[k].id;
                assert(bpred(pre.server_allocations@[t]));
                pre.server_allocations@.lemma_filter_contains(bpred, t);
                assert(bf.contains(pre.server_allocations@[t]));
                let u = choose|u: int| 0 <= u < bf.len() && bf[u] == pre.server_allocations@[t];
                assert(post.server_allocations@[u].id == aid && post.server_allocations@[u].server_id
                    == post.servers@[i].id);
            },
            None => {},
        }
    }

    assert forall|i: int| 0 <= i < post.server_allocations@.len() implies 0
        < #[trigger] post.server_allocations@[i].id < post.next_server_allocation_id by {
        let k = lemma_filter_origin(pre.server_allocations@, bpred, i);
    }
    assert forall|i: int| 0 <= i < post.server_allocations@.len() implies crate::store::server_with_id(
        post.servers@,
        #[trigger] post.server_allocations@[i].server_id,
    ) by {
        let k = lemma_filter_origin(pre.server_allocations@, bpred, i);
        let b = post.server_allocations@[i];
        let t = choose|t: int|
            0 <= t < pre.servers@.len() && #[trigger] pre.servers@[t].id == b.server_id;
        assert(spred(pre.servers@[t]));
        pre.servers@.lemma_filter_contains(spred, t);
        assert(sf.contains(pre.servers@[t]));
        let u = choose|u: int| 0 <= u < sf.len() && sf[u] == pre.servers@[t];
        assert(post.servers@[u].id == b.server_id);
    }
    assert forall|i: int|
        0 <= i < post.server_allocations@.len() implies crate::store::node_allocation_with_id(
        post.node_allocations@,
        #[trigger] post.server_allocations@[i].allocation_id,
    ) by {
        let k = lemma_filter_origin(pre.server_allocations@, bpred, i);
        let b = post.server_allocations@[i];
        let t = choose|t: int|
            0 <= t < pre.node_allocations@.len() && #[trigger] pre.node_allocations@[t].id
                == b.allocation_id;
        assert(post.node_allocations@[t].id == b.allocation_id);
    }

    assert forall|i: int| 0 <= i < post.backups@.len() implies 0 < #[trigger] post.backups@[i].id
        < post.next_backup_id by {
        let k = lemma_filter_origin(pre.backups@, kpred, i);
    }
    assert forall|i: int| 0 <= i < post.backups@.len() implies crate::store::server_with_id(
        post.servers@,
        #[trigger] post.backups@[i].server_id,
    ) by {
        let k = lemma_filter_origin(pre.backups@, kpred, i);
        let b = post.backups@[i];
        let t = choose|t: int|
            0 <= t < pre.servers@.len() && #[trigger] pre.servers@[t].id == b.server_id;
        assert(spred(pre.servers@[t]));
        pre.servers@.lemma_filter_contains(spred, t);
        assert(sf.contains(pre.servers@[t]));
        let u = choose|u: int| 0 <= u < sf.len() && sf[u] == pre.servers@[t];
        assert(post.servers@[u].id == b.server_id);
    }
}

/// Picks the first candidate identifier that does not collide.
fn pick_fresh(store: &Store, candidates: &Vec<u128>) -> (r: Option<u128>)
    ensures
        r is Some <==> first_fresh_index(store.servers@, candidates@) is Some,
        r matches Some(u) ==> {
            &&& first_fresh_index(store.servers@, candidates@) matches Some(k) && u
                == candidates@[k]
            &&& !collides(store.servers@, u)
        },
{
    let mut i: usize = 0;
    while i < candidates.len()
        invariant
            i <= candidates@.len(),
            first_fresh_from(store.servers@, candidates@, 0) == first_fresh_from(
                store.servers@,
                candidates@,
                i as int,
            ),
        decreases candidates@.len() - i,
    {
        if !store.uuid_collides(candidates[i]) {
            return Some(candidates[i]);
        }
        i += 1;
    }
    None
}

/// The requested endpoint list as one vector: the default first.
fn build_requested(allocation_id: Option<i32>, allocation_ids: &Vec<i32>) -> (r: Vec<i32>)
    ensures
        r@ == match allocation_id {
            Some(a) => seq![a] + allocation_ids@,
            None => allocation_ids@,
        },
{
    let mut req: Vec<i32> = Vec::new();
    if let Some(a) = allocation_id {
        req.push(a);
    }
    let ghost head = req@;
    let mut i: usize = 0;
    while i < allocation_ids.len()
        invariant
            i <= allocation_ids@.len(),
            req@ == head + allocation_ids@.take(i as int),
        decreases allocation_ids@.len() - i,
    {
        req.push(allocation_ids[i]);
        proof {
            assert(allocation_ids@.take(i + 1) =~= allocation_ids@.take(i as int).push(
                allocation_ids@[i as int],
            ));
            assert(req@ =~= head + allocation_ids@.take(i + 1));
        }
        i += 1;
    }
    proof {
        assert(allocation_ids@.take(allocation_ids@.len() as int) =~= allocation_ids@);
        assert(req@ =~= match allocation_id {
            Some(a) => seq![a] + allocation_ids@,
            None => allocation_ids@,
        });
    }
    req
}

impl Server {
    /// The local, transactional phase of server creation, with the candidate
    /// identifiers supplied by the caller: tries the candidates in order
    /// against the collision rule, inserts the server row and its requested
    /// bindings, and sets the default-allocation pointer; any failure leaves
    /// the store untouched, as a rolled-back transaction would.
    #[verifier::loop_isolation(false)]
    pub fn create_with_candidates(
        store: &mut Store,
        params: CreateParams,
        candidates: &Vec<u128>,
    ) -> (r: Result<(i32, u128), CreateError>)
        requires
            old(store).wf(),
            candidates@.len() == 8,
            old(store).next_server_id < i32::MAX,
            old(store).next_server_allocation_id + requested_allocations(params).len() < i32::MAX,
        ensures
            final(store).wf(),
            create_result_spec(*old(store), params, candidates@, *final(store), r),
    {
        let ghost gparams = params;
        let uuid = match pick_fresh(store, candidates) {
            Some(u) => u,
            None => {
                return Err(CreateError::IdentifierCollisionExhausted);
            },
        };
        if store.find_node(params.node_id).is_none() {
            return Err(CreateError::NotFound);
        }
        let req = build_requested(params.allocation_id, &params.allocation_ids);
        proof {
            assert(req@ == requested_allocations(gparams));
        }
        let mut i: usize = 0;
        while i < req.len()
            invariant
                i <= req@.len(),
                *store == *old(store),
                forall|k: int|
                    0 <= k < i ==> crate::store::node_allocation_with_id(
                        store.node_allocations@,
                        #[trigger] req@[k],
                    ),
            decreases req@.len() - i,
        {
            if store.find_endpoint(req[i]).is_none() {
                return Err(CreateError::NotFound);
            }
            i += 1;
        }
        let mut i: usize = 0;
        while i < req.len()
            invariant
                i <= req@.len(),
                *store == *old(store),
                forall|k: int|
                    0 <= k < i ==> !crate::store::allocation_bound(
                        store.server_allocations@,
                        #[trigger] req@[k],
                    ),
            decreases req@.len() - i,
        {
            if store.is_allocation_bound(req[i]) {
                return Err(CreateError::Conflict);
            }
            i += 1;
        }
        let mut i: usize = 1;
        while i < req.len()
            invariant
                1 <= i || req@.len() == 0,
                i <= req@.len() || req@.len() == 0,
                *store == *old(store),
                forall|a: int, b: int| 0 <= a < b < i ==> req@[a] != req@[b],
            decreases req@.len() - i,
        {
            let mut j: usize = 0;
            while j < i
                invariant
                    j <= i < req@.len(),
                    forall|b: int| 0 <= b < j ==> req@[b] != req@[i as int],
                decreases i - j,
            {
                if req[j] == req[i] {
                    return Err(CreateError::Conflict);
                }
                j += 1;
            }
            i += 1;
        }

        let id = store.next_server_id;
        let first_bid = store.next_server_allocation_id;
        let default_alloc: Option<i32> = if params.allocation_id.is_some() {
            Some(first_bid)
        } else {
            None
        };
        let created = params.created;
        let row = ServerRow {
            id,
            uuid,
            uuid_short: short_of(uuid),
            external_id: params.external_id,
            node_id: params.node_id,
            owner_id: params.owner_id,
            egg_id: params.egg_id,
            allocation_id: default_alloc,
            destination_node_id: None,
            status: if params.skip_scripts {
                None
            } else {
                Some(ServerStatus::Installing)
            },
            suspended: false,
            name: params.name,
            description: params.description,
            memory: params.limits.memory,
            swap: params.limits.swap,
            disk: params.limits.disk,
            io_weight: params.limits.io_weight,
            cpu: params.limits.cpu,
            pinned_cpus: params.pinned_cpus,
            startup: params.startup,
            image: params.image,
            timezone: params.timezone,
            allocation_limit: params.feature_limits.allocations,
            database_limit: params.feature_limits.databases,
            backup_limit: params.feature_limits.backups,
            auto_kill: crate::model::ServerConfigurationAutoKill { enabled: false, seconds: 0 },
            created,
        };
        proof {
            assert(row == spec_created_row(gparams, id, uuid, default_alloc));
        }
        store.next_server_id = id + 1;
        store.servers.push(row);

        let ghost bindings0 = store.server_allocations@;
        let mut i: usize = 0;
        while i < req.len()
            invariant
                i <= req@.len(),
                first_bid + req@.len() < i32::MAX,
                store.next_server_allocation_id == first_bid + i,
                store.server_allocations@.len() == bindings0.len() + i,
                store.server_allocations@.subrange(0, bindings0.len() as int) == bindings0,
                forall|t: int|
                    0 <= t < i ==> #[trigger] store.server_allocations@[bindings0.len() + t]
                        == spec_created_bindings(req@, id, first_bid, created)[t],
                store.servers@ == old(store).servers@.push(
                    spec_created_row(gparams, id, uuid, default_alloc),
                ),
                store.nodes@ == old(store).nodes@,
                store.node_allocations@ == old(store).node_allocations@,
                store.backups@ == old(store).backups@,
                store.next_server_id == old(store).next_server_id + 1,
                store.next_node_id == old(store).next_node_id,
                store.next_node_allocation_id == old(store).next_node_allocation_id,
                store.next_backup_id == old(store).next_backup_id,
                bindings0 == old(store).server_allocations@,
                first_bid == old(store).next_server_allocation_id,
                id == old(store).next_server_id,
            decreases req@.len() - i,
        {
            let bid = store.next_server_allocation_id;
            store.next_server_allocation_id = bid + 1;
            store.server_allocations.push(
                ServerAllocation {
                    id: bid,
                    server_id: id,
                    allocation_id: req[i],
                    notes: None,
                    created,
                },
            );
            i += 1;
        }
        proof {
            let newb = spec_created_bindings(req@, id, first_bid, created);
            assert forall|k: int| 0 <= k < store.server_allocations@.len() implies
                store.server_allocations@[k] == (bindings0 + newb)[k] by {
                if k >= bindings0.len() {
                    assert(store.server_allocations@[bindings0.len() + (k - bindings0.len())]
                        == newb[k - bindings0.len()]);
                }
            }
            assert(store.server_allocations@ =~= bindings0 + newb);
            lemma_create_preserves_wf(*old(store), *store, gparams, candidates@, id, uuid);
        }
        Ok((id, uuid))
    }

    /// Server creation, local phase: draws up to eight fresh random
    /// identifiers and runs the transactional insert. On success the caller
    /// owes the agent a create call for the returned identifier, resolved by
    /// `create_resolve`. On any failure the store is untouched.
    pub fn create(store: &mut Store, params: CreateParams) -> (r: Result<(i32, u128), CreateError>)
        requires
            old(store).wf(),
            old(store).next_server_id < i32::MAX,
            old(store).next_server_allocation_id + requested_allocations(params).len() < i32::MAX,
        ensures
            final(store).wf(),
            exists|cands: Seq<u128>|
                cands.len() == 8 && #[trigger] create_result_spec(
                    *old(store),
                    params,
                    cands,
                    *final(store),
                    r,
                ),
            r is Err ==> *final(store) == *old(store),
            r matches Ok(ok) ==> {
                &&& ok.0 == old(store).next_server_id
                &&& !collides(old(store).servers@, ok.1)
                &&& final(store).servers@ == old(store).servers@.push(
                    spec_created_row(
                        params,
                        ok.0,
                        ok.1,
                        if params.allocation_id is Some {
                            Some(old(store).next_server_allocation_id)
                        } else {
                            None
                        },
                    ),
                )
            },
    {
        let mut candidates: Vec<u128> = Vec::new();
        let mut i: usize = 0;
        while i < 8
            invariant
                i <= 8,
                candidates@.len() == i,
            decreases 8 - i,
        {
            candidates.push(crate::identifier::random_uuid());
            i += 1;
        }
        let ghost cands = candidates@;
        let r = Self::create_with_candidates(store, params, &candidates);
        proof {
            if r is Ok {
                lemma_first_fresh_sound(old(store).servers@, cands, 0);
            }
        }
        r
    }

    /// Resolves a committed creation against the agent's answer: on success
    /// there is nothing to do; on failure the committed row is removed again
    /// by a compensating delete and the agent's error is handed back
    /// unchanged.
    pub fn create_resolve(
        store: &mut Store,
        server_id: i32,
        agent_result: Result<(), (u16, ApiError)>,
    ) -> (r: Result<(), (u16, ApiError)>)
        requires
            old(store).wf(),
        ensures
            final(store).wf(),
            agent_result is Ok ==> r is Ok && *final(store) == *old(store),
            agent_result matches Err(e) ==> {
                &&& r == Err::<(), (u16, ApiError)>(e)
                &&& final(store).servers@ == servers_without(old(store).servers@, server_id)
                &&& final(store).server_allocations@ == bindings_without(
                    old(store).server_allocations@,
                    server_id,
                )
                &&& final(store).backups@ == backups_without(old(store).backups@, server_id)
                &&& final(store).nodes@ == old(store).nodes@
                &&& final(store).node_allocations@ == old(store).node_allocations@
                &&& !crate::store::server_with_id(final(store).servers@, server_id)
            },
    {
        match agent_result {
            Ok(()) => Ok(()),
            Err(e) => {
                cascade_delete(store, server_id);
                proof {
                    lemma_no_server_after_delete(old(store).servers@, server_id);
                }
                Err(e)
            },
        }
    }

    /// Server deletion: the row and its cascade are deleted locally, the
    /// agent is asked to delete the workload, and the agent's answer decides
    /// whether the local delete commits. A failing agent call rolls the
    /// delete back unless `force` is set; a forced delete always commits.
    pub fn delete(
        store: &mut Store,
        server_id: i32,
        force: bool,
        agent_result: Result<(), (u16, ApiError)>,
    ) -> (r: Result<(), (u16, ApiError)>)
        requires
            old(store).wf(),
        ensures
            final(store).wf(),
            (agent_result is Ok || force) ==> {
                &&& r is Ok
                &&& final(store).servers@ == servers_without(old(store).servers@, server_id)
                &&& final(store).server_allocations@ == bindings_without(
                    old(store).server_allocations@,
                    server_id,
                )
                &&& final(store).backups@ == backups_without(old(store).backups@, server_id)
                &&& final(store).nodes@ == old(store).nodes@
                &&& final(store).node_allocations@ == old(store).node_allocations@
                &&& !crate::store::server_with_id(final(store).servers@, server_id)
            },
            (agent_result is Err && !force) ==> {
                &&& r == agent_result
                &&& *final(store) == *old(store)
            },
    {
        match agent_result {
            Ok(()) => {
                cascade_delete(store, server_id);
                proof {
                    lemma_no_server_after_delete(old(store).servers@, server_id);
                }
                Ok(())
            },
            Err(e) => {
                if force {
                    cascade_delete(store, server_id);
                    proof {
                        lemma_no_server_after_delete(old(store).servers@, server_id);
                    }
                    return Ok(());
                }
                Err(e)
            },
        }
    }
}

/// After the cascade, no row with the deleted identifier remains.
proof fn lemma_no_server_after_delete(servers: Seq<ServerRow>, server_id: i32)
    ensures
        !crate::store::server_with_id(servers_without(servers, server_id), server_id),
{
    broadcast use vstd::seq_lib::group_filter_ensures;

    let sf = servers_without(servers, server_id);
    assert forall|i: int| 0 <= i < sf.len() implies #[trigger] sf[i].id != server_id by {
        servers.lemma_filter_pred(|r: ServerRow| r.id != server_id, i);
    }
}

/// Inserting a fresh server row and the bindings of a well-formed creation
/// request preserves the store invariant.
proof fn lemma_create_preserves_wf(
    pre: Store,
    post: Store,
    params: CreateParams,
    cands: Seq<u128>,
    id: i32,
    uuid: u128,
)
    requires
        pre.wf(),
        pre.next_server_id < i32::MAX,
        pre.next_server_allocation_id + requested_allocations(params).len() < i32::MAX,
        id == pre.next_server_id,
        !collides(pre.servers@, uuid),
        crate::store::node_with_id(pre.nodes@, params.node_id),
        allocs_all_exist(requested_allocations(params), pre.node_allocations@),
        allocs_all_free(requested_allocations(params), pre.server_allocations@),
        allocs_distinct(requested_allocations(params)),
        post.servers@ == pre.servers@.push(
            spec_created_row(
                params,
                id,
                uuid,
                if params.allocation_id is Some {
                    Some(pre.next_server_allocation_id)
                } else {
                    None
                },
            ),
        ),
        post.server_allocations@ == pre.server_allocations@ + spec_created_bindings(
            requested_allocations(params),
            id,
            pre.next_server_allocation_id,
            params.created,
        ),
        post.nodes@ == pre.nodes@,
        post.node_allocations@ == pre.node_allocations@,
        post.backups@ == pre.backups@,
        post.next_server_id == pre.next_server_id + 1,
        post.next_server_allocation_id == pre.next_server_allocation_id
            + requested_allocations(params).len(),
        post.next_node_id == pre.next_node_id,
        post.next_node_allocation_id == pre.next_node_allocation_id,
        post.next_backup_id == pre.next_backup_id,
    ensures
        post.wf(),
{
    let req = requested_allocations(params);
    let row = spec_created_row(
        params,
        id,
        uuid,
        if params.allocation_id is Some {
            Some(pre.next_server_allocation_id)
        } else {
            None
        },
    );
    let newb = spec_created_bindings(req, id, pre.next_server_allocation_id, params.created);
    let n = pre.servers@.len() as int;
    let nb = pre.server_allocations@.len() as int;

    assert forall|i: int, j: int| 0 <= i < j < post.servers@.len() implies #[trigger] post.servers@[i].id
        != #[trigger] post.servers@[j].id && post.servers@[i].uuid != post.servers@[j].uuid
        && post.servers@[i].uuid_short != post.servers@[j].uuid_short by {
        if j < n {
            assert(post.servers@[i] == pre.servers@[i]);
            assert(post.servers@[j] == pre.servers@[j]);
        } else {
            assert(post.servers@[j] == row);
            assert(post.servers@[i] == pre.servers@[i]);
            assert(!(pre.servers@[i].uuid == uuid || pre.servers@[i].uuid_short == spec_short_of(
                uuid,
            )));
        }
    }
    assert forall|i: int|
        0 <= i < post.servers@.len() implies #[trigger] post.servers@[i].uuid_short
        == spec_short_of(post.servers@[i].uuid) && 0 < post.servers@[i].id
        < post.next_server_id by {
        if i < n {
            assert(post.servers@[i] == pre.servers@[i]);
        }
    }
    assert forall|i: int| 0 <= i < post.servers@.len() implies crate::store::node_with_id(
        post.nodes@,
        #[trigger] post.servers@[i].node_id,
    ) by {
        if i < n {
            assert(post.servers@[i] == pre.servers@[i]);
        } else {
            assert(post.servers@[i].node_id == params.node_id);
        }
    }
    assert forall|i: int|
        0 <= i < post.servers@.len() implies match #[trigger] post.servers@[i].allocation_id {
        Some(aid) => exists|k: int|
            0 <= k < post.server_allocations@.len() && #[trigger] post.server_allocations@[k].id
                == aid && post.server_allocations@[k].server_id == post.servers@[i].id,
        None => true,
    } by {
        if i < n {
            assert(post.servers@[i] == pre.servers@[i]);
            match pre.servers@[i].allocation_id {
                Some(aid) => {
                    let t = choose|t: int|
                        0 <= t < pre.server_allocations@.len()
                            && #[trigger] pre.server_allocations@[t].id == aid
                            && pre.server_allocations@[t].server_id == pre.servers@[i].id;
                    assert(post.server_allocations@[t].id == aid
                        && post.server_allocations@[t].server_id == post.servers@[i].id);
                },
                None => {},
            }
        } else {
            match post.servers@[i].allocation_id {
                Some(aid) => {
                    assert(params.allocation_id is Some);
                    assert(aid == pre.next_server_allocation_id);
                    assert(req.len() > 0);
                    assert(post.server_allocations@[nb] == newb[0]);
                    assert(post.server_allocations@[nb].id == aid
                        && post.server_allocations@[nb].server_id == post.servers@[i].id);
                },
                None => {},
            }
        }
    }

    assert forall|i: int, j: int| 0 <= i < j < post.server_allocations@.len() implies
        #[trigger] post.server_allocations@[i].id != #[trigger] post.server_allocations@[j].id
        && post.server_allocations@[i].allocation_id
        != post.server_allocations@[j].allocation_id by {
        if j < nb {
            assert(post.server_allocations@[i] == pre.server_allocations@[i]);
            assert(post.server_allocations@[j] == pre.server_allocations@[j]);
        } else if i < nb {
            assert(post.server_allocations@[i] == pre.server_allocations@[i]);
            assert(post.server_allocations@[j] == newb[j - nb]);
            assert(0 <= j - nb < req.len());
            assert(pre.next_server_allocation_id + (j - nb) < i32::MAX);
            assert(post.server_allocations@[j].id == pre.next_server_allocation_id + (j - nb));
            assert(0 < pre.server_allocations@[i].id < pre.next_server_allocation_id);
            assert(!crate::store::allocation_bound(pre.server_allocations@, req[j - nb]));
            assert(pre.server_allocations@[i].allocation_id != req[j - nb]);
            assert(post.server_allocations@[j].allocation_id == req[j - nb]);
        } else {
            assert(post.server_allocations@[i] == newb[i - nb]);
            assert(post.server_allocations@[j] == newb[j - nb]);
            assert(0 <= i - nb < j - nb < req.len());
            assert(pre.next_server_allocation_id + (j - nb) < i32::MAX);
            assert(post.server_allocations@[i].id == pre.next_server_allocation_id + (i - nb));
            assert(post.server_allocations@[j].id == pre.next_server_allocation_id + (j - nb));
            assert(req[i - nb] != req[j - nb]);
        }
    }
    assert forall|i: int| 0 <= i < post.server_allocations@.len() implies 0
        < #[trigger] post.server_allocations@[i].id < post.next_server_allocation_id by {
        if i < nb {
            assert(post.server_allocations@[i] == pre.server_allocations@[i]);
        } else {
            assert(post.server_allocations@[i] == newb[i - nb]);
        }
    }
    assert forall|i: int| 0 <= i < post.server_allocations@.len() implies crate::store::server_with_id(
        post.servers@,
        #[trigger] post.server_allocations@[i].server_id,
    ) by {
        if i < nb {
            assert(post.server_allocations@[i] == pre.server_allocations@[i]);
            let t = choose|t: int|
                0 <= t < pre.servers@.len() && #[trigger] pre.servers@[t].id
                    == pre.server_allocations@[i].server_id;
            assert(post.servers@[t].id == post.server_allocations@[i].server_id);
        } else {
            assert(post.server_allocations@[i] == newb[i - nb]);
            assert(post.servers@[n].id == id);
        }
    }
    assert forall|i: int|
        0 <= i < post.server_allocations@.len() implies crate::store::node_allocation_with_id(
        post.node_allocations@,
        #[trigger] post.server_allocations@[i].allocation_id,
    ) by {
        if i < nb {
            assert(post.server_allocations@[i] == pre.server_allocations@[i]);
            let t = choose|t: int|
                0 <= t < pre.node_allocations@.len() && #[trigger] pre.node_allocations@[t].id
                    == pre.server_allocations@[i].allocation_id;
            assert(post.node_allocations@[t].id == post.server_allocations@[i].allocation_id);
        } else {
            assert(post.server_allocations@[i] == newb[i - nb]);
            assert(crate::store::node_allocation_with_id(pre.node_allocations@, req[i - nb]));
            let t = choose|t: int|
                0 <= t < pre.node_allocations@.len() && #[trigger] pre.node_allocations@[t].id
                    == req[i - nb];
            assert(post.node_allocations@[t].id == post.server_allocations@[i].allocation_id);
        }
    }

    assert forall|i: int| 0 <= i < post.backups@.len() implies crate::store::server_with_id(
        post.servers@,
        #[trigger] post.backups@[i].server_id,
    ) by {
        let t = choose|t: int|
            0 <= t < pre.servers@.len() && #[trigger] pre.servers@[t].id
                == pre.backups@[i].server_id;
        assert(post.servers@[t].id == post.backups@[i].server_id);
    }
}

} // verus!
