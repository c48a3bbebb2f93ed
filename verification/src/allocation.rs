use vstd::prelude::*;

use crate::store::{
    alloc_le, allocation_bound, lemma_filter_origin, lemma_filter_preserves_pairwise,
    node_allocation_with_id, node_with_id, server_with_id, NodeAllocation, ServerAllocation, Store,
};

verus! {

/// How an endpoint operation fails: the endpoint (or a binding of it) is in
/// the way, or a referenced row does not exist.
#[derive(PartialEq, Eq, Structural, Clone, Copy, Debug)]
pub enum AllocationError {
    Conflict,
    NotFound,
}

/// Strictly before, in (address, port) order.
pub open spec fn alloc_lt(a: NodeAllocation, b: NodeAllocation) -> bool {
    a.ip < b.ip || (a.ip == b.ip && a.port < b.port)
}

/// Whether the node already owns an endpoint with this address and port.
pub open spec fn endpoint_taken(
    s: Seq<NodeAllocation>,
    node_id: i32,
    ip: u128,
    port: i32,
) -> bool {
    exists|i: int|
        0 <= i < s.len() && #[trigger] s[i].node_id == node_id && s[i].ip == ip && s[i].port
            == port
}

impl NodeAllocation {
    /// Registers an endpoint on a node. The new row takes the next serial
    /// identifier and is placed so that the table stays ordered by
    /// (address, port). Rejected when the node does not exist or the node
    /// already owns the same (address, port).
    #[verifier::loop_isolation(false)]
    pub fn create(
        store: &mut Store,
        node_id: i32,
        ip: u128,
        ip_alias: Option<String>,
        port: i32,
        created: i64,
    ) -> (r: Result<(), AllocationError>)
        requires
            old(store).wf(),
            old(store).next_node_allocation_id < i32::MAX,
        ensures
            final(store).wf(),
            final(store).nodes@ == old(store).nodes@,
            final(store).servers@ == old(store).servers@,
            final(store).server_allocations@ == old(store).server_allocations@,
            final(store).backups@ == old(store).backups@,
            match r {
                Ok(()) => {
                    &&& node_with_id(old(store).nodes@, node_id)
                    &&& !endpoint_taken(old(store).node_allocations@, node_id, ip, port)
                    &&& exists|p: int|
                        0 <= p <= old(store).node_allocations@.len()
                            && final(store).node_allocations@ == old(
                            store,
                        ).node_allocations@.insert(
                            p,
                            NodeAllocation {
                                id: old(store).next_node_allocation_id,
                                node_id,
                                ip,
                                ip_alias,
                                port,
                                created,
                            },
                        )
                    &&& final(store).next_node_allocation_id == old(
                        store,
                    ).next_node_allocation_id + 1
                },
                Err(AllocationError::NotFound) => {
                    &&& !node_with_id(old(store).nodes@, node_id)
                    &&& *final(store) == *old(store)
                },
                Err(AllocationError::Conflict) => {
                    &&& node_with_id(old(store).nodes@, node_id)
                    &&& endpoint_taken(old(store).node_allocations@, node_id, ip, port)
                    &&& *final(store) == *old(store)
                },
            },
    {
        if store.find_node(node_id).is_none() {
            return Err(AllocationError::NotFound);
        }
        let mut i: usize = 0;
        while i < store.node_allocations.len()
            invariant
                i <= store.node_allocations@.len(),
                forall|k: int|
                    0 <= k < i ==> !(#[trigger] store.node_allocations@[k].node_id == node_id
                        && store.node_allocations@[k].ip == ip && store.node_allocations@[k].port
                        == port),
            decreases store.node_allocations@.len() - i,
        {
            if store.node_allocations[i].node_id == node_id && store.node_allocations[i].ip == ip
                && store.node_allocations[i].port == port {
                return Err(AllocationError::Conflict);
            }
            i += 1;
        }
        let row = NodeAllocation {
            id: store.next_node_allocation_id,
            node_id,
            ip,
            ip_alias,
            port,
            created,
        };
        let mut p: usize = 0;
        while p < store.node_allocations.len() && !(store.node_allocations[p].ip > ip || (
        store.node_allocations[p].ip == ip && store.node_allocations[p].port > port))
            invariant
                p <= store.node_allocations@.len(),
                forall|k: int|
                    0 <= k < p ==> alloc_le(#[trigger] store.node_allocations@[k], row),
            decreases store.node_allocations@.len() - p,
        {
            p += 1;
        }
        proof {
            if p < store.node_allocations@.len() {
                assert(alloc_lt(row, store.node_allocations@[p as int]));
            }
        }
        store.next_node_allocation_id = store.next_node_allocation_id + 1;
        let ghost pre = *old(store);
        store.node_allocations.insert(p, row);
        proof {
            lemma_endpoint_insert_preserves_wf(pre, *store, row, p as int);
        }
        Ok(())
    }
}

/// Inserting a fresh endpoint at its ordered position preserves the store
/// invariant.
#[verifier::rlimit(100)]
proof fn lemma_endpoint_insert_preserves_wf(pre: Store, post: Store, row: NodeAllocation, p: int)
    requires
        pre.wf(),
        pre.next_node_allocation_id < i32::MAX,
        row.id == pre.next_node_allocation_id,
        node_with_id(pre.nodes@, row.node_id),
        !endpoint_taken(pre.node_allocations@, row.node_id, row.ip, row.port),
        0 <= p <= pre.node_allocations@.len(),
        forall|k: int| 0 <= k < p ==> alloc_le(#[trigger] pre.node_allocations@[k], row),
        p < pre.node_allocations@.len() ==> alloc_lt(row, pre.node_allocations@[p]),
        post.node_allocations@ == pre.node_allocations@.insert(p, row),
        post.nodes@ == pre.nodes@,
        post.servers@ == pre.servers@,
        post.server_allocations@ == pre.server_allocations@,
        post.backups@ == pre.backups@,
        post.next_node_allocation_id == pre.next_node_allocation_id + 1,
        post.next_node_id == pre.next_node_id,
        post.next_server_id == pre.next_server_id,
        post.next_server_allocation_id == pre.next_server_allocation_id,
        post.next_backup_id == pre.next_backup_id,
    ensures
        post.wf(),
{
        assert(post.node_allocations@.len() == pre.node_allocations@.len() + 1);
    assert forall|i: int| 0 <= i < post.node_allocations@.len() implies #[trigger] post.node_allocations@[i] == if i < p {
        pre.node_allocations@[i]
    } else if i == p {
        row
    } else {
        pre.node_allocations@[i - 1]
    } by {}

    assert forall|i: int, j: int| 0 <= i < j < post.node_allocations@.len() implies #[trigger] post.node_allocations@[i].id
        != #[trigger] post.node_allocations@[j].id && !crate::store::same_endpoint(
        post.node_allocations@[i],
        post.node_allocations@[j],
    ) by {
        let oi: int = if i < p { i } else { i - 1 };
        let oj: int = if j < p { j } else { j - 1 };
        if i != p && j != p {
            assert(post.node_allocations@[i] == pre.node_allocations@[oi] && post.node_allocations@[j] == pre.node_allocations@[oj]);
        } else if i == p {
            assert(post.node_allocations@[j] == pre.node_allocations@[oj]);
            assert(0 < pre.node_allocations@[oj].id < pre.next_node_allocation_id);
            assert(!(pre.node_allocations@[oj].node_id == row.node_id && pre.node_allocations@[oj].ip == row.ip && pre.node_allocations@[oj].port
                == row.port));
        } else {
            assert(post.node_allocations@[i] == pre.node_allocations@[oi]);
            assert(0 < pre.node_allocations@[oi].id < pre.next_node_allocation_id);
            assert(!(pre.node_allocations@[oi].node_id == row.node_id && pre.node_allocations@[oi].ip == row.ip && pre.node_allocations@[oi].port
                == row.port));
        }
    }
    assert forall|i: int| 0 <= i < post.node_allocations@.len() implies 0 < #[trigger] post.node_allocations@[i].id
        < post.next_node_allocation_id by {
        if i != p {
            let oi: int = if i < p { i } else { i - 1 };
            assert(post.node_allocations@[i] == pre.node_allocations@[oi]);
            assert(0 < pre.node_allocations@[oi].id < pre.next_node_allocation_id);
        }
    }
    assert forall|i: int| 0 <= i < post.node_allocations@.len() implies node_with_id(
        post.nodes@,
        #[trigger] post.node_allocations@[i].node_id,
    ) by {
        let oi: int = if i < p { i } else { i - 1 };
        if i != p {
            assert(post.node_allocations@[i] == pre.node_allocations@[oi]);
            let w = choose|w: int|
                0 <= w < pre.nodes@.len() && #[trigger] pre.nodes@[w].id == pre.node_allocations@[oi].node_id;
            assert(post.nodes@[w].id == post.node_allocations@[i].node_id);
        } else {
            let w = choose|w: int|
                0 <= w < pre.nodes@.len() && #[trigger] pre.nodes@[w].id == row.node_id;
            assert(post.nodes@[w].id == post.node_allocations@[i].node_id);
        }
    }
    assert forall|i: int, j: int| 0 <= i < j < post.node_allocations@.len() implies alloc_le(
        #[trigger] post.node_allocations@[i],
        #[trigger] post.node_allocations@[j],
    ) by {
        let oi: int = if i < p { i } else { i - 1 };
        let oj: int = if j < p { j } else { j - 1 };
        if i != p && j != p {
            assert(post.node_allocations@[i] == pre.node_allocations@[oi] && post.node_allocations@[j] == pre.node_allocations@[oj]);
            assert(alloc_le(pre.node_allocations@[oi], pre.node_allocations@[oj]));
        } else if i == p {
            assert(post.node_allocations@[j] == pre.node_allocations@[oj]);
            assert(p <= oj < pre.node_allocations@.len());
            assert(alloc_lt(row, pre.node_allocations@[p]));
            assert(alloc_le(pre.node_allocations@[p], pre.node_allocations@[oj]) || p == oj);
        } else {
            assert(post.node_allocations@[i] == pre.node_allocations@[oi]);
            assert(0 <= oi < p);
            assert(alloc_le(pre.node_allocations@[oi], row));
        }
    }
    assert forall|i: int|
        0 <= i < post.server_allocations@.len() implies node_allocation_with_id(
        post.node_allocations@,
        #[trigger] post.server_allocations@[i].allocation_id,
    ) by {
        let w = choose|w: int|
            0 <= w < pre.node_allocations@.len() && #[trigger] pre.node_allocations@[w].id == pre.server_allocations@[i].allocation_id;
        let nw: int = if w < p {
            w
        } else {
            w + 1
        };
        assert(post.node_allocations@[nw] == pre.node_allocations@[w]);
        assert(post.node_allocations@[nw].id == post.server_allocations@[i].allocation_id);
    }
    assert(crate::store::endpoints_table_wf(
        post.node_allocations@,
        post.next_node_allocation_id,
    ));
}

/// The endpoints owned by one node, in stored (address, port) order.
pub open spec fn endpoints_of_node(s: Seq<NodeAllocation>, node_id: i32) -> Seq<NodeAllocation> {
    s.filter(|a: NodeAllocation| a.node_id == node_id)
}

/// How one appended endpoint changes a node's listing.
proof fn lemma_endpoints_of_node_push(s: Seq<NodeAllocation>, x: NodeAllocation, node_id: i32)
    ensures
        endpoints_of_node(s.push(x), node_id) == if x.node_id == node_id {
            endpoints_of_node(s, node_id).push(x)
        } else {
            endpoints_of_node(s, node_id)
        },
{
    broadcast use Seq::lemma_filter_push;

}

/// The endpoints whose identifiers are not in the list.
pub open spec fn endpoints_without_ids(s: Seq<NodeAllocation>, ids: Seq<i32>) -> Seq<
    NodeAllocation,
> {
    s.filter(|a: NodeAllocation| !ids.contains(a.id))
}

proof fn lemma_endpoints_without_ids_push(s: Seq<NodeAllocation>, x: NodeAllocation, ids: Seq<i32>)
    ensures
        endpoints_without_ids(s.push(x), ids) == if !ids.contains(x.id) {
            endpoints_without_ids(s, ids).push(x)
        } else {
            endpoints_without_ids(s, ids)
        },
{
    broadcast use Seq::lemma_filter_push;

}

/// Whether the list holds the value.
fn ids_contain(ids: &Vec<i32>, x: i32) -> (r: bool)
    ensures
        r == ids@.contains(x),
{
    let mut i: usize = 0;
    while i < ids.len()
        invariant
            i <= ids@.len(),
            forall|k: int| 0 <= k < i ==> #[trigger] ids@[k] != x,
        decreases ids@.len() - i,
    {
        if ids[i] == x {
            return true;
        }
        i += 1;
    }
    false
}

impl NodeAllocation {
    /// The endpoint with this identifier on this node, if any.
    pub fn by_node_id_id<'a>(store: &'a Store, node_id: i32, id: i32) -> (r: Option<
        &'a NodeAllocation,
    >)
        ensures
            r is Some <==> exists|k: int|
                0 <= k < store.node_allocations@.len()
                    && #[trigger] store.node_allocations@[k].id == id
                    && store.node_allocations@[k].node_id == node_id,
            r matches Some(a) ==> a.id == id && a.node_id == node_id
                && store.node_allocations@.contains(*a),
    {
        let mut i: usize = 0;
        while i < store.node_allocations.len()
            invariant
                i <= store.node_allocations@.len(),
                forall|k: int|
                    0 <= k < i ==> !(#[trigger] store.node_allocations@[k].id == id
                        && store.node_allocations@[k].node_id == node_id),
            decreases store.node_allocations@.len() - i,
        {
            if store.node_allocations[i].id == id && store.node_allocations[i].node_id == node_id {
                let a = &store.node_allocations[i];
                proof {
                    assert(store.node_allocations@.contains(store.node_allocations@[i as int]));
                }
                return Some(a);
            }
            i += 1;
        }
        None
    }

    /// One page of a node's endpoints, ordered by (address, port) ascending.
    /// As in the backing listing query, the reported total is the count of
    /// all matching rows, or zero when the page lies beyond them.
    #[verifier::loop_isolation(false)]
    pub fn by_node_id_with_pagination<'a>(
        store: &'a Store,
        node_id: i32,
        page: i64,
        per_page: i64,
    ) -> (r: crate::model::Pagination<&'a NodeAllocation>)
        requires
            store.wf(),
            store.node_allocations@.len() <= i32::MAX,
            1 <= page,
            1 <= per_page,
        ensures
            ({
                let all = endpoints_of_node(store.node_allocations@, node_id);
                let offset = (page - 1) * per_page;
                &&& r.page == page
                &&& r.per_page == per_page
                &&& r.data@.len() == if offset >= all.len() {
                    0int
                } else if offset + per_page <= all.len() {
                    per_page as int
                } else {
                    all.len() - offset
                }
                &&& forall|t: int|
                    0 <= t < r.data@.len() ==> *(#[trigger] r.data@[t]) == all[offset + t]
                &&& r.total == if r.data@.len() == 0 {
                    0int
                } else {
                    all.len() as int
                }
                &&& forall|a: int, b: int|
                    0 <= a < b < r.data@.len() ==> alloc_le(
                        *(#[trigger] r.data@[a]),
                        *(#[trigger] r.data@[b]),
                    )
            }),
    {
        let mut matches: Vec<&'a NodeAllocation> = Vec::new();
        let mut i: usize = 0;
        while i < store.node_allocations.len()
            invariant
                i <= store.node_allocations@.len(),
                matches@.len() == endpoints_of_node(
                    store.node_allocations@.take(i as int),
                    node_id,
                ).len(),
                forall|t: int|
                    0 <= t < matches@.len() ==> *(#[trigger] matches@[t]) == endpoints_of_node(
                        store.node_allocations@.take(i as int),
                        node_id,
                    )[t],
            decreases store.node_allocations@.len() - i,
        {
            proof {
                assert(store.node_allocations@.take(i + 1) =~= store.node_allocations@.take(
                    i as int,
                ).push(store.node_allocations@[i as int]));
                lemma_endpoints_of_node_push(
                    store.node_allocations@.take(i as int),
                    store.node_allocations@[i as int],
                    node_id,
                );
            }
            if store.node_allocations[i].node_id == node_id {
                matches.push(&store.node_allocations[i]);
            }
            i += 1;
        }
        proof {
            assert(store.node_allocations@.take(store.node_allocations@.len() as int)
                =~= store.node_allocations@);
        }
        let ghost all = endpoints_of_node(store.node_allocations@, node_id);
        proof {
            assert((page - 1) * per_page < 0x40000000000000000000000000000000) by (nonlinear_arith)
                requires
                    1 <= page < 0x8000000000000000,
                    1 <= per_page < 0x8000000000000000,
            ;
        }
        let offset_u: u128 = (page as u128 - 1) * (per_page as u128);
        let ghost offset: int = (page - 1) * per_page;
        proof {
            assert(offset_u == offset);
        }
        let mut data: Vec<&'a NodeAllocation> = Vec::new();
        let mut j: usize = 0;
        while j < matches.len()
            invariant
                j <= matches@.len(),
                data@.len() == if offset >= j {
                    0int
                } else if offset + per_page <= j {
                    per_page as int
                } else {
                    j - offset
                },
                forall|t: int|
                    0 <= t < data@.len() ==> #[trigger] data@[t] == matches@[offset + t],
            decreases matches@.len() - j,
        {
            if (j as u128) >= offset_u && (j as u128) < offset_u + (per_page as u128) {
                data.push(matches[j]);
            }
            j += 1;
        }
        let total: i64 = if data.len() == 0 {
            0
        } else {
            matches.len() as i64
        };
        proof {
            lemma_filter_preserves_pairwise(
                store.node_allocations@,
                |a: NodeAllocation| a.node_id == node_id,
                |a: NodeAllocation, b: NodeAllocation| alloc_le(a, b),
            );
            assert forall|a: int, b: int| 0 <= a < b < data@.len() implies alloc_le(
                *(#[trigger] data@[a]),
                *(#[trigger] data@[b]),
            ) by {
                assert(*data@[a] == all[offset + a]);
                assert(*data@[b] == all[offset + b]);
                assert((|a: NodeAllocation, b: NodeAllocation| alloc_le(a, b))(
                    all[offset + a],
                    all[offset + b],
                ));
            }
        }
        crate::model::Pagination { total, per_page, page, data }
    }

    /// Bulk-deletes endpoints by identifier. Rejected if any named endpoint
    /// is still bound to a server; identifiers that match nothing are
    /// ignored, as in the backing bulk delete.
    pub fn delete_by_ids(store: &mut Store, ids: &Vec<i32>) -> (r: Result<(), AllocationError>)
        requires
            old(store).wf(),
        ensures
            final(store).wf(),
            final(store).nodes@ == old(store).nodes@,
            final(store).servers@ == old(store).servers@,
            final(store).server_allocations@ == old(store).server_allocations@,
            final(store).backups@ == old(store).backups@,
            match r {
                Ok(()) => {
                    &&& forall|k: int|
                        0 <= k < ids@.len() ==> !allocation_bound(
                            old(store).server_allocations@,
                            #[trigger] ids@[k],
                        )
                    &&& final(store).node_allocations@ == endpoints_without_ids(
                        old(store).node_allocations@,
                        ids@,
                    )
                },
                Err(AllocationError::Conflict) => {
                    &&& exists|k: int|
                        0 <= k < ids@.len() && allocation_bound(
                            old(store).server_allocations@,
                            #[trigger] ids@[k],
                        )
                    &&& *final(store) == *old(store)
                },
                Err(AllocationError::NotFound) => false,
            },
    {
        let mut i: usize = 0;
        while i < ids.len()
            invariant
                i <= ids@.len(),
                *store == *old(store),
                old(store).wf(),
                forall|k: int|
                    0 <= k < i ==> !allocation_bound(
                        old(store).server_allocations@,
                        #[trigger] ids@[k],
                    ),
            decreases ids@.len() - i,
        {
            if store.is_allocation_bound(ids[i]) {
                return Err(AllocationError::Conflict);
            }
            i += 1;
        }
        let ghost pre = *store;
        let mut endpoints: Vec<NodeAllocation> = Vec::new();
        core::mem::swap(&mut endpoints, &mut store.node_allocations);
        let ghost orig = endpoints@;
        let mut src = endpoints;
        let mut out: Vec<NodeAllocation> = Vec::new();
        while src.len() > 0
            invariant
                src@.len() <= orig.len(),
                src@ =~= orig.skip(orig.len() - src@.len()),
                out@ == endpoints_without_ids(orig.take(orig.len() - src@.len()), ids@),
            decreases src@.len(),
        {
            let ghost i = orig.len() - src@.len();
            let row = src.remove(0);
            proof {
                assert(row == orig[i]);
                assert(src@ =~= orig.skip(i + 1));
                assert(orig.take(i + 1) =~= orig.take(i).push(orig[i]));
                lemma_endpoints_without_ids_push(orig.take(i), orig[i], ids@);
            }
            if !ids_contain(ids, row.id) {
                out.push(row);
            }
        }
        proof {
            assert(orig.take(orig.len() as int) =~= orig);
        }
        store.node_allocations = out;
        proof {
            lemma_endpoint_removal_preserves_wf(pre, *store, ids@);
        }
        Ok(())
    }
}

/// Removing endpoints that no binding references preserves the store
/// invariant.
proof fn lemma_endpoint_removal_preserves_wf(pre: Store, post: Store, ids: Seq<i32>)
    requires
        pre.wf(),
        forall|k: int|
            0 <= k < ids.len() ==> !allocation_bound(
                pre.server_allocations@,
                #[trigger] ids[k],
            ),
        post.node_allocations@ == endpoints_without_ids(pre.node_allocations@, ids),
        post.nodes@ == pre.nodes@,
        post.servers@ == pre.servers@,
        post.server_allocations@ == pre.server_allocations@,
        post.backups@ == pre.backups@,
        post.next_node_id == pre.next_node_id,
        post.next_server_id == pre.next_server_id,
        post.next_server_allocation_id == pre.next_server_allocation_id,
        post.next_node_allocation_id == pre.next_node_allocation_id,
        post.next_backup_id == pre.next_backup_id,
    ensures
        post.wf(),
{
    let pred = |a: NodeAllocation| !ids.contains(a.id);
    let rel = |a: NodeAllocation, b: NodeAllocation|
        a.id != b.id && !crate::store::same_endpoint(a, b) && alloc_le(a, b);
    assert forall|i: int, j: int| 0 <= i < j < pre.node_allocations@.len() implies #[trigger] rel(
        pre.node_allocations@[i],
        pre.node_allocations@[j],
    ) by {
        assert(pre.node_allocations@[i].id != pre.node_allocations@[j].id);
        assert(alloc_le(pre.node_allocations@[i], pre.node_allocations@[j]));
    }
    lemma_filter_preserves_pairwise(pre.node_allocations@, pred, rel);
    assert forall|i: int, j: int| 0 <= i < j < post.node_allocations@.len() implies
        #[trigger] post.node_allocations@[i].id != #[trigger] post.node_allocations@[j].id
        && !crate::store::same_endpoint(
        post.node_allocations@[i],
        post.node_allocations@[j],
    ) by {
        assert(rel(post.node_allocations@[i], post.node_allocations@[j]));
    }
    assert forall|i: int, j: int| 0 <= i < j < post.node_allocations@.len() implies alloc_le(
        #[trigger] post.node_allocations@[i],
        #[trigger] post.node_allocations@[j],
    ) by {
        assert(rel(post.node_allocations@[i], post.node_allocations@[j]));
    }
    assert forall|i: int| 0 <= i < post.node_allocations@.len() implies 0
        < #[trigger] post.node_allocations@[i].id < post.next_node_allocation_id
        && node_with_id(post.nodes@, post.node_allocations@[i].node_id) by {
        let k = lemma_filter_origin(pre.node_allocations@, pred, i);
        assert(0 < pre.node_allocations@[k].id < pre.next_node_allocation_id);
        let w = choose|w: int|
            0 <= w < pre.nodes@.len() && #[trigger] pre.nodes@[w].id
                == pre.node_allocations@[k].node_id;
        assert(post.nodes@[w].id == post.node_allocations@[i].node_id);
    }
    assert forall|i: int|
        0 <= i < post.server_allocations@.len() implies node_allocation_with_id(
        post.node_allocations@,
        #[trigger] post.server_allocations@[i].allocation_id,
    ) by {
        broadcast use vstd::seq_lib::group_filter_ensures;

        let aid = pre.server_allocations@[i].allocation_id;
        let w = choose|w: int|
            0 <= w < pre.node_allocations@.len() && #[trigger] pre.node_allocations@[w].id == aid;
        assert(!ids.contains(pre.node_allocations@[w].id)) by {
            if ids.contains(pre.node_allocations@[w].id) {
                let k = choose|k: int|
                    0 <= k < ids.len() && #[trigger] ids[k] == pre.node_allocations@[w].id;
                assert(pre.server_allocations@[i].allocation_id == ids[k]);
                assert(allocation_bound(pre.server_allocations@, ids[k]));
            }
        }
        assert(pred(pre.node_allocations@[w]));
        pre.node_allocations@.lemma_filter_contains(pred, w);
        assert(post.node_allocations@.contains(pre.node_allocations@[w]));
        let u = choose|u: int|
            0 <= u < post.node_allocations@.len() && post.node_allocations@[u]
                == pre.node_allocations@[w];
        assert(post.node_allocations@[u].id == aid);
    }
}

/// The binding rows of one server, in insertion order.
pub open spec fn bindings_of_server(s: Seq<ServerAllocation>, server_id: i32) -> Seq<
    ServerAllocation,
> {
    s.filter(|b: ServerAllocation| b.server_id == server_id)
}

proof fn lemma_bindings_of_server_push(s: Seq<ServerAllocation>, x: ServerAllocation, server_id: i32)
    ensures
        bindings_of_server(s.push(x), server_id) == if x.server_id == server_id {
            bindings_of_server(s, server_id).push(x)
        } else {
            bindings_of_server(s, server_id)
        },
{
    broadcast use Seq::lemma_filter_push;

}

impl ServerAllocation {
    /// Binds an endpoint to a server. The bind is exclusive: it is refused
    /// when any server, this one included, already holds the endpoint; it is
    /// also refused when the server or the endpoint does not exist. Reports
    /// whether the row was inserted.
    pub fn new(store: &mut Store, server_id: i32, allocation_id: i32, created: i64) -> (r: bool)
        requires
            old(store).wf(),
            old(store).next_server_allocation_id < i32::MAX,
        ensures
            final(store).wf(),
            r == (server_with_id(old(store).servers@, server_id) && node_allocation_with_id(
                old(store).node_allocations@,
                allocation_id,
            ) && !allocation_bound(old(store).server_allocations@, allocation_id)),
            r ==> {
                &&& final(store).server_allocations@ == old(store).server_allocations@.push(
                    ServerAllocation {
                        id: old(store).next_server_allocation_id,
                        server_id,
                        allocation_id,
                        notes: None,
                        created,
                    },
                )
                &&& final(store).next_server_allocation_id == old(
                    store,
                ).next_server_allocation_id + 1
                &&& final(store).servers@ == old(store).servers@
                &&& final(store).nodes@ == old(store).nodes@
                &&& final(store).node_allocations@ == old(store).node_allocations@
                &&& final(store).backups@ == old(store).backups@
            },
            !r ==> *final(store) == *old(store),
    {
        if store.find_server(server_id).is_none() {
            return false;
        }
        if store.find_endpoint(allocation_id).is_none() {
            return false;
        }
        if store.is_allocation_bound(allocation_id) {
            return false;
        }
        let row = ServerAllocation {
            id: store.next_server_allocation_id,
            server_id,
            allocation_id,
            notes: None,
            created,
        };
        store.next_server_allocation_id = store.next_server_allocation_id + 1;
        store.server_allocations.push(row);
        proof {
            let pre = *old(store);
            let post = *store;
            let nb = pre.server_allocations@.len() as int;
            assert forall|i: int, j: int| 0 <= i < j < post.server_allocations@.len() implies
                #[trigger] post.server_allocations@[i].id
                != #[trigger] post.server_allocations@[j].id
                && post.server_allocations@[i].allocation_id
                != post.server_allocations@[j].allocation_id by {
                if j < nb {
                    assert(post.server_allocations@[i] == pre.server_allocations@[i]);
                    assert(post.server_allocations@[j] == pre.server_allocations@[j]);
                } else {
                    assert(post.server_allocations@[i] == pre.server_allocations@[i]);
                    assert(post.server_allocations@[j] == row);
                    assert(0 < pre.server_allocations@[i].id < pre.next_server_allocation_id);
                    assert(pre.server_allocations@[i].allocation_id != allocation_id);
                }
            }
            assert forall|i: int| 0 <= i < post.server_allocations@.len() implies 0
                < #[trigger] post.server_allocations@[i].id < post.next_server_allocation_id by {
                if i < nb {
                    assert(post.server_allocations@[i] == pre.server_allocations@[i]);
                    assert(0 < pre.server_allocations@[i].id < pre.next_server_allocation_id);
                }
            }
            assert forall|i: int| 0 <= i < post.server_allocations@.len() implies server_with_id(
                post.servers@,
                #[trigger] post.server_allocations@[i].server_id,
            ) && node_allocation_with_id(
                post.node_allocations@,
                post.server_allocations@[i].allocation_id,
            ) by {
                if i < nb {
                    assert(post.server_allocations@[i] == pre.server_allocations@[i]);
                }
            }
            assert forall|i: int|
                0 <= i < post.servers@.len() implies match #[trigger] post.servers@[i].allocation_id {
                Some(aid) => exists|k: int|
                    0 <= k < post.server_allocations@.len()
                        && #[trigger] post.server_allocations@[k].id == aid
                        && post.server_allocations@[k].server_id == post.servers@[i].id,
                None => true,
            } by {
                match post.servers@[i].allocation_id {
                    Some(aid) => {
                        let t = choose|t: int|
                            0 <= t < pre.server_allocations@.len()
                                && #[trigger] pre.server_allocations@[t].id == aid
                                && pre.server_allocations@[t].server_id == pre.servers@[i].id;
                        assert(post.server_allocations@[t].id == aid
                            && post.server_allocations@[t].server_id == post.servers@[i].id);
                    },
                    None => {},
                }
            }
        }
        true
    }

    /// All binding rows of one server, in insertion order.
    pub fn all_by_server_id<'a>(store: &'a Store, server_id: i32) -> (r: Vec<&'a ServerAllocation>)
        ensures
            r@.len() == bindings_of_server(store.server_allocations@, server_id).len(),
            forall|t: int|
                0 <= t < r@.len() ==> *(#[trigger] r@[t]) == bindings_of_server(
                    store.server_allocations@,
                    server_id,
                )[t],
    {
        let mut out: Vec<&'a ServerAllocation> = Vec::new();
        let mut i: usize = 0;
        while i < store.server_allocations.len()
            invariant
                i <= store.server_allocations@.len(),
                out@.len() == bindings_of_server(
                    store.server_allocations@.take(i as int),
                    server_id,
                ).len(),
                forall|t: int|
                    0 <= t < out@.len() ==> *(#[trigger] out@[t]) == bindings_of_server(
                        store.server_allocations@.take(i as int),
                        server_id,
                    )[t],
            decreases store.server_allocations@.len() - i,
        {
            proof {
                assert(store.server_allocations@.take(i + 1) =~= store.server_allocations@.take(
                    i as int,
                ).push(store.server_allocations@[i as int]));
                lemma_bindings_of_server_push(
                    store.server_allocations@.take(i as int),
                    store.server_allocations@[i as int],
                    server_id,
                );
            }
            if store.server_allocations[i].server_id == server_id {
                out.push(&store.server_allocations[i]);
            }
            i += 1;
        }
        proof {
            assert(store.server_allocations@.take(store.server_allocations@.len() as int)
                =~= store.server_allocations@);
        }
        out
    }

    /// The caller-facing shape of one binding: the endpoint it names, the
    /// notes, and whether it is the server's default.
    pub fn into_api_object(self, allocation: NodeAllocation, default: Option<i32>) -> (r:
        ApiServerAllocation)
        ensures
            r.ip == allocation.ip,
            r.ip_alias == allocation.ip_alias,
            r.port == allocation.port,
            r.notes == self.notes,
            r.is_default == (default matches Some(d) && d == self.id),
            r.created == self.created,
    {
        let is_default = match default {
            Some(d) => d == self.id,
            None => false,
        };
        ApiServerAllocation {
            ip: allocation.ip,
            ip_alias: allocation.ip_alias,
            port: allocation.port,
            notes: self.notes,
            is_default,
            created: self.created,
        }
    }
}

impl NodeAllocation {
    /// The administrator-facing shape of one endpoint. The address stays in
    /// numeric form; rendering it as text is the caller's concern.
    pub fn into_admin_api_object(self) -> (r: AdminApiNodeAllocation)
        ensures
            r.id == self.id,
            r.ip == self.ip,
            r.ip_alias == self.ip_alias,
            r.port == self.port,
            r.created == self.created,
    {
        AdminApiNodeAllocation {
            id: self.id,
            ip: self.ip,
            ip_alias: self.ip_alias,
            port: self.port,
            created: self.created,
        }
    }
}

/// The administrator-facing shape of one endpoint.
pub struct AdminApiNodeAllocation {
    pub id: i32,
    pub ip: u128,
    pub ip_alias: Option<String>,
    pub port: i32,
    pub created: i64,
}

/// The caller-facing shape of one binding.
pub struct ApiServerAllocation {
    pub ip: u128,
    pub ip_alias: Option<String>,
    pub port: i32,
    pub notes: Option<String>,
    pub is_default: bool,
    pub created: i64,
}

/// The binding rows that survive unbinding endpoint `allocation_id` from
/// server `server_id`.
pub open spec fn bindings_without_pair(
    s: Seq<ServerAllocation>,
    server_id: i32,
    allocation_id: i32,
) -> Seq<ServerAllocation> {
    s.filter(|b: ServerAllocation| !(b.server_id == server_id && b.allocation_id == allocation_id))
}

proof fn lemma_bindings_without_pair_push(
    s: Seq<ServerAllocation>,
    x: ServerAllocation,
    server_id: i32,
    allocation_id: i32,
)
    ensures
        bindings_without_pair(s.push(x), server_id, allocation_id) == if !(x.server_id == server_id
            && x.allocation_id == allocation_id) {
            bindings_without_pair(s, server_id, allocation_id).push(x)
        } else {
            bindings_without_pair(s, server_id, allocation_id)
        },
{
    broadcast use Seq::lemma_filter_push;

}

/// Whether a default pointer names the binding being deleted.
pub open spec fn pointer_unbound(
    bindings: Seq<ServerAllocation>,
    aid: i32,
    server_id: i32,
    allocation_id: i32,
) -> bool {
    exists|k: int|
        0 <= k < bindings.len() && #[trigger] bindings[k].id == aid && bindings[k].server_id
            == server_id && bindings[k].allocation_id == allocation_id
}

/// What unbinding does to one server row: a default pointer naming the
/// deleted binding is cleared, everything else stays.
pub open spec fn spec_unbound_server(
    r: crate::store::ServerRow,
    bindings: Seq<ServerAllocation>,
    server_id: i32,
    allocation_id: i32,
) -> crate::store::ServerRow {
    match r.allocation_id {
        Some(aid) => if pointer_unbound(bindings, aid, server_id, allocation_id) {
            crate::store::ServerRow { allocation_id: None, ..r }
        } else {
            r
        },
        None => r,
    }
}

impl ServerAllocation {
    /// Unbinds one endpoint from one server. The binding row, if present, is
    /// deleted, and a default-allocation pointer naming it is cleared; a pair
    /// that matches nothing deletes nothing.
    #[verifier::loop_isolation(false)]
    pub fn delete_by_id(store: &mut Store, server_id: i32, allocation_id: i32)
        requires
            old(store).wf(),
        ensures
            final(store).wf(),
            final(store).server_allocations@ == bindings_without_pair(
                old(store).server_allocations@,
                server_id,
                allocation_id,
            ),
            final(store).servers@.len() == old(store).servers@.len(),
            forall|i: int|
                0 <= i < old(store).servers@.len() ==> #[trigger] final(store).servers@[i]
                    == spec_unbound_server(
                    old(store).servers@[i],
                    old(store).server_allocations@,
                    server_id,
                    allocation_id,
                ),
            final(store).nodes@ == old(store).nodes@,
            final(store).node_allocations@ == old(store).node_allocations@,
            final(store).backups@ == old(store).backups@,
            final(store).next_node_id == old(store).next_node_id,
            final(store).next_server_id == old(store).next_server_id,
            final(store).next_server_allocation_id == old(store).next_server_allocation_id,
            final(store).next_node_allocation_id == old(store).next_node_allocation_id,
            final(store).next_backup_id == old(store).next_backup_id,
    {
        let mut bindings: Vec<ServerAllocation> = Vec::new();
        core::mem::swap(&mut bindings, &mut store.server_allocations);
        let ghost orig = bindings@;
        let mut src = bindings;
        let mut out: Vec<ServerAllocation> = Vec::new();
        let mut removed_id: Option<i32> = None;
        while src.len() > 0
            invariant
                src@.len() <= orig.len(),
                src@ =~= orig.skip(orig.len() - src@.len()),
                out@ == bindings_without_pair(
                    orig.take(orig.len() - src@.len()),
                    server_id,
                    allocation_id,
                ),
                removed_id matches Some(bid) ==> pointer_unbound(
                    orig,
                    bid,
                    server_id,
                    allocation_id,
                ),
                removed_id is None ==> forall|k: int|
                    0 <= k < orig.len() - src@.len() ==> !(#[trigger] orig[k].server_id
                        == server_id && orig[k].allocation_id == allocation_id),
            decreases src@.len(),
        {
            let ghost i = orig.len() - src@.len();
            let row = src.remove(0);
            proof {
                assert(row == orig[i]);
                assert(src@ =~= orig.skip(i + 1));
                assert(orig.take(i + 1) =~= orig.take(i).push(orig[i]));
                lemma_bindings_without_pair_push(orig.take(i), orig[i], server_id, allocation_id);
            }
            if row.server_id == server_id && row.allocation_id == allocation_id {
                removed_id = Some(row.id);
            } else {
                out.push(row);
            }
        }
        proof {
            assert(orig.take(orig.len() as int) =~= orig);
        }
        store.server_allocations = out;

        let bid = match removed_id {
            Some(bid) => bid,
            None => {
                proof {
                    assert forall|i: int|
                        0 <= i < store.servers@.len() implies #[trigger] store.servers@[i]
                        == spec_unbound_server(
                        old(store).servers@[i],
                        orig,
                        server_id,
                        allocation_id,
                    ) by {
                        match store.servers@[i].allocation_id {
                            Some(aid) => {
                                assert(!pointer_unbound(orig, aid, server_id, allocation_id));
                            },
                            None => {},
                        }
                    }
                    lemma_unbind_preserves_wf(*old(store), *store, server_id, allocation_id);
                }
                return ;
            },
        };

        let mut servers: Vec<crate::store::ServerRow> = Vec::new();
        core::mem::swap(&mut servers, &mut store.servers);
        let ghost servers0 = servers@;
        let mut ssrc = servers;
        let mut sout: Vec<crate::store::ServerRow> = Vec::new();
        while ssrc.len() > 0
            invariant
                ssrc@.len() <= servers0.len(),
                sout@.len() + ssrc@.len() == servers0.len(),
                forall|k: int|
                    0 <= k < sout@.len() ==> #[trigger] sout@[k] == spec_unbound_server(
                        servers0[k],
                        orig,
                        server_id,
                        allocation_id,
                    ),
                forall|k: int|
                    0 <= k < ssrc@.len() ==> #[trigger] ssrc@[k] == servers0[sout@.len() + k],
            decreases ssrc@.len(),
        {
            let ghost k = sout@.len() as int;
            let mut row = ssrc.remove(0);
            let clear = match row.allocation_id {
                Some(aid) => aid == bid,
                None => false,
            };
            proof {
                match servers0[k].allocation_id {
                    Some(aid) => {
                        if aid == bid {
                            let w = choose|w: int|
                                0 <= w < orig.len() && #[trigger] orig[w].id == bid
                                    && orig[w].server_id == server_id && orig[w].allocation_id
                                    == allocation_id;
                            assert(pointer_unbound(orig, aid, server_id, allocation_id));
                        } else {
                            if pointer_unbound(orig, aid, server_id, allocation_id) {
                                let w = choose|w: int|
                                    0 <= w < orig.len() && #[trigger] orig[w].id == aid
                                        && orig[w].server_id == server_id && orig[w].allocation_id
                                        == allocation_id;
                                let v = choose|v: int|
                                    0 <= v < orig.len() && #[trigger] orig[v].id == bid
                                        && orig[v].server_id == server_id && orig[v].allocation_id
                                        == allocation_id;
                                assert(orig[w].allocation_id == orig[v].allocation_id);
                                assert(w == v);
                            }
                        }
                    },
                    None => {},
                }
            }
            if clear {
                row.allocation_id = None;
            }
            sout.push(row);
        }
        store.servers = sout;
        proof {
            lemma_unbind_preserves_wf(*old(store), *store, server_id, allocation_id);
        }
    }
}

/// Deleting one binding and clearing the pointers that named it preserves
/// the store invariant.
proof fn lemma_unbind_preserves_wf(pre: Store, post: Store, server_id: i32, allocation_id: i32)
    requires
        pre.wf(),
        post.server_allocations@ == bindings_without_pair(
            pre.server_allocations@,
            server_id,
            allocation_id,
        ),
        post.servers@.len() == pre.servers@.len(),
        forall|i: int|
            0 <= i < pre.servers@.len() ==> #[trigger] post.servers@[i] == spec_unbound_server(
                pre.servers@[i],
                pre.server_allocations@,
                server_id,
                allocation_id,
            ),
        post.nodes@ == pre.nodes@,
        post.node_allocations@ == pre.node_allocations@,
        post.backups@ == pre.backups@,
        post.next_node_id == pre.next_node_id,
        post.next_server_id == pre.next_server_id,
        post.next_server_allocation_id == pre.next_server_allocation_id,
        post.next_node_allocation_id == pre.next_node_allocation_id,
        post.next_backup_id == pre.next_backup_id,
    ensures
        post.wf(),
{
    let bpred = |b: ServerAllocation|
        !(b.server_id == server_id && b.allocation_id == allocation_id);
    let bf = pre.server_allocations@.filter(bpred);
    assert(post.server_allocations@ == bf);

    assert forall|i: int| 0 <= i < post.servers@.len() implies {
        &&& #[trigger] post.servers@[i].id == pre.servers@[i].id
        &&& post.servers@[i].uuid == pre.servers@[i].uuid
        &&& post.servers@[i].uuid_short == pre.servers@[i].uuid_short
        &&& post.servers@[i].node_id == pre.servers@[i].node_id
    } by {
        assert(post.servers@[i] == spec_unbound_server(
            pre.servers@[i],
            pre.server_allocations@,
            server_id,
            allocation_id,
        ));
    }

    let brel = |a: ServerAllocation, b: ServerAllocation|
        a.id != b.id && a.allocation_id != b.allocation_id;
    assert forall|i: int, j: int| 0 <= i < j < pre.server_allocations@.len() implies
        #[trigger] brel(pre.server_allocations@[i], pre.server_allocations@[j]) by {
        assert(pre.server_allocations@[i].id != pre.server_allocations@[j].id);
    }
    lemma_filter_preserves_pairwise(pre.server_allocations@, bpred, brel);
    assert forall|i: int, j: int| 0 <= i < j < post.server_allocations@.len() implies
        #[trigger] post.server_allocations@[i].id != #[trigger] post.server_allocations@[j].id
        && post.server_allocations@[i].allocation_id
        != post.server_allocations@[j].allocation_id by {
        assert(brel(post.server_allocations@[i], post.server_allocations@[j]));
    }
    assert forall|i: int| 0 <= i < post.server_allocations@.len() implies 0
        < #[trigger] post.server_allocations@[i].id < post.next_server_allocation_id by {
        let k = lemma_filter_origin(pre.server_allocations@, bpred, i);
        assert(0 < pre.server_allocations@[k].id < pre.next_server_allocation_id);
    }
    assert forall|i: int|
        0 <= i < post.server_allocations@.len() implies crate::store::node_allocation_with_id(
        post.node_allocations@,
        #[trigger] post.server_allocations@[i].allocation_id,
    ) by {
        let k = lemma_filter_origin(pre.server_allocations@, bpred, i);
        let w = choose|w: int|
            0 <= w < pre.node_allocations@.len() && #[trigger] pre.node_allocations@[w].id
                == pre.server_allocations@[k].allocation_id;
        assert(post.node_allocations@[w].id == post.server_allocations@[i].allocation_id);
    }
    assert forall|i: int|
        0 <= i < post.server_allocations@.len() implies crate::store::server_with_id(
        post.servers@,
        #[trigger] post.server_allocations@[i].server_id,
    ) by {
        let k = lemma_filter_origin(pre.server_allocations@, bpred, i);
        let t = choose|t: int|
            0 <= t < pre.servers@.len() && #[trigger] pre.servers@[t].id
                == pre.server_allocations@[k].server_id;
        assert(post.servers@[t].id == post.server_allocations@[i].server_id);
    }
    assert forall|i: int| 0 <= i < post.servers@.len() implies crate::store::node_with_id(
        post.nodes@,
        #[trigger] post.servers@[i].node_id,
    ) by {
        let w = choose|w: int|
            0 <= w < pre.nodes@.len() && #[trigger] pre.nodes@[w].id == pre.servers@[i].node_id;
        assert(post.nodes@[w].id == post.servers@[i].node_id);
    }
    assert forall|i: int|
        0 <= i < post.servers@.len() implies match #[trigger] post.servers@[i].allocation_id {
        Some(aid) => exists|k: int|
            0 <= k < post.server_allocations@.len() && #[trigger] post.server_allocations@[k].id
                == aid && post.server_allocations@[k].server_id == post.servers@[i].id,
        None => true,
    } by {
        broadcast use vstd::seq_lib::group_filter_ensures;

        match post.servers@[i].allocation_id {
            Some(aid) => {
                assert(pre.servers@[i].allocation_id == Some(aid));
                assert(!pointer_unbound(
                    pre.server_allocations@,
                    aid,
                    server_id,
                    allocation_id,
                ));
                let t = choose|t: int|
                    0 <= t < pre.server_allocations@.len()
                        && #[trigger] pre.server_allocations@[t].id == aid
                        && pre.server_allocations@[t].server_id == pre.servers@[i].id;
                assert(bpred(pre.server_allocations@[t]));
                pre.server_allocations@.lemma_filter_contains(bpred, t);
                assert(bf.contains(pre.server_allocations@[t]));
                let u = choose|u: int| 0 <= u < bf.len() && bf[u] == pre.server_allocations@[t];
                assert(post.server_allocations@[u].id == aid
                    && post.server_allocations@[u].server_id == post.servers@[i].id);
            },
            None => {},
        }
    }
    assert forall|i: int| 0 <= i < post.backups@.len() implies crate::store::server_with_id(
        post.servers@,
        #[trigger] post.backups@[i].server_id,
    ) by {
        let t = choose|t: int|
            0 <= t < pre.servers@.len() && #[trigger] pre.servers@[t].id
                == pre.backups@[i].server_id;
        assert(post.servers@[t].id == post.backups@[i].server_id);
    }
}

} // verus!
