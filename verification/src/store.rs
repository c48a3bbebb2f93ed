use vstd::prelude::*;

use crate::model::{Node, ServerConfigurationAutoKill, ServerStatus};
use crate::spec_short_of;

verus! {

/// A server row of the local transactional store. References to the owning
/// node, owner and workload template are carried as plain identifiers; the
/// optional default-allocation pointer names a `ServerAllocation` row.
#[derive(Clone, Debug)]
pub struct ServerRow {
    pub id: i32,
    pub uuid: u128,
    pub uuid_short: u32,
    pub external_id: Option<String>,
    pub node_id: i32,
    pub owner_id: i32,
    pub egg_id: i32,
    pub allocation_id: Option<i32>,
    pub destination_node_id: Option<i32>,
    pub status: Option<ServerStatus>,
    pub suspended: bool,
    pub name: String,
    pub description: Option<String>,
    pub memory: i64,
    pub swap: i64,
    pub disk: i64,
    pub io_weight: Option<i16>,
    pub cpu: i32,
    pub pinned_cpus: Vec<i16>,
    pub startup: String,
    pub image: String,
    pub timezone: Option<String>,
    pub allocation_limit: i32,
    pub database_limit: i32,
    pub backup_limit: i32,
    pub auto_kill: ServerConfigurationAutoKill,
    pub created: i64,
}

/// A network endpoint owned by a node. The address is kept in numeric form;
/// rendering it as text is the caller's concern.
#[derive(Clone, Debug)]
pub struct NodeAllocation {
    pub id: i32,
    pub node_id: i32,
    pub ip: u128,
    pub ip_alias: Option<String>,
    pub port: i32,
    pub created: i64,
}

/// The exclusive binding of one `NodeAllocation` to one server.
#[derive(Clone, Debug)]
pub struct ServerAllocation {
    pub id: i32,
    pub server_id: i32,
    pub allocation_id: i32,
    pub notes: Option<String>,
    pub created: i64,
}

/// A backup record of a server; `completed` is the completion instant, unset
/// while the backup is still running.
#[derive(Clone, Copy, Debug)]
pub struct BackupRow {
    pub id: i32,
    pub uuid: u128,
    pub server_id: i32,
    pub successful: bool,
    pub completed: Option<i64>,
}

/// The local transactional store: the tables the control plane owns, plus the
/// serial counters that hand out fresh row identifiers.
pub struct Store {
    pub nodes: Vec<Node>,
    pub servers: Vec<ServerRow>,
    pub server_allocations: Vec<ServerAllocation>,
    pub node_allocations: Vec<NodeAllocation>,
    pub backups: Vec<BackupRow>,
    pub next_node_id: i32,
    pub next_server_id: i32,
    pub next_server_allocation_id: i32,
    pub next_node_allocation_id: i32,
    pub next_backup_id: i32,
}

/// Whether two endpoint rows name the same (node, address, port).
pub open spec fn same_endpoint(a: NodeAllocation, b: NodeAllocation) -> bool {
    a.node_id == b.node_id && a.ip == b.ip && a.port == b.port
}

/// Order of network endpoints: by address, then by port.
pub open spec fn alloc_le(a: NodeAllocation, b: NodeAllocation) -> bool {
    a.ip < b.ip || (a.ip == b.ip && a.port <= b.port)
}

pub open spec fn node_with_id(s: Seq<Node>, id: i32) -> bool {
    exists|i: int| 0 <= i < s.len() && #[trigger] s[i].id == id
}

pub open spec fn server_with_id(s: Seq<ServerRow>, id: i32) -> bool {
    exists|i: int| 0 <= i < s.len() && #[trigger] s[i].id == id
}

pub open spec fn node_allocation_with_id(s: Seq<NodeAllocation>, id: i32) -> bool {
    exists|i: int| 0 <= i < s.len() && #[trigger] s[i].id == id
}

/// Whether some binding row already claims the endpoint `allocation_id`.
pub open spec fn allocation_bound(s: Seq<ServerAllocation>, allocation_id: i32) -> bool {
    exists|i: int| 0 <= i < s.len() && #[trigger] s[i].allocation_id == allocation_id
}

/// Whether a candidate 128-bit identifier collides with an existing server,
/// on the full identifier or on the derived short identifier.
pub open spec fn collides(s: Seq<ServerRow>, uuid: u128) -> bool {
    exists|i: int|
        0 <= i < s.len() && (#[trigger] s[i].uuid == uuid || s[i].uuid_short == spec_short_of(
            uuid,
        ))
}

/// Node identifiers are unique and below the serial counter.
pub open spec fn nodes_table_wf(nodes: Seq<Node>, next_id: i32) -> bool {
    &&& forall|i: int, j: int|
        0 <= i < j < nodes.len() ==> #[trigger] nodes[i].id != #[trigger] nodes[j].id
    &&& forall|i: int| 0 <= i < nodes.len() ==> 0 < #[trigger] nodes[i].id < next_id
}

/// Server identifiers, full identifiers and short identifiers are unique,
/// short identifiers are derived from the full ones, and row identifiers are
/// below the serial counter.
pub open spec fn servers_table_wf(servers: Seq<ServerRow>, next_id: i32) -> bool {
    &&& forall|i: int, j: int|
        0 <= i < j < servers.len() ==> #[trigger] servers[i].id != #[trigger] servers[j].id
            && servers[i].uuid != servers[j].uuid && servers[i].uuid_short
            != servers[j].uuid_short
    &&& forall|i: int|
        0 <= i < servers.len() ==> #[trigger] servers[i].uuid_short == spec_short_of(
            servers[i].uuid,
        )
    &&& forall|i: int| 0 <= i < servers.len() ==> 0 < #[trigger] servers[i].id < next_id
}

/// Every server references an existing node.
pub open spec fn servers_nodes_fk(servers: Seq<ServerRow>, nodes: Seq<Node>) -> bool {
    forall|i: int|
        0 <= i < servers.len() ==> node_with_id(nodes, #[trigger] servers[i].node_id)
}

/// Every default-allocation pointer names a binding row of the same server.
pub open spec fn default_pointers_wf(
    servers: Seq<ServerRow>,
    bindings: Seq<ServerAllocation>,
) -> bool {
    forall|i: int|
        0 <= i < servers.len() ==> match #[trigger] servers[i].allocation_id {
            Some(aid) => exists|k: int|
                0 <= k < bindings.len() && #[trigger] bindings[k].id == aid
                    && bindings[k].server_id == servers[i].id,
            None => true,
        }
}

/// Binding rows have unique identifiers, claim each endpoint at most once
/// (the exclusivity rule), and stay below the serial counter.
pub open spec fn bindings_table_wf(bindings: Seq<ServerAllocation>, next_id: i32) -> bool {
    &&& forall|i: int, j: int|
        0 <= i < j < bindings.len() ==> #[trigger] bindings[i].id != #[trigger] bindings[j].id
            && bindings[i].allocation_id != bindings[j].allocation_id
    &&& forall|i: int| 0 <= i < bindings.len() ==> 0 < #[trigger] bindings[i].id < next_id
}

/// Every binding row references an existing server.
pub open spec fn bindings_servers_fk(
    bindings: Seq<ServerAllocation>,
    servers: Seq<ServerRow>,
) -> bool {
    forall|i: int|
        0 <= i < bindings.len() ==> server_with_id(servers, #[trigger] bindings[i].server_id)
}

/// Every binding row references an existing endpoint.
pub open spec fn bindings_endpoints_fk(
    bindings: Seq<ServerAllocation>,
    endpoints: Seq<NodeAllocation>,
) -> bool {
    forall|i: int|
        0 <= i < bindings.len() ==> node_allocation_with_id(
            endpoints,
            #[trigger] bindings[i].allocation_id,
        )
}

/// Endpoints have unique identifiers, are unique per (node, address, port),
/// and stay below the serial counter.
pub open spec fn endpoints_table_wf(endpoints: Seq<NodeAllocation>, next_id: i32) -> bool {
    &&& forall|i: int, j: int|
        0 <= i < j < endpoints.len() ==> #[trigger] endpoints[i].id
            != #[trigger] endpoints[j].id && !same_endpoint(endpoints[i], endpoints[j])
    &&& forall|i: int| 0 <= i < endpoints.len() ==> 0 < #[trigger] endpoints[i].id < next_id
}

/// Every endpoint references an existing node.
pub open spec fn endpoints_nodes_fk(endpoints: Seq<NodeAllocation>, nodes: Seq<Node>) -> bool {
    forall|i: int|
        0 <= i < endpoints.len() ==> node_with_id(nodes, #[trigger] endpoints[i].node_id)
}

/// Endpoints are kept ordered by (address, port), ascending.
pub open spec fn endpoints_sorted(endpoints: Seq<NodeAllocation>) -> bool {
    forall|i: int, j: int|
        0 <= i < j < endpoints.len() ==> alloc_le(
            #[trigger] endpoints[i],
            #[trigger] endpoints[j],
        )
}

/// Backup identifiers are unique and below the serial counter.
pub open spec fn backups_table_wf(backups: Seq<BackupRow>, next_id: i32) -> bool {
    &&& forall|i: int, j: int|
        0 <= i < j < backups.len() ==> #[trigger] backups[i].id != #[trigger] backups[j].id
    &&& forall|i: int| 0 <= i < backups.len() ==> 0 < #[trigger] backups[i].id < next_id
}

/// Every backup references an existing server.
pub open spec fn backups_servers_fk(backups: Seq<BackupRow>, servers: Seq<ServerRow>) -> bool {
    forall|i: int|
        0 <= i < backups.len() ==> server_with_id(servers, #[trigger] backups[i].server_id)
}

impl Store {
    /// Well-formedness of the whole store: row identifiers are unique and
    /// below their serial counter, bindings are exclusive, every reference
    /// between tables resolves, endpoints stay sorted by (address, port), and
    /// every short identifier is derived from its full identifier.
    pub open spec fn wf(self) -> bool {
        &&& nodes_table_wf(self.nodes@, self.next_node_id)
        &&& servers_table_wf(self.servers@, self.next_server_id)
        &&& servers_nodes_fk(self.servers@, self.nodes@)
        &&& default_pointers_wf(self.servers@, self.server_allocations@)
        &&& bindings_table_wf(self.server_allocations@, self.next_server_allocation_id)
        &&& bindings_servers_fk(self.server_allocations@, self.servers@)
        &&& bindings_endpoints_fk(self.server_allocations@, self.node_allocations@)
        &&& endpoints_table_wf(self.node_allocations@, self.next_node_allocation_id)
        &&& endpoints_nodes_fk(self.node_allocations@, self.nodes@)
        &&& endpoints_sorted(self.node_allocations@)
        &&& backups_table_wf(self.backups@, self.next_backup_id)
        &&& backups_servers_fk(self.backups@, self.servers@)
        &&& 0 < self.next_node_id
        &&& 0 < self.next_server_id
        &&& 0 < self.next_server_allocation_id
        &&& 0 < self.next_node_allocation_id
        &&& 0 < self.next_backup_id
    }

    /// An empty store.
    pub fn new() -> (r: Store)
        ensures
            r.wf(),
            r.nodes@.len() == 0,
            r.servers@.len() == 0,
            r.server_allocations@.len() == 0,
            r.node_allocations@.len() == 0,
            r.backups@.len() == 0,
            r.next_node_id == 1,
            r.next_server_id == 1,
            r.next_server_allocation_id == 1,
            r.next_node_allocation_id == 1,
            r.next_backup_id == 1,
    {
        Store {
            nodes: Vec::new(),
            servers: Vec::new(),
            server_allocations: Vec::new(),
            node_allocations: Vec::new(),
            backups: Vec::new(),
            next_node_id: 1,
            next_server_id: 1,
            next_server_allocation_id: 1,
            next_node_allocation_id: 1,
            next_backup_id: 1,
        }
    }

    /// Registers an agent endpoint; identity fields of `node` other than `id`
    /// are taken as given. Returns the fresh node identifier.
    pub fn add_node(
        &mut self,
        uuid: u128,
        name: String,
        url: String,
        token: String,
        public_url: Option<String>,
        sftp_host: Option<String>,
        sftp_port: i32,
        maintenance_message: Option<String>,
    ) -> (r: Option<i32>)
        requires
            old(self).wf(),
        ensures
            final(self).wf(),
            match r {
                Some(id) => {
                    &&& final(self).nodes@.len() == old(self).nodes@.len() + 1
                    &&& final(self).nodes@.last().id == id
                    &&& final(self).nodes@.last().uuid == uuid
                    &&& final(self).nodes@.drop_last() == old(self).nodes@
                    &&& node_with_id(final(self).nodes@, id)
                },
                None => final(self).nodes@ == old(self).nodes@,
            },
            final(self).servers@ == old(self).servers@,
            final(self).server_allocations@ == old(self).server_allocations@,
            final(self).node_allocations@ == old(self).node_allocations@,
            final(self).backups@ == old(self).backups@,
            final(self).next_server_id == old(self).next_server_id,
            final(self).next_server_allocation_id == old(self).next_server_allocation_id,
            final(self).next_node_allocation_id == old(self).next_node_allocation_id,
            final(self).next_backup_id == old(self).next_backup_id,
    {
        if self.next_node_id == i32::MAX {
            return None;
        }
        let id: i32 = self.next_node_id;
        let node = Node {
            id,
            uuid,
            name,
            url,
            token,
            public_url,
            sftp_host,
            sftp_port,
            maintenance_message,
        };
        self.nodes.push(node);
        self.next_node_id = id + 1;
        proof {
            assert(self.nodes@.drop_last() == old(self).nodes@);
            lemma_node_with_id_grow(old(self).nodes@, self.nodes@);
        }
        Some(id)
    }

    /// Index of the node with the given identifier, if any.
    pub(crate) fn find_node(&self, id: i32) -> (r: Option<usize>)
        ensures
            match r {
                Some(i) => i < self.nodes@.len() && self.nodes@[i as int].id == id,
                None => !node_with_id(self.nodes@, id),
            },
    {
        let mut i: usize = 0;
        while i < self.nodes.len()
            invariant
                i <= self.nodes@.len(),
                forall|k: int| 0 <= k < i ==> #[trigger] self.nodes@[k].id != id,
            decreases self.nodes@.len() - i,
        {
            if self.nodes[i].id == id {
                return Some(i);
            }
            i += 1;
        }
        None
    }

    /// Index of the server row with the given identifier, if any.
    pub(crate) fn find_server(&self, id: i32) -> (r: Option<usize>)
        ensures
            match r {
                Some(i) => i < self.servers@.len() && self.servers@[i as int].id == id,
                None => !server_with_id(self.servers@, id),
            },
    {
        let mut i: usize = 0;
        while i < self.servers.len()
            invariant
                i <= self.servers@.len(),
                forall|k: int| 0 <= k < i ==> #[trigger] self.servers@[k].id != id,
            decreases self.servers@.len() - i,
        {
            if self.servers[i].id == id {
                return Some(i);
            }
            i += 1;
        }
        None
    }

    /// Index of the endpoint with the given identifier, if any.
    pub(crate) fn find_endpoint(&self, id: i32) -> (r: Option<usize>)
        ensures
            match r {
                Some(i) => i < self.node_allocations@.len() && self.node_allocations@[i as int].id
                    == id,
                None => !node_allocation_with_id(self.node_allocations@, id),
            },
    {
        let mut i: usize = 0;
        while i < self.node_allocations.len()
            invariant
                i <= self.node_allocations@.len(),
                forall|k: int| 0 <= k < i ==> #[trigger] self.node_allocations@[k].id != id,
            decreases self.node_allocations@.len() - i,
        {
            if self.node_allocations[i].id == id {
                return Some(i);
            }
            i += 1;
        }
        None
    }

    /// Whether some binding row already claims the endpoint.
    pub(crate) fn is_allocation_bound(&self, allocation_id: i32) -> (r: bool)
        ensures
            r == allocation_bound(self.server_allocations@, allocation_id),
    {
        let mut i: usize = 0;
        while i < self.server_allocations.len()
            invariant
                i <= self.server_allocations@.len(),
                forall|k: int|
                    0 <= k < i ==> #[trigger] self.server_allocations@[k].allocation_id
                        != allocation_id,
            decreases self.server_allocations@.len() - i,
        {
            if self.server_allocations[i].allocation_id == allocation_id {
                return true;
            }
            i += 1;
        }
        false
    }

    /// Registers a backup record for a server. Refused when the server does
    /// not exist.
    pub fn add_backup(&mut self, server_id: i32, uuid: u128, completed: Option<i64>) -> (r: Option<
        i32,
    >)
        requires
            old(self).wf(),
            old(self).next_backup_id < i32::MAX,
        ensures
            final(self).wf(),
            final(self).nodes@ == old(self).nodes@,
            final(self).servers@ == old(self).servers@,
            final(self).server_allocations@ == old(self).server_allocations@,
            final(self).node_allocations@ == old(self).node_allocations@,
            final(self).next_node_id == old(self).next_node_id,
            final(self).next_server_id == old(self).next_server_id,
            final(self).next_server_allocation_id == old(self).next_server_allocation_id,
            final(self).next_node_allocation_id == old(self).next_node_allocation_id,
            match r {
                Some(id) => {
                    &&& server_with_id(old(self).servers@, server_id)
                    &&& id == old(self).next_backup_id
                    &&& final(self).backups@ == old(self).backups@.push(
                        BackupRow { id, uuid, server_id, successful: false, completed },
                    )
                },
                None => {
                    &&& !server_with_id(old(self).servers@, server_id)
                    &&& *final(self) == *old(self)
                },
            },
    {
        if self.find_server(server_id).is_none() {
            return None;
        }
        let id = self.next_backup_id;
        self.next_backup_id = id + 1;
        self.backups.push(BackupRow { id, uuid, server_id, successful: false, completed });
        proof {
            let nb = old(self).backups@.len() as int;
            assert forall|i: int, j: int| 0 <= i < j < self.backups@.len() implies
                #[trigger] self.backups@[i].id != #[trigger] self.backups@[j].id by {
                if j < nb {
                    assert(self.backups@[i] == old(self).backups@[i]);
                    assert(self.backups@[j] == old(self).backups@[j]);
                } else {
                    assert(self.backups@[i] == old(self).backups@[i]);
                    assert(0 < old(self).backups@[i].id < old(self).next_backup_id);
                }
            }
            assert forall|i: int| 0 <= i < self.backups@.len() implies 0
                < #[trigger] self.backups@[i].id < self.next_backup_id && server_with_id(
                self.servers@,
                self.backups@[i].server_id,
            ) by {
                if i < nb {
                    assert(self.backups@[i] == old(self).backups@[i]);
                    assert(0 < old(self).backups@[i].id < old(self).next_backup_id);
                }
            }
        }
        Some(id)
    }

    /// Whether a candidate identifier collides with an existing server, on the
    /// full identifier or on the derived short identifier.
    pub(crate) fn uuid_collides(&self, uuid: u128) -> (r: bool)
        ensures
            r == collides(self.servers@, uuid),
    {
        let short = crate::short_of(uuid);
        let mut i: usize = 0;
        while i < self.servers.len()
            invariant
                short == spec_short_of(uuid),
                i <= self.servers@.len(),
                forall|k: int| 0 <= k < i ==> #[trigger] self.servers@[k].uuid != uuid,
                forall|k: int|
                    0 <= k < i ==> #[trigger] self.servers@[k].uuid_short != spec_short_of(uuid),
            decreases self.servers@.len() - i,
        {
            if self.servers[i].uuid == uuid || self.servers[i].uuid_short == short {
                return true;
            }
            i += 1;
        }
        false
    }
}

/// A node found in a table is still found after rows are appended.
pub proof fn lemma_node_with_id_grow(s: Seq<Node>, t: Seq<Node>)
    requires
        s.len() <= t.len(),
        forall|i: int| 0 <= i < s.len() ==> t[i] == s[i],
    ensures
        forall|id: i32| node_with_id(s, id) ==> node_with_id(t, id),
{
    assert forall|id: i32| node_with_id(s, id) implies node_with_id(t, id) by {
        let k = choose|k: int| 0 <= k < s.len() && #[trigger] s[k].id == id;
        assert(t[k].id == id);
    }
}

/// A server found in a table is still found after rows are appended.

/// An endpoint found in a table is still found after rows are appended.

/// A sequence that is pairwise related stays pairwise related after `filter`:
/// filtering keeps the relative order and only drops elements.
pub(crate) proof fn lemma_filter_preserves_pairwise<A>(
    s: Seq<A>,
    pred: spec_fn(A) -> bool,
    rel: spec_fn(A, A) -> bool,
)
    requires
        forall|i: int, j: int| 0 <= i < j < s.len() ==> #[trigger] rel(s[i], s[j]),
    ensures
        forall|i: int, j: int|
            0 <= i < j < s.filter(pred).len() ==> #[trigger] rel(
                s.filter(pred)[i],
                s.filter(pred)[j],
            ),
    decreases s.len(),
{
    reveal(Seq::filter);
    if s.len() != 0 {
        let rest = s.drop_last();
        let last = s.last();
        assert forall|i: int, j: int| 0 <= i < j < rest.len() implies #[trigger] rel(
            rest[i],
            rest[j],
        ) by {
            assert(rel(s[i], s[j]));
        }
        lemma_filter_preserves_pairwise(rest, pred, rel);
        let rf = rest.filter(pred);
        let f = s.filter(pred);
        if pred(last) {
            assert(f == rf.push(last));
            assert forall|i: int, j: int| 0 <= i < j < f.len() implies #[trigger] rel(
                f[i],
                f[j],
            ) by {
                if j < rf.len() {
                    assert(rel(rf[i], rf[j]));
                } else {
                    assert(f[i] == rf[i]);
                    assert(rf.contains(rf[i]));
                    rest.lemma_filter_contains_rev(pred, rf[i]);
                    let k = choose|k: int| 0 <= k < rest.len() && rest[k] == rf[i];
                    assert(s[k] == rf[i]);
                    assert(s[s.len() - 1] == last);
                    assert(rel(s[k], s[s.len() - 1]));
                }
            }
        }
    }
}

/// Each element of a filtered sequence has an index in the unfiltered one.
pub(crate) proof fn lemma_filter_origin<A>(s: Seq<A>, pred: spec_fn(A) -> bool, i: int) -> (k: int)
    requires
        0 <= i < s.filter(pred).len(),
    ensures
        0 <= k < s.len(),
        s[k] == s.filter(pred)[i],
        pred(s.filter(pred)[i]),
    decreases s.len(),
{
    broadcast use vstd::seq_lib::group_filter_ensures;

    assert(s.filter(pred).contains(s.filter(pred)[i]));
    s.lemma_filter_contains_rev(pred, s.filter(pred)[i]);
    let k = choose|k: int| 0 <= k < s.len() && s[k] == s.filter(pred)[i];
    k
}

} // verus!
