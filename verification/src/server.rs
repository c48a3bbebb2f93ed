use vstd::prelude::*;
use vstd::string::StringSliceAdditionalSpecFns;

use crate::ignore_match::{
    compile_overrides, ignore_compiles, ignore_verdict, matched_whitelist, override_verdict,
};
use crate::model::{NestEgg, Node, User};
use crate::store::{NodeAllocation, ServerAllocation, ServerRow};

verus! {

/// Whether a path is hidden under a subuser grant's ignored-file patterns: a
/// grant without patterns hides nothing; otherwise the compiled matcher's
/// whitelist verdict decides, and a pattern set that fails to compile hides
/// nothing (the filter fails open).
pub open spec fn spec_is_ignored(
    patterns: Option<Seq<Seq<char>>>,
    path: Seq<char>,
    is_dir: bool,
) -> bool {
    match patterns {
        None => false,
        Some(ps) => ignore_compiles(ps) && ignore_verdict(ps, path, is_dir),
    }
}

/// The message handed back when a permission is missing from the grant.
pub open spec fn spec_denial_message(permission: Seq<char>) -> Seq<char> {
    "you do not have permission to perform this action: "@ + permission
}

/// The permission strings forwarded to the agent for a console session: an
/// administrator gets the wildcard and the administrative channels, a subuser
/// gets the grant's list, and the owner gets the wildcard.
pub open spec fn spec_wings_permissions(
    grant: Option<Seq<Seq<char>>>,
    admin: bool,
) -> Seq<Seq<char>> {
    if admin {
        seq![
            "websocket.connect"@,
            "*"@,
            "admin.websocket.errors"@,
            "admin.websocket.install"@,
            "admin.websocket.transfer"@,
        ]
    } else {
        match grant {
            Some(ps) => seq!["websocket.connect"@] + ps,
            None => seq!["websocket.connect"@, "*"@],
        }
    }
}

/// The mathematical content of a materialized server: the joined row data,
/// the subuser grant, and whether the ignored-file matcher has been compiled.
pub ghost struct ServerView {
    pub row: ServerRow,
    pub allocation: Option<(ServerAllocation, NodeAllocation)>,
    pub node: Node,
    pub egg: NestEgg,
    pub permissions: Option<Seq<Seq<char>>>,
    pub ignored_files: Option<Seq<Seq<char>>>,
    pub matcher_ready: bool,
}

/// A server as materialized for request handling: the stored row joined with
/// its default allocation binding, its node and its workload template, plus
/// the subuser grant under which the caller acts (`None` means full owner or
/// administrator access), and the matcher compiled lazily from the grant's
/// ignored-file patterns.
pub struct Server {
    row: ServerRow,
    allocation: Option<(ServerAllocation, NodeAllocation)>,
    node: Node,
    egg: NestEgg,
    subuser_permissions: Option<Vec<String>>,
    subuser_ignored_files: Option<Vec<String>>,
    subuser_ignored_files_overrides: Option<Box<ignore::overrides::Override>>,
}

impl View for Server {
    type V = ServerView;

    closed spec fn view(&self) -> ServerView {
        ServerView {
            row: self.row,
            allocation: self.allocation,
            node: self.node,
            egg: self.egg,
            permissions: self.subuser_permissions.deep_view(),
            ignored_files: self.subuser_ignored_files.deep_view(),
            matcher_ready: self.subuser_ignored_files_overrides is Some,
        }
    }
}

impl Server {
    /// Coherence of the lazily compiled matcher with the grant it was
    /// compiled from.
    pub closed spec fn matcher_wf(self) -> bool {
        match self.subuser_ignored_files_overrides {
            Some(m) => {
                &&& self@.ignored_files is Some
                &&& ignore_compiles(self@.ignored_files.unwrap())
                &&& forall|path: Seq<char>, is_dir: bool|
                    #[trigger] override_verdict(*m, path, is_dir) == ignore_verdict(
                        self@.ignored_files.unwrap(),
                        path,
                        is_dir,
                    )
            },
            None => true,
        }
    }

    /// Materializes a server from its parts; the matcher starts uncompiled.
    pub fn assemble(
        row: ServerRow,
        allocation: Option<(ServerAllocation, NodeAllocation)>,
        node: Node,
        egg: NestEgg,
        subuser_permissions: Option<Vec<String>>,
        subuser_ignored_files: Option<Vec<String>>,
    ) -> (s: Server)
        ensures
            s@.row == row,
            s@.allocation == allocation,
            s@.node == node,
            s@.egg == egg,
            s@.permissions == subuser_permissions.deep_view(),
            s@.ignored_files == subuser_ignored_files.deep_view(),
            s.matcher_wf(),
            !s@.matcher_ready,
    {
        Server {
            row,
            allocation,
            node,
            egg,
            subuser_permissions,
            subuser_ignored_files,
            subuser_ignored_files_overrides: None,
        }
    }

    /// Splits a consumed server into its owned parts: the row, the default
    /// allocation binding, the node, the workload template, and the grant.
    pub fn into_parts(self) -> (r: (
        ServerRow,
        Option<(ServerAllocation, NodeAllocation)>,
        Node,
        NestEgg,
        Option<Vec<String>>,
        Option<Vec<String>>,
    ))
        ensures
            r.0 == self@.row,
            r.1 == self@.allocation,
            r.2 == self@.node,
            r.3 == self@.egg,
            r.4.deep_view() == self@.permissions,
            r.5.deep_view() == self@.ignored_files,
    {
        (
            self.row,
            self.allocation,
            self.node,
            self.egg,
            self.subuser_permissions,
            self.subuser_ignored_files,
        )
    }

    /// The stored row of this server.
    pub fn row(&self) -> (r: &ServerRow)
        ensures
            *r == self@.row,
    {
        &self.row
    }

    /// The default allocation binding joined onto this server, if any.
    pub fn allocation(&self) -> (r: &Option<(ServerAllocation, NodeAllocation)>)
        ensures
            *r == self@.allocation,
    {
        &self.allocation
    }

    /// The node this server lives on.
    pub fn node(&self) -> (r: &Node)
        ensures
            *r == self@.node,
    {
        &self.node
    }

    /// The workload template this server was instantiated from.
    pub fn egg(&self) -> (r: &NestEgg)
        ensures
            *r == self@.egg,
    {
        &self.egg
    }

    /// The grant's permission list.
    pub fn subuser_permissions(&self) -> (r: &Option<Vec<String>>)
        ensures
            r.deep_view() == self@.permissions,
    {
        &self.subuser_permissions
    }

    /// The grant's ignored-file patterns, as handed to the agent when listing
    /// files.
    pub fn subuser_ignored_files(&self) -> (r: &Option<Vec<String>>)
        ensures
            r.deep_view() == self@.ignored_files,
    {
        &self.subuser_ignored_files
    }

    /// Capability check: a `None` grant may do anything; otherwise the
    /// permission must be literally present in the grant's list, and a denial
    /// carries a message naming the missing permission.
    pub fn has_permission(&self, permission: &str) -> (r: Result<(), String>)
        ensures
            match self@.permissions {
                None => r is Ok,
                Some(l) => {
                    &&& r is Ok <==> l.contains(permission@)
                    &&& (r matches Err(e) ==> e@ == spec_denial_message(permission@))
                },
            },
    {
        if let Some(permissions) = &self.subuser_permissions {
            let needle = permission.to_owned();
            let mut found = false;
            let mut i: usize = 0;
            while i < permissions.len()
                invariant
                    i <= permissions@.len(),
                    needle@ == permission@,
                    found <==> exists|k: int|
                        0 <= k < i && #[trigger] permissions@[k]@ == permission@,
                decreases permissions@.len() - i,
            {
                if permissions[i] == needle {
                    found = true;
                }
                i += 1;
            }
            if found {
                proof {
                    let k = choose|k: int|
                        0 <= k < permissions@.len() && #[trigger] permissions@[k]@ == permission@;
                    assert(permissions.deep_view()[k] == permission@);
                }
                Ok(())
            } else {
                proof {
                    assert forall|k: int|
                        0 <= k < permissions.deep_view().len() implies permissions.deep_view()[k]
                        != permission@ by {
                        assert(permissions@[k]@ != permission@);
                    }
                }
                let mut message = String::from_str(
                    "you do not have permission to perform this action: ",
                );
                message.append(permission);
                Err(message)
            }
        } else {
            Ok(())
        }
    }

    /// The permission strings forwarded to the agent for a console session.
    pub fn wings_permissions(&self, user: &User) -> (r: Vec<&str>)
        ensures
            r.deep_view() == spec_wings_permissions(self@.permissions, user.admin),
    {
        let mut permissions: Vec<&str> = Vec::new();
        if user.admin {
            permissions.push("websocket.connect");
            permissions.push("*");
            permissions.push("admin.websocket.errors");
            permissions.push("admin.websocket.install");
            permissions.push("admin.websocket.transfer");
            proof {
                assert(permissions.deep_view() =~= spec_wings_permissions(
                    self@.permissions,
                    user.admin,
                ));
            }
            return permissions;
        }
        if let Some(subuser_permissions) = &self.subuser_permissions {
            permissions.push("websocket.connect");
            let mut i: usize = 0;
            while i < subuser_permissions.len()
                invariant
                    i <= subuser_permissions@.len(),
                    permissions@.len() == 1 + i,
                    permissions@[0]@ == "websocket.connect"@,
                    forall|k: int|
                        0 <= k < i ==> #[trigger] permissions@[k + 1]@ == subuser_permissions@[k]@,
                decreases subuser_permissions@.len() - i,
            {
                permissions.push(subuser_permissions[i].as_str());
                i += 1;
            }
            proof {
                let target = spec_wings_permissions(self@.permissions, user.admin);
                assert forall|k: int|
                    0 <= k < permissions.deep_view().len() implies permissions.deep_view()[k]
                    == target[k] by {
                    if k > 0 {
                        assert(permissions@[(k - 1) + 1]@ == subuser_permissions@[k - 1]@);
                    }
                }
                assert(permissions.deep_view() =~= target);
            }
        } else {
            permissions.push("websocket.connect");
            permissions.push("*");
            proof {
                assert(permissions.deep_view() =~= spec_wings_permissions(
                    self@.permissions,
                    user.admin,
                ));
            }
        }
        permissions
    }

    /// Visibility filter: whether the path is hidden from the caller. The
    /// matcher is compiled from the grant's patterns on first use and kept on
    /// this instance; a present matcher is reused, never rebuilt.
    pub fn is_ignored(&mut self, path: &str, is_dir: bool) -> (r: bool)
        requires
            old(self).matcher_wf(),
        ensures
            final(self).matcher_wf(),
            r == spec_is_ignored(old(self)@.ignored_files, path@, is_dir),
            final(self)@.ignored_files == old(self)@.ignored_files,
            final(self)@.row == old(self)@.row,
            final(self)@.allocation == old(self)@.allocation,
            final(self)@.node == old(self)@.node,
            final(self)@.egg == old(self)@.egg,
            final(self)@.permissions == old(self)@.permissions,
            old(self)@.matcher_ready ==> *final(self) == *old(self),
            final(self)@.matcher_ready == (old(self)@.matcher_ready || (old(
                self,
            )@.ignored_files is Some && ignore_compiles(old(self)@.ignored_files.unwrap()))),
    {
        if self.subuser_ignored_files.is_some() {
            if let Some(overrides) = &self.subuser_ignored_files_overrides {
                return matched_whitelist(overrides, path, is_dir);
            }
            let compiled = match &self.subuser_ignored_files {
                Some(ignored_files) => compile_overrides(ignored_files),
                None => None,
            };
            match compiled {
                Some(m) => {
                    let ignored = matched_whitelist(&m, path, is_dir);
                    self.subuser_ignored_files_overrides = Some(m);
                    ignored
                },
                None => false,
            }
        } else {
            false
        }
    }
}

/// Once the grant and the path are fixed, the ignored-file verdict is fixed:
/// two evaluations of the filter on the same grant, path and directory flag
/// agree, whatever each call did to the cached matcher.
pub proof fn lemma_is_ignored_deterministic(
    patterns: Option<Seq<Seq<char>>>,
    path: Seq<char>,
    is_dir: bool,
    r1: bool,
    r2: bool,
)
    requires
        r1 == spec_is_ignored(patterns, path, is_dir),
        r2 == spec_is_ignored(patterns, path, is_dir),
    ensures
        r1 == r2,
{
}

/// The error answered when a passed identifier does not parse as the kind
/// its length selects.
#[derive(PartialEq, Eq, Structural, Clone, Copy, Debug)]
pub struct InvalidIdentifier;

/// The servers owned by one user, in stored order.
pub open spec fn servers_of_owner(s: Seq<ServerRow>, owner_id: i32) -> Seq<ServerRow> {
    s.filter(|r: ServerRow| r.owner_id == owner_id)
}

proof fn lemma_servers_of_owner_push(s: Seq<ServerRow>, x: ServerRow, owner_id: i32)
    ensures
        servers_of_owner(s.push(x), owner_id) == if x.owner_id == owner_id {
            servers_of_owner(s, owner_id).push(x)
        } else {
            servers_of_owner(s, owner_id)
        },
{
    broadcast use Seq::lemma_filter_push;

}

impl Server {
    /// The stored server row with this identifier, if any.
    pub fn by_id<'a>(store: &'a crate::store::Store, id: i32) -> (r: Option<&'a ServerRow>)
        ensures
            r is Some <==> crate::store::server_with_id(store.servers@, id),
            r matches Some(row) ==> row.id == id && store.servers@.contains(*row),
    {
        match store.find_server(id) {
            Some(i) => {
                let row = &store.servers[i];
                proof {
                    assert(store.servers@.contains(store.servers@[i as int]));
                }
                Some(row)
            },
            None => None,
        }
    }

    /// The stored row with this full identifier that lives on, or is moving
    /// to, the given node, if any.
    pub fn by_node_id_uuid<'a>(store: &'a crate::store::Store, node_id: i32, uuid: u128) -> (r:
        Option<&'a ServerRow>)
        ensures
            r is Some <==> exists|k: int|
                0 <= k < store.servers@.len() && #[trigger] store.servers@[k].uuid == uuid && (
                store.servers@[k].node_id == node_id || store.servers@[k].destination_node_id
                    == Some(node_id)),
            r matches Some(row) ==> {
                &&& row.uuid == uuid
                &&& row.node_id == node_id || row.destination_node_id == Some(node_id)
                &&& store.servers@.contains(*row)
            },
    {
        let mut i: usize = 0;
        while i < store.servers.len()
            invariant
                i <= store.servers@.len(),
                forall|k: int|
                    0 <= k < i ==> !(#[trigger] store.servers@[k].uuid == uuid && (
                    store.servers@[k].node_id == node_id || store.servers@[k].destination_node_id
                        == Some(node_id))),
            decreases store.servers@.len() - i,
        {
            let row = &store.servers[i];
            let dest_matches = match row.destination_node_id {
                Some(d) => d == node_id,
                None => false,
            };
            if row.uuid == uuid && (row.node_id == node_id || dest_matches) {
                proof {
                    assert(store.servers@.contains(store.servers@[i as int]));
                }
                return Some(row);
            }
            i += 1;
        }
        None
    }

    /// The stored row with this external identifier, if any.
    pub fn by_external_id<'a>(store: &'a crate::store::Store, external_id: &str) -> (r: Option<
        &'a ServerRow,
    >)
        ensures
            r is Some <==> exists|k: int|
                0 <= k < store.servers@.len()
                    && #[trigger] store.servers@[k].external_id.deep_view() == Some(
                    external_id@,
                ),
            r matches Some(row) ==> row.external_id.deep_view() == Some(external_id@)
                && store.servers@.contains(*row),
    {
        let needle = external_id.to_owned();
        let mut i: usize = 0;
        while i < store.servers.len()
            invariant
                i <= store.servers@.len(),
                needle@ == external_id@,
                forall|k: int|
                    0 <= k < i ==> #[trigger] store.servers@[k].external_id.deep_view() != Some(
                        external_id@,
                    ),
            decreases store.servers@.len() - i,
        {
            let row = &store.servers[i];
            let found = match &row.external_id {
                Some(e) => *e == needle,
                None => false,
            };
            if found {
                proof {
                    assert(store.servers@.contains(store.servers@[i as int]));
                    assert(store.servers@[i as int].external_id.deep_view() == Some(
                        external_id@,
                    ));
                }
                return Some(row);
            }
            proof {
                match store.servers@[i as int].external_id {
                    Some(e) => {
                        assert(store.servers@[i as int].external_id.deep_view() == Some(e@));
                        assert(e@ != external_id@);
                    },
                    None => {
                        assert(store.servers@[i as int].external_id.deep_view() is None);
                    },
                }
            }
            i += 1;
        }
        None
    }

    /// The stored row with this short identifier, if any.
    pub fn by_uuid_short<'a>(store: &'a crate::store::Store, short: u32) -> (r: Option<
        &'a ServerRow,
    >)
        ensures
            r is Some <==> exists|k: int|
                0 <= k < store.servers@.len() && #[trigger] store.servers@[k].uuid_short == short,
            r matches Some(row) ==> row.uuid_short == short && store.servers@.contains(*row),
    {
        let mut i: usize = 0;
        while i < store.servers.len()
            invariant
                i <= store.servers@.len(),
                forall|k: int| 0 <= k < i ==> #[trigger] store.servers@[k].uuid_short != short,
            decreases store.servers@.len() - i,
        {
            if store.servers[i].uuid_short == short {
                proof {
                    assert(store.servers@.contains(store.servers@[i as int]));
                }
                return Some(&store.servers[i]);
            }
            i += 1;
        }
        None
    }

    /// The stored row with this full identifier, if any.
    pub fn by_uuid<'a>(store: &'a crate::store::Store, uuid: u128) -> (r: Option<&'a ServerRow>)
        ensures
            r is Some <==> exists|k: int|
                0 <= k < store.servers@.len() && #[trigger] store.servers@[k].uuid == uuid,
            r matches Some(row) ==> row.uuid == uuid && store.servers@.contains(*row),
    {
        let mut i: usize = 0;
        while i < store.servers.len()
            invariant
                i <= store.servers@.len(),
                forall|k: int| 0 <= k < i ==> #[trigger] store.servers@[k].uuid != uuid,
            decreases store.servers@.len() - i,
        {
            if store.servers[i].uuid == uuid {
                proof {
                    assert(store.servers@.contains(store.servers@[i as int]));
                }
                return Some(&store.servers[i]);
            }
            i += 1;
        }
        None
    }

    /// Finds a server by whatever identifier a caller passed: eight bytes are
    /// read as a hexadecimal short identifier, thirty-six as a full
    /// identifier, anything else as the numeric row identifier; text that
    /// does not parse as the selected kind is an error.
    pub fn by_identifier<'a>(store: &'a crate::store::Store, identifier: &str) -> (r: Result<
        Option<&'a ServerRow>,
        InvalidIdentifier,
    >)
        ensures
            ({
                let blen = identifier.spec_bytes().len();
                if blen == 8 {
                    match crate::identifier::spec_parse_u32_hex(identifier@) {
                        Some(short) => r matches Ok(o) && (o is Some <==> exists|k: int|
                            0 <= k < store.servers@.len() && #[trigger] store.servers@[k].uuid_short
                                == short) && (o matches Some(row) ==> row.uuid_short == short
                            && store.servers@.contains(*row)),
                        None => r is Err,
                    }
                } else if blen == 36 {
                    match crate::identifier::uuid_parse(identifier@) {
                        Some(u) => r matches Ok(o) && (o is Some <==> exists|k: int|
                            0 <= k < store.servers@.len() && #[trigger] store.servers@[k].uuid
                                == u) && (o matches Some(row) ==> row.uuid == u
                            && store.servers@.contains(*row)),
                        None => r is Err,
                    }
                } else {
                    match crate::identifier::spec_parse_i32(identifier@) {
                        Some(id) => r matches Ok(o) && (o is Some
                            <==> crate::store::server_with_id(store.servers@, id)) && (
                        o matches Some(row) ==> row.id == id && store.servers@.contains(*row)),
                        None => r is Err,
                    }
                }
            }),
    {
        let blen = identifier.as_bytes().len();
        if blen == 8 {
            match crate::identifier::parse_u32_hex(identifier) {
                Some(short) => Ok(Self::by_uuid_short(store, short)),
                None => Err(InvalidIdentifier),
            }
        } else if blen == 36 {
            match crate::identifier::parse_uuid_str(identifier) {
                Some(u) => Ok(Self::by_uuid(store, u)),
                None => Err(InvalidIdentifier),
            }
        } else {
            match crate::identifier::parse_i32(identifier) {
                Some(id) => {
                    match store.find_server(id) {
                        Some(i) => {
                            proof {
                                assert(store.servers@.contains(store.servers@[i as int]));
                            }
                            Ok(Some(&store.servers[i]))
                        },
                        None => Ok(None),
                    }
                },
                None => Err(InvalidIdentifier),
            }
        }
    }

    /// How many servers a user owns.
    pub fn count_by_user_id(store: &crate::store::Store, user_id: i32) -> (r: usize)
        ensures
            r == servers_of_owner(store.servers@, user_id).len(),
    {
        let mut count: usize = 0;
        let mut i: usize = 0;
        while i < store.servers.len()
            invariant
                i <= store.servers@.len(),
                count == servers_of_owner(store.servers@.take(i as int), user_id).len(),
                count <= i,
            decreases store.servers@.len() - i,
        {
            proof {
                assert(store.servers@.take(i + 1) =~= store.servers@.take(i as int).push(
                    store.servers@[i as int],
                ));
                lemma_servers_of_owner_push(
                    store.servers@.take(i as int),
                    store.servers@[i as int],
                    user_id,
                );
            }
            if store.servers[i].owner_id == user_id {
                count += 1;
            }
            i += 1;
        }
        proof {
            assert(store.servers@.take(store.servers@.len() as int) =~= store.servers@);
        }
        count
    }

    /// The node this server is being transferred to, if a transfer is active.
    pub fn destination_node<'a>(&self, store: &'a crate::store::Store) -> (r: Option<&'a Node>)
        ensures
            match self@.row.destination_node_id {
                Some(nid) => {
                    &&& r is Some <==> crate::store::node_with_id(store.nodes@, nid)
                    &&& (r matches Some(n) ==> n.id == nid && store.nodes@.contains(*n))
                },
                None => r is None,
            },
    {
        match self.row.destination_node_id {
            Some(nid) => {
                match store.find_node(nid) {
                    Some(i) => {
                        let n = &store.nodes[i];
                        proof {
                            assert(store.nodes@.contains(store.nodes@[i as int]));
                        }
                        Some(n)
                    },
                    None => None,
                }
            },
            None => None,
        }
    }
}

impl Node {
    /// The typed client for this node's agent: the node's address and token.
    pub fn api_client(&self) -> (r: crate::agent::WingsClient)
        ensures
            r.spec_base_url() == self.url@,
            r.spec_token() == self.token@,
    {
        crate::agent::WingsClient::new(self.url.clone(), self.token.clone())
    }
}

} // verus!
