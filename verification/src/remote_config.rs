use vstd::prelude::*;

use crate::model::ServerConfigurationAutoKill;
use crate::server::Server;

verus! {

/// The name/description block of an agent-side server configuration.
pub struct ServerConfigurationMeta {
    pub name: String,
    pub description: String,
}

/// The endpoint a server binds by default, as the agent sees it.
pub struct ServerConfigurationAllocationsDefault {
    pub ip: u128,
    pub port: u32,
}

/// The endpoints of a server, grouped per address in first-seen order.
pub struct ServerConfigurationAllocations {
    pub force_outgoing_ip: bool,
    pub default: Option<ServerConfigurationAllocationsDefault>,
    pub mappings: Vec<(u128, Vec<u32>)>,
}

/// The resource build of a server, as the agent sees it.
pub struct ServerConfigurationBuild {
    pub memory_limit: i64,
    pub swap: i64,
    pub io_weight: Option<u32>,
    pub cpu_limit: i64,
    pub disk_space: u64,
    pub threads: Option<String>,
    pub oom_disabled: bool,
}

/// A mount handed to the agent.
pub struct Mount {
    pub source: String,
    pub target: String,
    pub read_only: bool,
}

/// The workload-template block of an agent-side configuration.
pub struct ServerConfigurationEgg {
    pub id: u128,
    pub file_denylist: Vec<String>,
}

/// The container block of an agent-side configuration.
pub struct ServerConfigurationContainer {
    pub image: String,
    pub timezone: Option<String>,
}

/// The full server configuration the agent is synchronized with.
pub struct ServerConfiguration {
    pub uuid: u128,
    pub start_on_completion: Option<bool>,
    pub meta: ServerConfigurationMeta,
    pub suspended: bool,
    pub invocation: String,
    pub skip_egg_scripts: bool,
    pub environment: Vec<(String, String)>,
    pub labels: Vec<(String, String)>,
    pub backups: Vec<u128>,
    pub allocations: ServerConfigurationAllocations,
    pub build: ServerConfigurationBuild,
    pub mounts: Vec<Mount>,
    pub egg: ServerConfigurationEgg,
    pub container: ServerConfigurationContainer,
    pub auto_kill: ServerConfigurationAutoKill,
}

/// The startup/stop/configuration block of the workload template, carried as
/// pre-rendered text.
pub struct ProcessConfiguration {
    pub startup: String,
    pub stop: String,
    pub configs: String,
}

/// What the control plane answers when an agent asks for a server: the full
/// configuration plus the template's process block.
pub struct RemoteApiServer {
    pub settings: ServerConfiguration,
    pub process_configuration: ProcessConfiguration,
}

/// One workload-template variable as stored, with the server's value if set.
pub struct EggEnvironmentVariable {
    pub env_variable: String,
    pub value: Option<String>,
}

/// The addresses of a list of endpoints, in order and with repetition.
pub open spec fn ips_of(s: Seq<(u128, i32)>) -> Seq<u128> {
    s.map_values(|p: (u128, i32)| p.0)
}

/// The distinct values of a sequence, each at its first occurrence.
pub open spec fn first_seen(s: Seq<u128>) -> Seq<u128>
    decreases s.len(),
{
    if s.len() == 0 {
        Seq::empty()
    } else if first_seen(s.drop_last()).contains(s.last()) {
        first_seen(s.drop_last())
    } else {
        first_seen(s.drop_last()).push(s.last())
    }
}

/// The ports bound on one address, in order.
pub open spec fn ports_for(s: Seq<(u128, i32)>, ip: u128) -> Seq<u32>
    decreases s.len(),
{
    if s.len() == 0 {
        Seq::empty()
    } else if s.last().0 == ip {
        ports_for(s.drop_last(), ip).push(s.last().1 as u32)
    } else {
        ports_for(s.drop_last(), ip)
    }
}

/// A decimal digit as a character.
pub open spec fn dec_digit(n: int) -> char {
    if n == 0 {
        '0'
    } else if n == 1 {
        '1'
    } else if n == 2 {
        '2'
    } else if n == 3 {
        '3'
    } else if n == 4 {
        '4'
    } else if n == 5 {
        '5'
    } else if n == 6 {
        '6'
    } else if n == 7 {
        '7'
    } else if n == 8 {
        '8'
    } else {
        '9'
    }
}

/// The decimal text of a number.
pub open spec fn dec_str(n: nat) -> Seq<char>
    decreases n,
{
    if n < 10 {
        seq![dec_digit(n as int)]
    } else {
        dec_str(n / 10).push(dec_digit((n % 10) as int))
    }
}

/// The pinned processor list as the comma-separated text the agent expects.
pub open spec fn join_cpus(s: Seq<i16>) -> Seq<char>
    decreases s.len(),
{
    if s.len() == 0 {
        Seq::empty()
    } else if s.len() == 1 {
        dec_str(s[0] as nat)
    } else {
        join_cpus(s.drop_last()) + seq![','] + dec_str(s.last() as nat)
    }
}

/// The synthetic 128-bit identifier the agent is given for a workload
/// template: the template's serial identifier spread over the leading fields.
pub open spec fn spec_egg_uuid(id: i32) -> u128 {
    (((id as u32) as u128) << 96) | ((((id >> 16) as u16) as u128) << 80) | (((
    id as u16) as u128) << 64)
}

/// Appends one decimal digit.
fn push_dec_digit(out: &mut String, d: u16)
    requires
        d < 10,
    ensures
        final(out)@ == old(out)@ + seq![dec_digit(d as int)],
{
    proof {
        reveal_strlit("0");
        reveal_strlit("1");
        reveal_strlit("2");
        reveal_strlit("3");
        reveal_strlit("4");
        reveal_strlit("5");
        reveal_strlit("6");
        reveal_strlit("7");
        reveal_strlit("8");
        reveal_strlit("9");
    }
    if d == 0 {
        out.append("0");
    } else if d == 1 {
        out.append("1");
    } else if d == 2 {
        out.append("2");
    } else if d == 3 {
        out.append("3");
    } else if d == 4 {
        out.append("4");
    } else if d == 5 {
        out.append("5");
    } else if d == 6 {
        out.append("6");
    } else if d == 7 {
        out.append("7");
    } else if d == 8 {
        out.append("8");
    } else {
        out.append("9");
    }
    proof {
        assert(final(out)@ =~= old(out)@ + seq![dec_digit(d as int)]);
    }
}

/// Appends the decimal text of a number.
fn push_dec_u16(out: &mut String, v: u16)
    ensures
        final(out)@ == old(out)@ + dec_str(v as nat),
    decreases v,
{
    if v >= 10 {
        push_dec_u16(out, v / 10);
        push_dec_digit(out, v % 10);
        proof {
            assert(final(out)@ =~= old(out)@ + dec_str(v as nat));
        }
    } else {
        push_dec_digit(out, v);
    }
}

/// The comma-separated pinned processor list, or nothing when no processor is
/// pinned.
fn build_threads(pinned_cpus: &Vec<i16>) -> (r: Option<String>)
    requires
        forall|i: int| 0 <= i < pinned_cpus@.len() ==> 0 <= #[trigger] pinned_cpus@[i],
    ensures
        match r {
            Some(t) => pinned_cpus@.len() > 0 && t@ == join_cpus(pinned_cpus@),
            None => pinned_cpus@.len() == 0,
        },
{
    if pinned_cpus.len() == 0 {
        return None;
    }
    let mut out = String::new();
    let mut i: usize = 0;
    while i < pinned_cpus.len()
        invariant
            forall|k: int| 0 <= k < pinned_cpus@.len() ==> 0 <= #[trigger] pinned_cpus@[k],
            0 < pinned_cpus@.len(),
            i <= pinned_cpus@.len(),
            i > 0 ==> out@ == join_cpus(pinned_cpus@.take(i as int)),
            i == 0 ==> out@ == Seq::<char>::empty(),
        decreases pinned_cpus@.len() - i,
    {
        if i > 0 {
            proof {
                reveal_strlit(",");
            }
            out.append(",");
        }
        push_dec_u16(&mut out, pinned_cpus[i] as u16);
        proof {
            let taken = pinned_cpus@.take(i + 1);
            assert(taken.drop_last() =~= pinned_cpus@.take(i as int));
            assert(taken.last() == pinned_cpus@[i as int]);
            if i > 0 {
                assert(out@ =~= join_cpus(taken));
            } else {
                assert(out@ =~= join_cpus(taken));
            }
        }
        i += 1;
    }
    proof {
        assert(pinned_cpus@.take(pinned_cpus@.len() as int) =~= pinned_cpus@);
    }
    Some(out)
}

impl Server {
    /// Materializes the configuration the agent is synchronized with, from
    /// this server and the rows fetched alongside it: its template variables,
    /// its backups, its mounts, and all endpoints bound to it.
    #[verifier::loop_isolation(false)]
    pub fn into_remote_api_object(
        self,
        variables: Vec<EggEnvironmentVariable>,
        backups: Vec<u128>,
        mounts: Vec<Mount>,
        allocations: Vec<(u128, i32)>,
    ) -> (r: RemoteApiServer)
        requires
            self@.allocation matches Some(a) ==> 0 <= a.1.port,
            self@.row.disk >= 0,
            self@.row.io_weight matches Some(w) ==> 0 <= w,
            forall|i: int| 0 <= i < allocations@.len() ==> 0 <= #[trigger] allocations@[i].1,
            forall|i: int|
                0 <= i < self@.row.pinned_cpus@.len() ==> 0
                    <= #[trigger] self@.row.pinned_cpus@[i],
        ensures
            r.settings.uuid == self@.row.uuid,
            r.settings.start_on_completion is None,
            r.settings.meta.name == self@.row.name,
            r.settings.meta.description@ == match self@.row.description {
                Some(d) => d@,
                None => Seq::<char>::empty(),
            },
            r.settings.suspended == self@.row.suspended,
            r.settings.invocation == self@.row.startup,
            !r.settings.skip_egg_scripts,
            r.settings.environment@.len() == variables@.len(),
            forall|i: int|
                0 <= i < variables@.len() ==> (#[trigger] r.settings.environment@[i]).0
                    == variables@[i].env_variable && r.settings.environment@[i].1@ == match
                    variables@[i].value {
                    Some(v) => v@,
                    None => Seq::<char>::empty(),
                },
            r.settings.labels@.len() == 0,
            r.settings.backups == backups,
            r.settings.allocations.force_outgoing_ip == self@.egg.force_outgoing_ip,
            match self@.allocation {
                Some(a) => r.settings.allocations.default matches Some(d) && d.ip == a.1.ip
                    && d.port == a.1.port as u32,
                None => r.settings.allocations.default is None,
            },
            r.settings.allocations.mappings@.len() == first_seen(ips_of(allocations@)).len(),
            forall|k: int|
                0 <= k < r.settings.allocations.mappings@.len() ==> (
                #[trigger] r.settings.allocations.mappings@[k]).0 == first_seen(
                    ips_of(allocations@),
                )[k] && r.settings.allocations.mappings@[k].1@ == ports_for(
                    allocations@,
                    first_seen(ips_of(allocations@))[k],
                ),
            r.settings.build.memory_limit == self@.row.memory,
            r.settings.build.swap == self@.row.swap,
            r.settings.build.io_weight == match self@.row.io_weight {
                Some(w) => Some((w as u16) as u32),
                None => None::<u32>,
            },
            r.settings.build.cpu_limit == self@.row.cpu as i64,
            r.settings.build.disk_space == self@.row.disk as u64,
            match r.settings.build.threads {
                Some(t) => self@.row.pinned_cpus@.len() > 0 && t@ == join_cpus(
                    self@.row.pinned_cpus@,
                ),
                None => self@.row.pinned_cpus@.len() == 0,
            },
            r.settings.build.oom_disabled,
            r.settings.mounts == mounts,
            r.settings.egg.id == spec_egg_uuid(self@.egg.id),
            r.settings.egg.file_denylist == self@.egg.file_denylist,
            r.settings.container.image == self@.row.image,
            r.settings.container.timezone == self@.row.timezone,
            r.settings.auto_kill == self@.row.auto_kill,
            r.process_configuration.startup == self@.egg.config_startup,
            r.process_configuration.stop == self@.egg.config_stop,
            r.process_configuration.configs == self@.egg.config_files,
    {
        let (row, allocation, _node, egg, _permissions, _ignored) = self.into_parts();

        let mut environment: Vec<(String, String)> = Vec::new();
        let mut vars = variables;
        let ghost vars0 = vars@;
        while vars.len() > 0
            invariant
                vars@.len() <= vars0.len(),
                vars@ =~= vars0.skip(vars0.len() - vars@.len()),
                environment@.len() == vars0.len() - vars@.len(),
                forall|i: int|
                    0 <= i < environment@.len() ==> (#[trigger] environment@[i]).0
                        == vars0[i].env_variable && environment@[i].1@ == match vars0[i].value {
                        Some(v) => v@,
                        None => Seq::<char>::empty(),
                    },
            decreases vars@.len(),
        {
            let ghost i = vars0.len() - vars@.len();
            let v = vars.remove(0);
            proof {
                assert(v == vars0[i]);
                assert(vars@ =~= vars0.skip(i + 1));
            }
            let value = match v.value {
                Some(val) => val,
                None => String::new(),
            };
            environment.push((v.env_variable, value));
        }

        let default = match &allocation {
            Some(a) => Some(
                ServerConfigurationAllocationsDefault { ip: a.1.ip, port: a.1.port as u32 },
            ),
            None => None,
        };

        let mut keys: Vec<u128> = Vec::new();
        let mut i: usize = 0;
        while i < allocations.len()
            invariant
                i <= allocations@.len(),
                keys@ == first_seen(ips_of(allocations@.take(i as int))),
            decreases allocations@.len() - i,
        {
            proof {
                assert(ips_of(allocations@.take(i + 1)).drop_last() =~= ips_of(
                    allocations@.take(i as int),
                ));
                assert(ips_of(allocations@.take(i + 1)).last() == allocations@[i as int].0);
            }
            let ip = allocations[i].0;
            let mut seen = false;
            let mut k: usize = 0;
            while k < keys.len()
                invariant
                    k <= keys@.len(),
                    seen <==> exists|t: int| 0 <= t < k && #[trigger] keys@[t] == ip,
                decreases keys@.len() - k,
            {
                if keys[k] == ip {
                    seen = true;
                }
                k += 1;
            }
            proof {
                assert(seen == keys@.contains(ip));
            }
            if !seen {
                keys.push(ip);
            }
            i += 1;
        }
        proof {
            assert(allocations@.take(allocations@.len() as int) =~= allocations@);
        }

        let mut mappings: Vec<(u128, Vec<u32>)> = Vec::new();
        let mut k: usize = 0;
        while k < keys.len()
            invariant
                k <= keys@.len(),
                mappings@.len() == k,
                forall|t: int|
                    0 <= t < k ==> (#[trigger] mappings@[t]).0 == keys@[t] && mappings@[t].1@
                        == ports_for(allocations@, keys@[t]),
            decreases keys@.len() - k,
        {
            let ip = keys[k];
            let mut ports: Vec<u32> = Vec::new();
            let mut j: usize = 0;
            while j < allocations.len()
                invariant
                    j <= allocations@.len(),
                    ports@ == ports_for(allocations@.take(j as int), ip),
                decreases allocations@.len() - j,
            {
                proof {
                    assert(allocations@.take(j + 1).drop_last() =~= allocations@.take(j as int));
                    assert(allocations@.take(j + 1).last() == allocations@[j as int]);
                }
                if allocations[j].0 == ip {
                    ports.push(allocations[j].1 as u32);
                }
                j += 1;
            }
            proof {
                assert(allocations@.take(allocations@.len() as int) =~= allocations@);
            }
            mappings.push((ip, ports));
            k += 1;
        }

        let threads = build_threads(&row.pinned_cpus);
        let io_weight = match row.io_weight {
            Some(w) => Some((w as u16) as u32),
            None => None,
        };
        let egg_id: u128 = ((#[verifier::truncate] (egg.id as u32)) as u128) << 96 | ((
        #[verifier::truncate] ((egg.id >> 16) as u16)) as u128) << 80 | ((#[verifier::truncate] (
        egg.id as u16)) as u128) << 64;
        proof {
            assert(egg_id == spec_egg_uuid(egg.id));
        }
        let description = match row.description {
            Some(d) => d,
            None => String::new(),
        };

        RemoteApiServer {
            settings: ServerConfiguration {
                uuid: row.uuid,
                start_on_completion: None,
                meta: ServerConfigurationMeta { name: row.name, description },
                suspended: row.suspended,
                invocation: row.startup,
                skip_egg_scripts: false,
                environment,
                labels: Vec::new(),
                backups,
                allocations: ServerConfigurationAllocations {
                    force_outgoing_ip: egg.force_outgoing_ip,
                    default,
                    mappings,
                },
                build: ServerConfigurationBuild {
                    memory_limit: row.memory,
                    swap: row.swap,
                    io_weight,
                    cpu_limit: row.cpu as i64,
                    disk_space: row.disk as u64,
                    threads,
                    oom_disabled: true,
                },
                mounts,
                egg: ServerConfigurationEgg { id: egg_id, file_denylist: egg.file_denylist },
                container: ServerConfigurationContainer {
                    image: row.image,
                    timezone: row.timezone,
                },
                auto_kill: row.auto_kill,
            },
            process_configuration: ProcessConfiguration {
                startup: egg.config_startup,
                stop: egg.config_stop,
                configs: egg.config_files,
            },
        }
    }
}

} // verus!
