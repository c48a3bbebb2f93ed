use vstd::prelude::*;

verus! {

/// The uniform error envelope of the agent's HTTP API.
#[derive(Clone, Debug)]
pub struct ApiError {
    pub error: String,
}

/// How a failed agent call is surfaced to the caller: the two status codes
/// with a domain meaning are kept apart; everything else is internal.
#[derive(PartialEq, Eq, Structural, Clone, Copy, Debug)]
pub enum AgentFailureKind {
    NotFound,
    ExpectationFailed,
    Internal,
}

/// Whether an HTTP status code counts as success.
pub open spec fn spec_status_is_success(status: u16) -> bool {
    200 <= status < 300
}

/// Classifies an HTTP status code as success.
pub fn status_is_success(status: u16) -> (r: bool)
    ensures
        r == spec_status_is_success(status),
{
    200 <= status && status < 300
}

/// Maps the status of a failed agent call onto the caller-facing taxonomy:
/// 404 and 417 carry domain meaning, all else is internal.
pub fn classify_agent_failure(status: u16) -> (r: AgentFailureKind)
    ensures
        r == AgentFailureKind::NotFound <==> status == 404,
        r == AgentFailureKind::ExpectationFailed <==> status == 417,
        r == AgentFailureKind::Internal <==> (status != 404 && status != 417),
{
    if status == 404 {
        AgentFailureKind::NotFound
    } else if status == 417 {
        AgentFailureKind::ExpectationFailed
    } else {
        AgentFailureKind::Internal
    }
}

/// A typed handle on one agent's HTTP API: the endpoint's base address and
/// the bearer token sent with each request.
pub struct WingsClient {
    base_url: String,
    token: String,
}

impl WingsClient {
    /// The base address requests are sent to.
    pub closed spec fn spec_base_url(self) -> Seq<char> {
        self.base_url@
    }

    /// The bearer token sent with each request.
    pub closed spec fn spec_token(self) -> Seq<char> {
        self.token@
    }

    pub fn new(base_url: String, token: String) -> (r: WingsClient)
        ensures
            r.spec_base_url() == base_url@,
            r.spec_token() == token@,
    {
        WingsClient { base_url, token }
    }

    /// The base address, for the transport that performs the request.
    pub fn base_url(&self) -> (r: &String)
        ensures
            r@ == self.spec_base_url(),
    {
        &self.base_url
    }

    /// The bearer token, for the transport that performs the request.
    pub fn token(&self) -> (r: &String)
        ensures
            r@ == self.spec_token(),
    {
        &self.token
    }
}

/// A hexadecimal digit as a lowercase character.
pub open spec fn hex_digit(n: int) -> char {
    if n == 0 {
        '0'
    } else if n == 1 {
        '1'
    } else if n == 2 {
        '2'
    } else if n == 3 {
        '3'
    } else if n == 4 {
        '4'
    } else if n == 5 {
        '5'
    } else if n == 6 {
        '6'
    } else if n == 7 {
        '7'
    } else if n == 8 {
        '8'
    } else if n == 9 {
        '9'
    } else if n == 10 {
        'a'
    } else if n == 11 {
        'b'
    } else if n == 12 {
        'c'
    } else if n == 13 {
        'd'
    } else if n == 14 {
        'e'
    } else {
        'f'
    }
}

/// The fixed-width lowercase hexadecimal text of a value.
pub open spec fn hex_str_fixed(v: nat, digits: nat) -> Seq<char>
    decreases digits,
{
    if digits == 0 {
        Seq::empty()
    } else {
        hex_str_fixed(v / 16, (digits - 1) as nat).push(hex_digit((v % 16) as int))
    }
}

/// The canonical hyphenated text of a 128-bit identifier: five lowercase
/// hexadecimal groups of 8, 4, 4, 4 and 12 digits.
pub open spec fn spec_uuid_hyphenated(u: u128) -> Seq<char> {
    hex_str_fixed((u >> 96) as nat, 8) + seq!['-'] + hex_str_fixed(((u >> 80) & 0xFFFF) as nat, 4)
        + seq!['-'] + hex_str_fixed(((u >> 64) & 0xFFFF) as nat, 4) + seq!['-'] + hex_str_fixed(
        ((u >> 48) & 0xFFFF) as nat,
        4,
    ) + seq!['-'] + hex_str_fixed((u & 0xFFFFFFFFFFFF) as nat, 12)
}

/// The endpoint path of one server on the agent.
pub open spec fn spec_servers_server_path(server: u128) -> Seq<char> {
    "/api/servers/"@ + spec_uuid_hyphenated(server)
}

/// A base address with every trailing slash removed.
pub open spec fn spec_trim_trailing_slashes(s: Seq<char>) -> Seq<char>
    decreases s.len(),
{
    if s.len() > 0 && s.last() == '/' {
        spec_trim_trailing_slashes(s.drop_last())
    } else {
        s
    }
}

/// Appends one hexadecimal digit.
fn push_hex_digit(out: &mut String, d: u8)
    requires
        d < 16,
    ensures
        final(out)@ == old(out)@ + seq![hex_digit(d as int)],
{
    proof {
        reveal_strlit("0");
        reveal_strlit("1");
        reveal_strlit("2");
        reveal_strlit("3");
        reveal_strlit("4");
        reveal_strlit("5");
        reveal_strlit("6");
        reveal_strlit("7");
        reveal_strlit("8");
        reveal_strlit("9");
        reveal_strlit("a");
        reveal_strlit("b");
        reveal_strlit("c");
        reveal_strlit("d");
        reveal_strlit("e");
        reveal_strlit("f");
    }
    if d == 0 {
        out.append("0");
    } else if d == 1 {
        out.append("1");
    } else if d == 2 {
        out.append("2");
    } else if d == 3 {
        out.append("3");
    } else if d == 4 {
        out.append("4");
    } else if d == 5 {
        out.append("5");
    } else if d == 6 {
        out.append("6");
    } else if d == 7 {
        out.append("7");
    } else if d == 8 {
        out.append("8");
    } else if d == 9 {
        out.append("9");
    } else if d == 10 {
        out.append("a");
    } else if d == 11 {
        out.append("b");
    } else if d == 12 {
        out.append("c");
    } else if d == 13 {
        out.append("d");
    } else if d == 14 {
        out.append("e");
    } else {
        out.append("f");
    }
    proof {
        assert(final(out)@ =~= old(out)@ + seq![hex_digit(d as int)]);
    }
}

/// Appends the fixed-width lowercase hexadecimal text of a value.
pub(crate) fn push_hex_fixed(out: &mut String, v: u128, digits: u32)
    ensures
        final(out)@ == old(out)@ + hex_str_fixed(v as nat, digits as nat),
    decreases digits,
{
    if digits == 0 {
        proof {
            assert(final(out)@ =~= old(out)@ + hex_str_fixed(v as nat, digits as nat));
        }
        return ;
    }
    push_hex_fixed(out, v / 16, digits - 1);
    push_hex_digit(out, (v % 16) as u8);
    proof {
        assert(final(out)@ =~= old(out)@ + hex_str_fixed(v as nat, digits as nat));
    }
}

/// The canonical hyphenated text of a 128-bit identifier.
pub fn uuid_hyphenated(u: u128) -> (r: String)
    ensures
        r@ == spec_uuid_hyphenated(u),
{
    let mut out = String::new();
    push_hex_fixed(&mut out, u >> 96, 8);
    proof {
        reveal_strlit("-");
    }
    out.append("-");
    push_hex_fixed(&mut out, (u >> 80) & 0xFFFF, 4);
    out.append("-");
    push_hex_fixed(&mut out, (u >> 64) & 0xFFFF, 4);
    out.append("-");
    push_hex_fixed(&mut out, (u >> 48) & 0xFFFF, 4);
    out.append("-");
    push_hex_fixed(&mut out, u & 0xFFFFFFFFFFFF, 12);
    proof {
        assert(out@ =~= spec_uuid_hyphenated(u));
    }
    out
}

impl WingsClient {
    /// The path of the agent's create-server endpoint.
    pub fn servers_path() -> (r: String)
        ensures
            r@ == "/api/servers"@,
    {
        String::from_str("/api/servers")
    }

    /// The path of the agent's per-server endpoint for this server.
    pub fn servers_server_path(server: u128) -> (r: String)
        ensures
            r@ == spec_servers_server_path(server),
    {
        let mut out = String::from_str("/api/servers/");
        let rest = uuid_hyphenated(server);
        out.append(rest.as_str());
        out
    }

    /// The request address: the base address, stripped of trailing slashes,
    /// followed by the endpoint path.
    pub fn request_url(&self, endpoint: &str) -> (r: String)
        ensures
            r@ == spec_trim_trailing_slashes(self.spec_base_url()) + endpoint@,
    {
        let base = self.base_url();
        let mut n: usize = base.as_str().unicode_len();
        proof {
            assert(base@.take(base@.len() as int) =~= base@);
        }
        while n > 0 && base.as_str().get_char(n - 1) == '/'
            invariant
                n <= base@.len(),
                spec_trim_trailing_slashes(base@) == spec_trim_trailing_slashes(
                    base@.take(n as int),
                ),
            decreases n,
        {
            proof {
                assert(base@.take(n as int).drop_last() =~= base@.take(n - 1));
            }
            n -= 1;
        }
        proof {
            if n > 0 {
                assert(base@.take(n as int).last() != '/');
            }
            assert(spec_trim_trailing_slashes(base@.take(n as int)) == base@.take(n as int));
        }
        let mut out = base.as_str().substring_char(0, n).to_owned();
        out.append(endpoint);
        out
    }
}

} // verus!
