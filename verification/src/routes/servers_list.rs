use vstd::prelude::*;

verus! {

/// The query parameters of the caller's server listing.
pub struct Params {
    pub page: i64,
    pub per_page: i64,
    pub search: Option<String>,
    pub other: bool,
}

/// The validation rule on the listing parameters: pagination bounds, and a
/// search term of one to one hundred characters when present.
pub open spec fn spec_params_valid(p: Params) -> bool {
    &&& 1 <= p.page
    &&& 1 <= p.per_page <= 100
    &&& match p.search.deep_view() {
        Some(s) => 1 <= s.len() <= 100,
        None => true,
    }
}

/// Which listing runs for the caller.
#[derive(PartialEq, Eq, Structural, Clone, Copy, Debug)]
pub enum ServersListSource {
    Own,
    Others,
}

/// Validates the parameters.
pub fn validate_params(p: &Params) -> (r: bool)
    ensures
        r == spec_params_valid(*p),
{
    if !(1 <= p.page && 1 <= p.per_page && p.per_page <= 100) {
        return false;
    }
    match &p.search {
        Some(s) => {
            let n = s.as_str().unicode_len();
            1 <= n && n <= 100
        },
        None => true,
    }
}

/// Which listing the request gets: the servers of others only when asked for
/// by an administrator, else the caller's own.
pub fn list_source(other: bool, admin: bool) -> (r: ServersListSource)
    ensures
        r == if other && admin {
            ServersListSource::Others
        } else {
            ServersListSource::Own
        },
{
    if other && admin {
        ServersListSource::Others
    } else {
        ServersListSource::Own
    }
}

} // verus!
