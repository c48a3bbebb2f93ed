use vstd::prelude::*;

use crate::server::{spec_denial_message, spec_is_ignored, Server};

verus! {

/// The query parameters of a directory listing.
pub struct Params {
    pub page: i64,
    pub per_page: i64,
    pub directory: String,
}

/// The validation rule on listing parameters: the page is at least one and
/// the page size between one and one hundred.
pub open spec fn spec_params_valid(page: i64, per_page: i64) -> bool {
    1 <= page && 1 <= per_page <= 100
}

/// How a listing request is disposed of before the agent is called.
pub enum FilesListGate {
    BadRequest,
    Unauthorized(String),
    NotFound,
    Proceed,
}

/// The checks in front of every remote file operation: parameter validation
/// first, then the capability check for reading files, then the visibility
/// filter on the requested directory; only then may the agent be called.
pub fn files_list_gate(server: &mut Server, params: &Params) -> (r: FilesListGate)
    requires
        old(server).matcher_wf(),
    ensures
        final(server).matcher_wf(),
        final(server)@.ignored_files == old(server)@.ignored_files,
        final(server)@.permissions == old(server)@.permissions,
        final(server)@.row == old(server)@.row,
        final(server)@.node == old(server)@.node,
        match r {
            FilesListGate::BadRequest => !spec_params_valid(params.page, params.per_page),
            FilesListGate::Unauthorized(e) => {
                &&& spec_params_valid(params.page, params.per_page)
                &&& old(server)@.permissions matches Some(l) && !l.contains("files.read"@)
                &&& e@ == spec_denial_message("files.read"@)
            },
            FilesListGate::NotFound => {
                &&& spec_params_valid(params.page, params.per_page)
                &&& match old(server)@.permissions {
                    Some(l) => l.contains("files.read"@),
                    None => true,
                }
                &&& spec_is_ignored(old(server)@.ignored_files, params.directory@, true)
            },
            FilesListGate::Proceed => {
                &&& spec_params_valid(params.page, params.per_page)
                &&& match old(server)@.permissions {
                    Some(l) => l.contains("files.read"@),
                    None => true,
                }
                &&& !spec_is_ignored(old(server)@.ignored_files, params.directory@, true)
            },
        },
{
    if !(1 <= params.page && 1 <= params.per_page && params.per_page <= 100) {
        return FilesListGate::BadRequest;
    }
    match server.has_permission("files.read") {
        Ok(()) => {},
        Err(error) => {
            return FilesListGate::Unauthorized(error);
        },
    }
    if server.is_ignored(params.directory.as_str(), true) {
        return FilesListGate::NotFound;
    }
    FilesListGate::Proceed
}

/// Wraps what the agent answered into one page of the caller's listing.
pub fn page_response<T>(total: u64, page: i64, per_page: i64, data: Vec<T>) -> (r:
    crate::model::Pagination<T>)
    requires
        total <= i64::MAX,
    ensures
        r.total == total,
        r.page == page,
        r.per_page == per_page,
        r.data == data,
{
    crate::model::Pagination { total: total as i64, per_page, page, data }
}

} // verus!
