//! GambleGuard core: blocklist normalization and managed-block patching
//! for the system hosts file.
//!
//! The library works on plain values: the raw blocklist text and the hosts
//! file content (as a sequence of lines) come in, the new content goes out.
//! Reading and writing the actual files, the network fetch and the process
//! plumbing live outside the library.

pub mod blocklist;
pub mod hosts_modifier;
pub mod laws;
pub mod updater;

pub use blocklist::parse_blocklist;

use vstd::prelude::*;
use crate::blocklist::spec_parse;
use crate::hosts_modifier::{apply_blocklist, spec_apply};
use crate::updater::{fetch_from_sources, spec_normalize, FetchError};

verus! {

/// One refresh cycle on plain values: resolves the fetch from the two
/// source outcomes, normalizes and filters the entries, and patches the
/// hosts content with a fresh managed block for exactly those domains.
/// When both sources failed, the cycle is skipped and the error says why;
/// the hosts content is untouched.
pub fn apply_latest_blocklist(
    remote: Option<String>,
    fallback: Result<String, String>,
    hosts: &Vec<String>,
) -> (r: Result<Vec<String>, FetchError>)
    ensures
        remote matches Some(t) ==> (r matches Ok(h) && h.deep_view() == spec_apply(
            spec_parse(spec_normalize(t@)),
            hosts.deep_view(),
        )),
        remote is None ==> (fallback matches Ok(t) ==> (r matches Ok(h) && h.deep_view()
            == spec_apply(spec_parse(spec_normalize(t@)), hosts.deep_view()))),
        remote is None ==> (fallback matches Err(m) ==> (r matches Err(e) && e.message@ == m@)),
{
    match fetch_from_sources(remote, fallback) {
        Result::Ok(raw) => {
            let parsed = parse_blocklist(&raw);
            Result::Ok(apply_blocklist(&parsed, hosts))
        },
        Result::Err(e) => Result::Err(e),
    }
}

} // verus!
