//! Decisions of the local web server: when to reload the page, which headers
//! keep browsers from caching it, and where to listen.
use vstd::prelude::*;

use rand::RngExt;

use crate::path::{path_eq, paths_equal};

verus! {

/// The port tried first.
pub const DEFAULT_PORT: u16 = 8080;

/// A port drawn at random from `1025..=65535`: calls `rand::rng()` and
/// `RngExt::random_range(1025..=65535)`, which rand documents as giving a
/// value in that range. Which value it gives is left unsaid.
#[verifier::external_body]
fn random_port() -> (p: u16)
    ensures
        1025 <= p,
{
    rand::rng().random_range(1025..=65535u16)
}

/// The port to try after the default one could not be bound: one drawn at
/// random from the unprivileged ports.
pub fn fallback_port() -> (p: u16)
    ensures
        1025 <= p <= 65535,
{
    random_port()
}

/// Whether the page is reloaded after a file event: only when a file was
/// closed after writing and one of the event's paths is the built HTML page,
/// the paths compared as `std::path::Path` compares them.
pub fn should_reload(closed_after_write: bool, paths: &Vec<String>, output_path: &String) -> (r:
    bool)
    ensures
        r == (closed_after_write && exists|i: int|
            0 <= i < paths@.len() && path_eq(paths@[i]@, output_path@)),
{
    if !closed_after_write {
        return false;
    }
    let n = paths.len();
    for i in 0..n
        invariant
            n == paths@.len(),
            closed_after_write,
            forall|j: int| 0 <= j < i ==> !path_eq(paths@[j]@, output_path@),
    {
        if paths_equal(paths[i].as_str(), output_path.as_str()) {
            assert(path_eq(paths@[i as int]@, output_path@));
            return true;
        }
    }
    false
}

/// The response headers that keep browsers from caching the served pages,
/// as (name, value) pairs.
pub fn no_cache_headers() -> (r: Vec<(String, String)>)
    ensures
        r@.map_values(|h: (String, String)| (h.0@, h.1@)) == seq![
            ("cache-control"@, "no-cache, no-store, must-revalidate"@),
            ("pragma"@, "no-cache"@),
            ("expires"@, "0"@),
        ],
{
    let mut r: Vec<(String, String)> = Vec::new();
    r.push(
        (String::from_str("cache-control"), String::from_str("no-cache, no-store, must-revalidate")),
    );
    r.push((String::from_str("pragma"), String::from_str("no-cache")));
    r.push((String::from_str("expires"), String::from_str("0")));
    assert(r@.map_values(|h: (String, String)| (h.0@, h.1@)) =~= seq![
        ("cache-control"@, "no-cache, no-store, must-revalidate"@),
        ("pragma"@, "no-cache"@),
        ("expires"@, "0"@),
    ]);
    r
}

} // verus!
