use vstd::prelude::*;
use crate::error::Error;
use crate::text::string_view;

verus! {

/// The name of the directory that holds a tracker.
pub const SKIS_DIR: &'static str = ".skis";

/// The parent of a path as `std::path::Path::parent` gives it; none for a
/// root or an empty path.
pub uninterp spec fn parent_of(p: Seq<char>) -> Option<Seq<char>>;

/// A path with a name joined to it, as `std::path::Path::join` gives it.
pub uninterp spec fn joined(p: Seq<char>, name: Seq<char>) -> Seq<char>;

/// The path `n` levels up from `p`, if there are that many.
pub open spec fn ancestor(p: Seq<char>, n: nat) -> Option<Seq<char>>
    decreases n,
{
    if n == 0 {
        Some(p)
    } else {
        match ancestor(p, (n - 1) as nat) {
            Some(q) => parent_of(q),
            None => None,
        }
    }
}

/// Relies on `std::path::Path::parent`: the result depends on the path's
/// text alone, and it is the path without its final component, a proper
/// prefix of it (so shorter, and UTF-8 when the path is).
#[verifier::external_body]
fn parent_path(p: &str) -> (r: Option<String>)
    ensures
        string_view(r) == parent_of(p@),
        r matches Some(q) ==> q@.len() < p@.len(),
{
    match std::path::Path::new(p).parent() {
        Some(q) => Some(q.to_string_lossy().into_owned()),
        None => None,
    }
}

/// Relies on `std::path::Path::join`: the result depends on the two texts
/// alone, and joining UTF-8 paths gives UTF-8.
#[verifier::external_body]
fn join_path(p: &str, name: &str) -> (r: String)
    ensures
        r@ == joined(p@, name@),
{
    std::path::Path::new(p).join(name).to_string_lossy().into_owned()
}

/// Relies on `std::path::Path::is_dir`: whether a directory stands at the
/// path now, which depends on the disk, so nothing is promised of it.
#[verifier::external_body]
fn is_dir(p: &str) -> (r: bool) {
    std::path::Path::new(p).is_dir()
}

/// `c` lists the tracker directories to look for from `start`: that of
/// `start` first, then that of each directory above it, up to the last one
/// that has no parent.
pub open spec fn is_candidate_list(start: Seq<char>, c: Seq<Seq<char>>) -> bool {
    &&& forall|k: int| 0 <= k < c.len() ==> (#[trigger] ancestor(start, k as nat) matches Some(q) && c[k] == joined(q, SKIS_DIR@))
    &&& ancestor(start, c.len()) is None
}

/// What the lookup answers, given which candidates exist as directories:
/// the first (nearest) one that does, or `NotARepository` when none does.
pub open spec fn first_found_result(c: Seq<Seq<char>>, found: Seq<bool>, r: Result<String, Error>) -> bool {
    if exists|k: int| 0 <= k < found.len() && #[trigger] found[k] {
        exists|k: int|
            0 <= k < found.len() && #[trigger] found[k] && (forall|j: int| 0 <= j < k ==> !found[j])
                && (r matches Ok(d) && d@ == c[k])
    } else {
        r == Err::<String, Error>(Error::NotARepository)
    }
}

pub open spec fn texts(v: Seq<String>) -> Seq<Seq<char>> {
    v.map_values(|s: String| s@)
}

/// The tracker directories to look for from `start`, nearest first (see
/// `is_candidate_list`).
pub fn skis_candidates(start: &str) -> (r: Vec<String>)
    ensures
        is_candidate_list(start@, texts(r@)),
{
    let mut out: Vec<String> = Vec::new();
    let mut current = start.to_owned();
    let ghost mut n: nat = 0;
    loop
        invariant
            ancestor(start@, n) == Some(current@),
            out@.len() == n,
            forall|k: int| 0 <= k < n ==> (#[trigger] ancestor(start@, k as nat) matches Some(q) && out@[k]@ == joined(q, SKIS_DIR@)),
        decreases current@.len(),
    {
        out.push(join_path(current.as_str(), SKIS_DIR));
        match parent_path(current.as_str()) {
            Some(p) => {
                proof {
                    n = n + 1;
                }
                current = p;
            },
            None => {
                proof {
                    assert(ancestor(start@, n + 1) is None);
                    assert forall|k: int| 0 <= k < texts(out@).len() implies (#[trigger] ancestor(start@, k as nat) matches Some(q) && texts(out@)[k] == joined(q, SKIS_DIR@)) by {
                        assert(texts(out@)[k] == out@[k]@);
                    }
                }
                return out;
            },
        }
    }
}

/// The first candidate that was found, or `NotARepository` when none was.
pub fn first_found(candidates: &Vec<String>, found: &Vec<bool>) -> (r: Result<String, Error>)
    requires
        candidates@.len() == found@.len(),
    ensures
        first_found_result(texts(candidates@), found@, r),
{
    let mut k: usize = 0;
    while k < found.len()
        invariant
            candidates@.len() == found@.len(),
            0 <= k <= found@.len(),
            forall|j: int| 0 <= j < k ==> !found@[j],
        decreases found@.len() - k,
    {
        if found[k] {
            let d = candidates[k].clone();
            proof {
                assert(texts(candidates@)[k as int] == candidates@[k as int]@);
                assert(found@[k as int]);
            }
            return Ok(d);
        }
        k = k + 1;
    }
    Err(Error::NotARepository)
}

/// Looks for a tracker directory at `start` and then in each directory
/// above it: asks of every candidate whether it is a directory, and
/// answers with the nearest one that is, or `NotARepository`.
pub fn find_skis_dir_from(start: &str) -> (r: Result<String, Error>)
    ensures
        exists|c: Seq<Seq<char>>, found: Seq<bool>|
            is_candidate_list(start@, c) && found.len() == c.len() && first_found_result(c, found, r),
{
    let candidates = skis_candidates(start);
    let mut found: Vec<bool> = Vec::new();
    let mut k: usize = 0;
    while k < candidates.len()
        invariant
            0 <= k <= candidates@.len(),
            found@.len() == k,
        decreases candidates@.len() - k,
    {
        found.push(is_dir(candidates[k].as_str()));
        k = k + 1;
    }
    let r = first_found(&candidates, &found);
    assert(is_candidate_list(start@, texts(candidates@)) && found@.len() == texts(candidates@).len()
        && first_found_result(texts(candidates@), found@, r));
    r
}

} // verus!
