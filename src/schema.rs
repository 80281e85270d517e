use vstd::prelude::*;

verus! {

/// The newest schema version; a store stamped with it needs no migration.
pub const LATEST_SCHEMA_VERSION: i32 = 1;

/// The schema versions to migrate to, in order, from the stamped version
/// `current`: every version above it up to the latest, none when it is
/// current already (or newer).
pub fn pending_migrations(current: i32) -> (r: Vec<i32>)
    ensures
        current >= LATEST_SCHEMA_VERSION ==> r@.len() == 0,
        current < LATEST_SCHEMA_VERSION ==> r@.len() == LATEST_SCHEMA_VERSION - current
            && forall|k: int| 0 <= k < r@.len() ==> #[trigger] r@[k] == current + 1 + k,
{
    let mut out: Vec<i32> = Vec::new();
    if current >= LATEST_SCHEMA_VERSION {
        return out;
    }
    let mut v: i32 = current;
    while v < LATEST_SCHEMA_VERSION
        invariant
            current <= v <= LATEST_SCHEMA_VERSION,
            out@.len() == v - current,
            forall|k: int| 0 <= k < out@.len() ==> #[trigger] out@[k] == current + 1 + k,
        decreases LATEST_SCHEMA_VERSION - v,
    {
        v = v + 1;
        out.push(v);
    }
    out
}

} // verus!
