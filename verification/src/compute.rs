//! Compute-node upgrade helper: where the `pg_upgrade` binary stands
//! under a postgres installation's binary directory.

use vstd::prelude::*;
use vstd::string::StringExecFns;

verus! {

/// The path of the `pg_upgrade` binary under `pgbin`.
pub fn _upgrade(pgbin: &str, _pg_version: &str) -> (r: String)
    ensures
        r@ == pgbin@ + "/pg_upgrade"@,
{
    let mut r = String::from_str(pgbin);
    r.append("/pg_upgrade");
    r
}

} // verus!
