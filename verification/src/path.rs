//! Well-known paths of the application.

use vstd::prelude::*;
use vstd::string::StringExecFns;

verus! {

/// Directory, relative to the configuration root, where the settings file
/// lives.
pub fn config_path() -> (r: String)
    ensures
        r@ == "config/adsb//"@,
{
    let mut path = String::new();
    path.append("config/");
    path.append("adsb/");
    path.append("/");
    proof {
        reveal_strlit("config/");
        reveal_strlit("adsb/");
        reveal_strlit("/");
        reveal_strlit("config/adsb//");
        assert(path@ =~= "config/adsb//"@);
    }
    path
}

} // verus!
