//! Converting a legacy `kosei.config.json` into `kosei.yaml`.

use crate::config::loader::{first_present, locate_upwards};
use crate::error::KoseiError;
use vstd::prelude::*;

verus! {

/// Finds `kosei.config.json` in the nearest of the directories from the
/// start up to the root; `present[i]` tells whether it exists in the `i`-th.
pub fn find_json_config(present: &Vec<bool>) -> (res: Result<usize, KoseiError>)
    ensures
        match first_present(present@) {
            Some(i) => res == Ok::<usize, KoseiError>(i as usize),
            None => res matches Err(KoseiError::ConfigNotFound(m)) && m@
                == "Could not find kosei.config.json in any parent directory"@,
        },
{
    let res = locate_upwards(present, "kosei.config.json");
    proof {
        reveal_strlit("kosei.config.json");
        reveal_strlit("Could not find ");
        reveal_strlit(" in any parent directory");
        reveal_strlit("Could not find kosei.config.json in any parent directory");
    }
    res
}

} // verus!
