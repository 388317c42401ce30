//! Composite identifiers of stored entities.

use vstd::prelude::*;
use vstd::string::StringExecFns;

verus! {

/// The composite id `{prefix}_{external_id}`: a game's id is its source
/// followed by the source's game id (`"nba_stats_0022300001"`); a player's or
/// team's id is its league followed by the source's id (`"NBA_2544"`).
pub fn composite_id(prefix: &str, external_id: &str) -> (id: String)
    ensures
        id@ == prefix@ + "_"@ + external_id@,
{
    let mut id = prefix.to_owned();
    id.append("_");
    id.append(external_id);
    id
}

} // verus!
