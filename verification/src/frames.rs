//! Decisions behind the viewer's frame controls.

use vstd::prelude::*;

use crate::kv::{KVStore, KVValue};
use crate::memory::{CenterMode, MapMemory};

verus! {

/// Whether the "go to my position" action should be offered: only when the
/// view was dragged away from the position feed.
pub fn can_go_to_my_position(map_memory: &MapMemory) -> (r: bool)
    ensures
        r == (map_memory.center_mode matches CenterMode::Detached(_)),
{
    match map_memory.center_mode {
        CenterMode::Detached(_) => true,
        CenterMode::Following => false,
    }
}

/// Flip the stored visibility of the map-controls window; an absent or
/// non-boolean setting counts as closed.
pub fn toggle_map_controls_open(store: &mut KVStore)
    requires
        old(store).wf(),
    ensures
        final(store).wf(),
        final(store).spec_value("viewer.windows.map_controls_open"@) == Some(
            KVValue::Boolean(
                !(match old(store).spec_value("viewer.windows.map_controls_open"@) {
                    Some(KVValue::Boolean(b)) => b,
                    _ => false,
                }),
            ),
        ),
        forall|u: Seq<char>|
            u != "viewer.windows.map_controls_open"@ ==> final(store).spec_value(u) == old(
                store,
            ).spec_value(u),
{
    let open = store.get_as_bool_or_default("viewer.windows.map_controls_open", false);
    store.set("viewer.windows.map_controls_open", KVValue::Boolean(!open));
}

} // verus!
