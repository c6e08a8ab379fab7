//! The configuration manager's per-tick composition: once a source's text is
//! read and its imports applied, the configuration takes the source's cache
//! key as its id and the persisted selector overrides are reapplied.

use vstd::prelude::*;

use crate::config::Config;
use crate::select_map::{overridden_net, override_applies, SelectMap};
use crate::sources::{spec_cache_key, ImportSource};

verus! {

/// Finishes one configuration tick: the id becomes the source's cache key —
/// so an identical source keeps its persisted selector overrides — and each
/// override whose chosen child the reloaded list still holds is applied;
/// every other override is ignored and the declared selection stands.
pub fn finalize_config(config: Config, source: &ImportSource, overrides: &SelectMap) -> (r:
    Config)
    requires
        config.net.wf(),
        overrides.map.wf(),
    ensures
        r.net.wf(),
        r.id@ == spec_cache_key(*source),
        r.server == config.server,
        forall|k: Seq<char>|
            #[trigger] r.net.spec_get(k) == r.net.spec_get(k) && match overrides.map.spec_get(k) {
                None => r.net.spec_get(k) == config.net.spec_get(k),
                Some(chosen) => match config.net.spec_get(k) {
                    Some(d) => if override_applies(d, chosen@) {
                        r.net.spec_get(k) is Some && overridden_net(
                            d,
                            chosen@,
                            r.net.spec_get(k)->0,
                        )
                    } else {
                        r.net.spec_get(k) == config.net.spec_get(k)
                    },
                    None => r.net.spec_get(k) is None,
                },
            },
{
    let mut config = config;
    config.id = source.cache_key();
    overrides.apply_config(&mut config);
    config
}

} // verus!
