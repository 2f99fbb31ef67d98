//! Configuration data as the engine consumes it.
//!
//! The two policy tables (`exclude_methods`, `try_next_upstream_on_errors`)
//! are association lists of `(key, flag)` pairs; a key belongs to the set
//! exactly when its first binding maps it to `true`. A missing table is the
//! empty set.

use vstd::prelude::*;

verus! {

/// One upstream JSON-RPC server: its URL, an optional rate-limit description
/// (`"<count>[K]/<n> <s|m|h>"`), and whether to wait on an exhausted quota
/// (`failover`, default `false`).
pub struct UpstreamConfig {
    pub http_url: String,
    pub rate_limit: Option<String>,
    pub failover: Option<bool>,
}

/// Where the proxy itself listens.
pub struct ServerConfig {
    pub host: String,
    pub port: u16,
}

/// Whether responses are cached, and which methods never are.
pub struct CacheConfig {
    pub enabled: bool,
    pub exclude_methods: Option<Vec<(String, bool)>>,
}

/// The whole engine configuration.
pub struct Config {
    pub server: ServerConfig,
    pub cache: CacheConfig,
    pub upstreams: Vec<UpstreamConfig>,
    pub try_next_upstream_on_errors: Option<Vec<(String, bool)>>,
}

/// The first binding of `key` in the table at or after position `i`.
pub open spec fn spec_table_lookup_from(t: Seq<(String, bool)>, key: Seq<char>, i: int) -> Option<
    bool,
>
    decreases t.len() - i,
{
    if i < 0 || i >= t.len() {
        None
    } else if t[i].0@ == key {
        Some(t[i].1)
    } else {
        spec_table_lookup_from(t, key, i + 1)
    }
}

/// The first binding of `key` in the table.
pub open spec fn spec_table_lookup(t: Seq<(String, bool)>, key: Seq<char>) -> Option<bool> {
    spec_table_lookup_from(t, key, 0)
}

/// Membership of `key` in the set that an optional table denotes: present
/// and first bound to `true`.
pub open spec fn spec_set_member(t: Option<Vec<(String, bool)>>, key: Seq<char>) -> bool {
    match t {
        None => false,
        Some(v) => spec_table_lookup(v@, key) == Some(true),
    }
}

/// Whether `key` is in the set that the optional table denotes.
pub fn set_member(t: &Option<Vec<(String, bool)>>, key: &String) -> (r: bool)
    ensures
        r == spec_set_member(*t, key@),
{
    match t {
        None => false,
        Some(v) => {
            let mut i: usize = 0;
            while i < v.len()
                invariant
                    *t is Some,
                    (*t)->Some_0 == *v,
                    i <= v.len(),
                    spec_table_lookup(v@, key@) == spec_table_lookup_from(v@, key@, i as int),
                decreases v.len() - i,
            {
                proof {
                    assert(spec_table_lookup(v@, key@) == spec_table_lookup_from(v@, key@,
                        i as int));
                }
                if v[i].0 == *key {
                    let b = v[i].1;
                    proof {
                        assert(spec_table_lookup_from(v@, key@, i as int) == Some(v@[i as int].1));
                        assert(spec_table_lookup(v@, key@) == Some(b));
                        assert(spec_set_member(*t, key@) == (spec_table_lookup(v@, key@) == Some(
                            true)));
                        assert(spec_set_member(*t, key@) == (Some(b) == Some(true)));
                        assert(b == (Some(b) == Some(true))) by {
                            if b {
                                assert(Some(b) == Some(true));
                            } else {
                                assert(Some(b) != Some(true));
                            }
                        }
                    }
                    return b;
                }
                proof {
                    assert(spec_table_lookup_from(v@, key@, i as int) == spec_table_lookup_from(
                        v@, key@, i + 1));
                }
                i = i + 1;
            }
            false
        },
    }
}

} // verus!
