//! The per-request dispatch state machine.
//!
//! A dispatch starts with a cache classification; a permitted hit is served
//! at once. Otherwise upstreams are tried in configured order. Each try is
//! gated by that upstream's rate limiter (skip on denial, or wait when the
//! upstream is marked failover), and each upstream outcome is classified:
//! transport errors, null results and retryable errors continue with the
//! next upstream; anything else is returned verbatim. The first clean
//! success populates the cache when caching is permitted. An exhausted list
//! yields the synthesized error.
//!
//! The machine itself performs no I/O: it hands out an [`Action`], and the
//! surrounding runtime feeds the outcome back as an [`Event`].

use vstd::prelude::*;
use crate::cache::ResponseCache;
use vstd::std_specs::vec::spec_vec_len;
use crate::config::{Config, spec_set_member, set_member};
use crate::json::{JsonValue, spec_ser, clone_value};
use crate::ratelimit::{RateLimitPolicy, parse_rate_limit, spec_limiter_of};
use crate::rpc::{JsonRpcRequest, JsonRpcResponse, spec_fingerprint, fingerprint};

verus! {


/// The TTL every cache entry lives for: one year.
pub const DEFAULT_TTL_SECS: u64 = 3600 * 24 * 365;

/// The cache's entry cap.
pub const DEFAULT_CACHE_CAP: usize = 1000000;

/// One upstream as the engine sees it: its URL, its parsed rate-limit
/// policy when one is configured, and its failover flag.
pub struct UpstreamPolicy {
    pub http_url: String,
    pub limiter: Option<RateLimitPolicy>,
    pub failover: bool,
}

/// The dispatch engine: the immutable policy tables and upstream list, and
/// the shared response cache.
pub struct Engine {
    pub cache_enabled: bool,
    pub exclude_methods: Option<Vec<(String, bool)>>,
    pub try_next_upstream_on_errors: Option<Vec<(String, bool)>>,
    pub upstreams: Vec<UpstreamPolicy>,
    pub cache: ResponseCache,
}

/// What the machine is waiting for.
pub enum Pending {
    Limiter,
    Wait,
    Call,
}

/// The state of one dispatch between two events.
pub struct DispatchState {
    pub req: JsonRpcRequest,
    pub cache_permitted: bool,
    pub current: usize,
    pub pending: Pending,
}

/// What an upstream call came back with: a transport failure (network
/// error, non-2xx status, or an unparseable body), or a parsed response.
pub enum UpstreamOutcome {
    TransportError,
    Response(JsonRpcResponse),
}

/// What the runtime reports back to the machine.
pub enum Event {
    LimiterAllowed,
    LimiterDenied,
    LimiterWaited,
    Outcome(UpstreamOutcome),
}

/// What the machine asks the runtime to do next. The last three are
/// terminal: serve the cached value under the request's id, relay the
/// upstream response verbatim, or emit the synthesized exhaustion error.
pub enum Action {
    CheckLimiter(usize),
    WaitLimiter(usize),
    CallUpstream(usize),
    ServeCached(JsonValue),
    ReturnUpstream(JsonRpcResponse),
    Exhausted,
}

impl Action {
    /// Whether the dispatch is over.
    pub open spec fn is_terminal(self) -> bool {
        self is ServeCached || self is ReturnUpstream || self is Exhausted
    }
}

/// Caching applies exactly when it is enabled and the method is not
/// excluded.
pub open spec fn spec_permitted(e: Engine, method: Seq<char>) -> bool {
    e.cache_enabled && !spec_set_member(e.exclude_methods, method)
}

/// Entering upstream `j`: consult its limiter first when it has one, call
/// it directly otherwise; past the end of the list the dispatch is
/// exhausted.
pub open spec fn spec_enter(e: Engine, req: JsonRpcRequest, permitted: bool, j: int) -> (
    DispatchState,
    Action,
) {
    if j >= e.upstreams@.len() {
        (
            DispatchState {
                req,
                cache_permitted: permitted,
                current: e.upstreams@.len() as usize,
                pending: Pending::Call,
            },
            Action::Exhausted,
        )
    } else if e.upstreams@[j].limiter is Some {
        (
            DispatchState {
                req,
                cache_permitted: permitted,
                current: j as usize,
                pending: Pending::Limiter,
            },
            Action::CheckLimiter(j as usize),
        )
    } else {
        (
            DispatchState {
                req,
                cache_permitted: permitted,
                current: j as usize,
                pending: Pending::Call,
            },
            Action::CallUpstream(j as usize),
        )
    }
}

/// Where a dispatch begins when it is not served from the cache.
pub open spec fn spec_start(e: Engine, req: JsonRpcRequest) -> (DispatchState, Action) {
    spec_enter(e, req, spec_permitted(e, req.method@), 0)
}

/// A state the machine can actually be in between events.
pub open spec fn spec_state_ok(e: Engine, st: DispatchState) -> bool {
    &&& st.current < e.upstreams@.len()
    &&& st.cache_permitted == spec_permitted(e, st.req.method@)
    &&& (st.pending is Limiter ==> e.upstreams@[st.current as int].limiter is Some)
    &&& (st.pending is Wait ==> e.upstreams@[st.current as int].limiter is Some)
}

/// Which events answer which pending action.
pub open spec fn spec_event_fits(st: DispatchState, ev: Event) -> bool {
    match (st.pending, ev) {
        (Pending::Limiter, Event::LimiterAllowed) => true,
        (Pending::Limiter, Event::LimiterDenied) => true,
        (Pending::Wait, Event::LimiterWaited) => true,
        (Pending::Call, Event::Outcome(o)) => true,
        _ => false,
    }
}

/// The transition function: next state and next action, as a pure function
/// of the configuration, the state, and the event. The cache plays no part
/// in it.
pub open spec fn spec_step_ctl(e: Engine, st: DispatchState, ev: Event) -> (
    DispatchState,
    Action,
) {
    match (st.pending, ev) {
        (Pending::Limiter, Event::LimiterAllowed) => (
            DispatchState { pending: Pending::Call, ..st },
            Action::CallUpstream(st.current),
        ),
        (Pending::Limiter, Event::LimiterDenied) => {
            if e.upstreams@[st.current as int].failover {
                (DispatchState { pending: Pending::Wait, ..st }, Action::WaitLimiter(st.current))
            } else {
                spec_enter(e, st.req, st.cache_permitted, st.current + 1)
            }
        },
        (Pending::Wait, Event::LimiterWaited) => (
            DispatchState { pending: Pending::Call, ..st },
            Action::CallUpstream(st.current),
        ),
        (Pending::Call, Event::Outcome(o)) => match o {
            UpstreamOutcome::TransportError => spec_enter(
                e,
                st.req,
                st.cache_permitted,
                st.current + 1,
            ),
            UpstreamOutcome::Response(res) => {
                if res.error is Some {
                    if spec_set_member(
                        e.try_next_upstream_on_errors,
                        res.error->Some_0.message@,
                    ) {
                        spec_enter(e, st.req, st.cache_permitted, st.current + 1)
                    } else {
                        (st, Action::ReturnUpstream(res))
                    }
                } else if res.result is None {
                    spec_enter(e, st.req, st.cache_permitted, st.current + 1)
                } else {
                    (st, Action::ReturnUpstream(res))
                }
            },
        },
        _ => (st, Action::Exhausted),
    }
}

/// The one step that writes the cache: a clean success while caching is
/// permitted.
pub open spec fn spec_writes(st: DispatchState, ev: Event) -> bool {
    &&& st.pending is Call
    &&& st.cache_permitted
    &&& ev matches Event::Outcome(UpstreamOutcome::Response(res))
    &&& ev->Outcome_0->Response_0.error is None
    &&& ev->Outcome_0->Response_0.result is Some
}

impl Engine {
    /// The engine's invariant: a well-formed cache.
    pub open spec fn wf(self) -> bool {
        self.cache.wf()
    }


    /// Builds an engine from a configuration: policy tables taken as they
    /// are, each upstream's rate-limit description parsed (an unparseable
    /// one leaves that upstream unlimited), and an empty cache with the
    /// given TTL and capacity.
    pub fn with_limits(config: Config, ttl: u64, cap: usize) -> (r: Engine)
        requires
            cap >= 1,
        ensures
            r.wf(),
            r.cache_enabled == config.cache.enabled,
            r.exclude_methods == config.cache.exclude_methods,
            r.try_next_upstream_on_errors == config.try_next_upstream_on_errors,
            r.upstreams@.len() == config.upstreams@.len(),
            forall|i: int|
                0 <= i < config.upstreams@.len() ==> (#[trigger] r.upstreams@[i]).http_url@
                    == config.upstreams@[i].http_url@ && r.upstreams@[i].failover == (
                config.upstreams@[i].failover == Some(true)) && r.upstreams@[i].limiter
                    == spec_limiter_of(config.upstreams@[i].rate_limit),
            r.cache.ttl == ttl,
            r.cache.cap == cap,
            r.cache.entries@.len() == 0,
    {
        let mut ups: Vec<UpstreamPolicy> = Vec::new();
        let n = config.upstreams.len();
        let mut i: usize = 0;
        while i < n
            invariant
                n == config.upstreams@.len(),
                i <= n,
                ups@.len() == i,
                forall|k: int|
                    0 <= k < i ==> (#[trigger] ups@[k]).http_url@
                        == config.upstreams@[k].http_url@ && ups@[k].failover == (
                    config.upstreams@[k].failover == Some(true)) && ups@[k].limiter
                        == spec_limiter_of(config.upstreams@[k].rate_limit),
            decreases n - i,
        {
            let u = &config.upstreams[i];
            let limiter = match &u.rate_limit {
                None => None,
                Some(s) => parse_rate_limit(s),
            };
            proof {
                assert(limiter == spec_limiter_of(u.rate_limit));
            }
            let failover = match u.failover {
                Some(true) => true,
                _ => false,
            };
            proof {
                assert(failover == (u.failover == Some(true)));
            }
            ups.push(UpstreamPolicy { http_url: u.http_url.clone(), limiter, failover });
            i = i + 1;
        }
        Engine {
            cache_enabled: config.cache.enabled,
            exclude_methods: config.cache.exclude_methods,
            try_next_upstream_on_errors: config.try_next_upstream_on_errors,
            upstreams: ups,
            cache: ResponseCache::new(ttl, cap),
        }
    }

    /// Builds an engine with the default cache TTL and capacity.
    pub fn new(config: Config) -> (r: Engine)
        ensures
            r.wf(),
            r.cache_enabled == config.cache.enabled,
            r.exclude_methods == config.cache.exclude_methods,
            r.try_next_upstream_on_errors == config.try_next_upstream_on_errors,
            r.upstreams@.len() == config.upstreams@.len(),
            forall|i: int|
                0 <= i < config.upstreams@.len() ==> (#[trigger] r.upstreams@[i]).http_url@
                    == config.upstreams@[i].http_url@ && r.upstreams@[i].failover == (
                config.upstreams@[i].failover == Some(true)) && r.upstreams@[i].limiter
                    == spec_limiter_of(config.upstreams@[i].rate_limit),
            r.cache.ttl == DEFAULT_TTL_SECS,
            r.cache.cap == DEFAULT_CACHE_CAP,
            r.cache.entries@.len() == 0,
    {
        Self::with_limits(config, DEFAULT_TTL_SECS, DEFAULT_CACHE_CAP)
    }

    /// Enters upstream `j`, or reports exhaustion past the end.
    fn enter(&self, req: JsonRpcRequest, permitted: bool, j: usize) -> (r: (
        DispatchState,
        Action,
    ))
        requires
            j <= self.upstreams@.len(),
        ensures
            r == spec_enter(*self, req, permitted, j as int),
    {
        if j >= self.upstreams.len() {
            (
                DispatchState {
                    req,
                    cache_permitted: permitted,
                    current: self.upstreams.len(),
                    pending: Pending::Call,
                },
                Action::Exhausted,
            )
        } else if self.upstreams[j].limiter.is_some() {
            (
                DispatchState { req, cache_permitted: permitted, current: j, pending: Pending::Limiter },
                Action::CheckLimiter(j),
            )
        } else {
            (
                DispatchState { req, cache_permitted: permitted, current: j, pending: Pending::Call },
                Action::CallUpstream(j),
            )
        }
    }

    /// Begins a dispatch: classifies the request against the cache and
    /// either serves a permitted fresh hit at once or enters the first
    /// upstream. The cache decides the outcome only when caching is
    /// permitted for this request.
    pub fn dispatch_init(&self, req: JsonRpcRequest, now: u64) -> (r: (DispatchState, Action))
        ensures
            (spec_permitted(*self, req.method@) && self.cache.spec_get(
                spec_fingerprint(req),
                now,
            ) is Some) ==> (r.1 is ServeCached && spec_ser(r.1->ServeCached_0) == spec_ser(
                self.cache.spec_get(spec_fingerprint(req), now)->Some_0,
            )),
            !(spec_permitted(*self, req.method@) && self.cache.spec_get(
                spec_fingerprint(req),
                now,
            ) is Some) ==> r == spec_start(*self, req),
            !r.1.is_terminal() ==> spec_state_ok(*self, r.0),
    {
        let permitted = self.cache_enabled && !set_member(&self.exclude_methods, &req.method);
        if permitted {
            let fp = fingerprint(&req);
            let hit = self.cache.get(&fp, now);
            match hit {
                Some(v) => {
                    return (
                        DispatchState {
                            req,
                            cache_permitted: permitted,
                            current: 0,
                            pending: Pending::Call,
                        },
                        Action::ServeCached(v),
                    );
                },
                None => {},
            }
        }
        self.enter(req, permitted, 0)
    }

    /// One transition of the machine. The control outcome is exactly
    /// `spec_step_ctl`; the cache changes only on a permitted clean
    /// success, which it then serves back while the entry is fresh and
    /// there was room.
    pub fn dispatch_step(&mut self, st: DispatchState, ev: Event, now: u64) -> (r: (
        DispatchState,
        Action,
    ))
        requires
            old(self).wf(),
            spec_state_ok(*old(self), st),
            spec_event_fits(st, ev),
        ensures
            final(self).wf(),
            r == spec_step_ctl(*old(self), st, ev),
            final(self).cache_enabled == old(self).cache_enabled,
            final(self).exclude_methods == old(self).exclude_methods,
            final(self).try_next_upstream_on_errors == old(self).try_next_upstream_on_errors,
            final(self).upstreams == old(self).upstreams,
            !spec_writes(st, ev) ==> *final(self) == *old(self),
            spec_writes(st, ev) ==> final(self).cache.ttl == old(self).cache.ttl
                && final(self).cache.cap == old(self).cache.cap,
            (spec_writes(st, ev) && old(self).cache.entries@.len() < old(self).cache.cap) ==> (
            final(self).cache.spec_get(spec_fingerprint(st.req), now) is Some && spec_ser(
                final(self).cache.spec_get(spec_fingerprint(st.req), now)->Some_0,
            ) == spec_ser(ev->Outcome_0->Response_0.result->Some_0)),
            !r.1.is_terminal() ==> spec_state_ok(*final(self), r.0),
    {
        let ghost e0 = *old(self);
        let DispatchState { req, cache_permitted, current, pending } = st;
        match pending {
            Pending::Limiter => match ev {
                Event::LimiterAllowed => (
                    DispatchState { req, cache_permitted, current, pending: Pending::Call },
                    Action::CallUpstream(current),
                ),
                Event::LimiterDenied => {
                    let n = self.upstreams.len();
                    proof {
                        assert(current < n);
                    }
                    if self.upstreams[current].failover {
                        (
                            DispatchState { req, cache_permitted, current, pending: Pending::Wait },
                            Action::WaitLimiter(current),
                        )
                    } else {
                        self.enter(req, cache_permitted, current + 1)
                    }
                },
                _ => {
                    proof {
                        assert(false);
                    }
                    (
                        DispatchState { req, cache_permitted, current, pending: Pending::Call },
                        Action::Exhausted,
                    )
                },
            },
            Pending::Wait => match ev {
                Event::LimiterWaited => (
                    DispatchState { req, cache_permitted, current, pending: Pending::Call },
                    Action::CallUpstream(current),
                ),
                _ => {
                    proof {
                        assert(false);
                    }
                    (
                        DispatchState { req, cache_permitted, current, pending: Pending::Call },
                        Action::Exhausted,
                    )
                },
            },
            Pending::Call => match ev {
                Event::Outcome(o) => match o {
                    UpstreamOutcome::TransportError => {
                        let n = self.upstreams.len();
                        proof {
                            assert(current < n);
                        }
                        self.enter(req, cache_permitted, current + 1)
                    },
                    UpstreamOutcome::Response(res) => {
                        let n = self.upstreams.len();
                        proof {
                            assert(current < n);
                        }
                        let retry = match &res.error {
                            Some(err) => set_member(
                                &self.try_next_upstream_on_errors,
                                &err.message,
                            ),
                            None => false,
                        };
                        if res.error.is_some() {
                            if retry {
                                self.enter(req, cache_permitted, current + 1)
                            } else {
                                (
                                    DispatchState {
                                        req,
                                        cache_permitted,
                                        current,
                                        pending: Pending::Call,
                                    },
                                    Action::ReturnUpstream(res),
                                )
                            }
                        } else {
                            let is_null = match &res.result {
                                None => true,
                                Some(v) => false,
                            };
                            if is_null {
                                self.enter(req, cache_permitted, current + 1)
                            } else {
                                if cache_permitted {
                                    let fp = fingerprint(&req);
                                    let copy = match &res.result {
                                        Some(v) => clone_value(v),
                                        None => JsonValue::Null,
                                    };
                                    self.cache.put(fp, copy, now);
                                }
                                (
                                    DispatchState {
                                        req,
                                        cache_permitted,
                                        current,
                                        pending: Pending::Call,
                                    },
                                    Action::ReturnUpstream(res),
                                )
                            }
                        }
                    },
                },
                _ => {
                    proof {
                        assert(false);
                    }
                    (
                        DispatchState { req, cache_permitted, current, pending: Pending::Call },
                        Action::Exhausted,
                    )
                },
            },
        }
    }
}

/// A whole run of the machine over a sequence of events: the terminal
/// action it reaches, with how many events it consumed, or nothing when
/// the events run out first.
pub open spec fn spec_run(e: Engine, st: DispatchState, evs: Seq<Event>) -> Option<(Action, int)>
    decreases evs.len(),
{
    if evs.len() == 0 {
        None
    } else {
        let (st2, a) = spec_step_ctl(e, st, evs[0]);
        if a.is_terminal() {
            Some((a, 1))
        } else {
            match spec_run(e, st2, evs.drop_first()) {
                None => None,
                Some((a2, n)) => Some((a2, n + 1)),
            }
        }
    }
}

/// Law: when caching is not permitted for a request, the dispatch neither
/// reads nor depends on the cache. Two engines with the same configuration
/// and arbitrary caches start a dispatch identically, and every transition
/// is likewise cache-independent.
pub proof fn lemma_no_cache_influence(
    e1: Engine,
    e2: Engine,
    req: JsonRpcRequest,
    st: DispatchState,
    ev: Event,
)
    requires
        e1.cache_enabled == e2.cache_enabled,
        e1.exclude_methods == e2.exclude_methods,
        e1.try_next_upstream_on_errors == e2.try_next_upstream_on_errors,
        e1.upstreams == e2.upstreams,
        !spec_permitted(e1, req.method@),
    ensures
        spec_start(e1, req) == spec_start(e2, req),
        spec_step_ctl(e1, st, ev) == spec_step_ctl(e2, st, ev),
{
}

/// Law: a success returned by a run came from exactly one upstream call:
/// the last event the run consumed is that upstream's clean response, and
/// the run relays it verbatim.
pub proof fn lemma_success_from_last_outcome(
    e: Engine,
    st: DispatchState,
    evs: Seq<Event>,
    r: JsonRpcResponse,
    n: int,
)
    requires
        spec_run(e, st, evs) == Some((Action::ReturnUpstream(r), n)),
        r.error is None,
    ensures
        1 <= n <= evs.len(),
        evs[n - 1] == Event::Outcome(UpstreamOutcome::Response(r)),
        r.result is Some,
    decreases evs.len(),
{
    if evs.len() > 0 {
        let (st2, a) = spec_step_ctl(e, st, evs[0]);
        if a.is_terminal() {
            assert(a == Action::ReturnUpstream(r));
        } else {
            lemma_success_from_last_outcome(e, st2, evs.drop_first(), r, n - 1);
            assert(evs.drop_first()[n - 2] == evs[n - 1]);
        }
    }
}

/// Law: a denied limiter on a non-failover upstream skips it — the next
/// action is never a call to that upstream, and the machine moves past it.
pub proof fn lemma_denied_skips(e: Engine, st: DispatchState)
    requires
        spec_state_ok(e, st),
        st.pending is Limiter,
        !e.upstreams@[st.current as int].failover,
    ensures
        ({
            let (st2, a) = spec_step_ctl(e, st, Event::LimiterDenied);
            &&& a != Action::CallUpstream(st.current)
            &&& (!a.is_terminal() ==> st2.current > st.current)
            &&& (a.is_terminal() ==> a is Exhausted)
        }),
{
    broadcast use vstd::std_specs::vec::axiom_spec_len;

    assert(spec_vec_len(&e.upstreams) == e.upstreams@.len());
    assert(e.upstreams@.len() <= usize::MAX);
}

/// Law: a denied limiter on a failover upstream makes the machine wait for
/// that upstream's quota rather than move on.
pub proof fn lemma_denied_failover_waits(e: Engine, st: DispatchState)
    requires
        spec_state_ok(e, st),
        st.pending is Limiter,
        e.upstreams@[st.current as int].failover,
    ensures
        spec_step_ctl(e, st, Event::LimiterDenied) == (
            DispatchState { pending: Pending::Wait, ..st },
            Action::WaitLimiter(st.current),
        ),
{
}

/// Law: within one dispatch the upstream index never moves backwards, so
/// no upstream is called twice.
pub proof fn lemma_current_monotone(e: Engine, st: DispatchState, ev: Event)
    requires
        spec_state_ok(e, st),
        spec_event_fits(st, ev),
    ensures
        spec_step_ctl(e, st, ev).0.current >= st.current,
{
    broadcast use vstd::std_specs::vec::axiom_spec_len;

    assert(spec_vec_len(&e.upstreams) == e.upstreams@.len());
    assert(e.upstreams@.len() <= usize::MAX);
}

/// Law: at the start of a dispatch, an upstream with a limiter is never
/// called outright — it is checked first.
pub proof fn lemma_start_checks_limiter(e: Engine, req: JsonRpcRequest, j: usize)
    requires
        spec_start(e, req).1 == Action::CallUpstream(j),
        j < e.upstreams@.len(),
    ensures
        e.upstreams@[j as int].limiter is None,
{
    broadcast use vstd::std_specs::vec::axiom_spec_len;

    assert(spec_vec_len(&e.upstreams) == e.upstreams@.len());
}

/// Law: a transition calls an upstream that has a limiter only when that
/// upstream's own limiter just granted a token — by an allowance or by the
/// end of a wait.
pub proof fn lemma_call_needs_token(e: Engine, st: DispatchState, ev: Event, j: usize)
    requires
        spec_state_ok(e, st),
        spec_step_ctl(e, st, ev).1 == Action::CallUpstream(j),
        j < e.upstreams@.len(),
        e.upstreams@[j as int].limiter is Some,
    ensures
        j == st.current,
        (st.pending is Limiter && ev == Event::LimiterAllowed) || (st.pending is Wait && ev
            == Event::LimiterWaited),
{
    broadcast use vstd::std_specs::vec::axiom_spec_len;

    assert(spec_vec_len(&e.upstreams) == e.upstreams@.len());
    assert(e.upstreams@.len() <= usize::MAX);
}

} // verus!
