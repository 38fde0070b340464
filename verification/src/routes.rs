//! Routes: a path pattern bound to a set of backends and a strategy.
//!
//! A pattern starts with `/`, and may end (but only end) with a single
//! `*`, which stands for a trailing catch-all segment. Anything else is
//! rejected when the route is built.

use vstd::prelude::*;
use vstd::string::{StringExecFns, StringSliceAdditionalSpecFns};

use crate::backend::Backend;
use crate::errors::ConfigError;
use crate::options::DEFAULT_HEALTH_CHECK_FREQUENCY_MS;
use crate::options::DEFAULT_MAX_ALGORITHM_ITERATIONS;
use crate::options::DEFAULT_SMOOTHING_FACTOR_MILLI;
use crate::registry::Backends;
use crate::strategy::adaptive::Adaptive;

verus! {

/// How matched requests are forwarded.
pub struct RouteConfig {
    /// Strips the matched prefix, so that a route `/auth/*` forwards a
    /// request for `/auth/health` with the path `/health`.
    pub strip_path_prefix: bool,
}

impl Default for RouteConfig {
    /// Prefix stripping is on by default.
    fn default() -> (r: RouteConfig)
        ensures
            r.strip_path_prefix,
    {
        RouteConfig { strip_path_prefix: true }
    }
}

/// A valid route pattern, at the byte level: it starts with `/` and no
/// byte but the last may be `*` (the bytes of `/` and `*` stand only for
/// themselves in UTF-8 text).
pub open spec fn valid_pattern(bytes: Seq<u8>) -> bool {
    &&& bytes.len() >= 1
    &&& bytes[0] == 0x2Fu8
    &&& forall|i: int| 0 <= i < bytes.len() - 1 ==> bytes[i] != 0x2Au8
}

/// The bytes of the catch-all segment `{*rest}`.
pub open spec fn wildcard_bytes() -> Seq<u8> {
    seq![0x7bu8, 0x2au8, 0x72u8, 0x65u8, 0x73u8, 0x74u8, 0x7du8]
}

/// The stored form of a pattern: a trailing `*` is spelled out as the
/// catch-all segment `{*rest}`.
pub open spec fn expanded_bytes(bytes: Seq<u8>) -> Seq<u8> {
    if bytes.len() >= 1 && bytes.last() == 0x2Au8 {
        bytes.take(bytes.len() - 1) + wildcard_bytes()
    } else {
        bytes
    }
}

/// Checks a route pattern: it must start with `/` and hold at most one
/// `*`, only at the end.
pub fn is_valid_pattern(path: &str) -> (r: bool)
    ensures
        r == valid_pattern(path.spec_bytes()),
{
    let bytes = path.as_bytes();
    let n = bytes.len();
    if n == 0 || bytes[0] != 0x2F {
        return false;
    }
    let mut i: usize = 0;
    while i + 1 < n
        invariant
            bytes@ == path.spec_bytes(),
            n == bytes@.len(),
            n >= 1,
            bytes@[0] == 0x2Fu8,
            i < n,
            forall|j: int| 0 <= j < i ==> path.spec_bytes()[j] != 0x2Au8,
        decreases n - i,
    {
        if bytes[i] == 0x2A {
            return false;
        }
        i = i + 1;
    }
    true
}

/// One route: the pattern, the backends behind it, and how they are
/// balanced.
pub struct Route {
    pub path: String,
    pub backends: Backends,
    pub lb_strategy: Adaptive,
    /// Health-probe period in milliseconds; `None` disables probing.
    pub health_check_frequency: Option<u64>,
    /// Per-request budget of candidate steps.
    pub max_iterations: usize,
    pub route_config: RouteConfig,
}

impl Route {
    /// Builds a route: validates the pattern, spells out a trailing
    /// wildcard, and parses the backend addresses.
    ///
    /// Fails with `InvalidPathPattern` exactly when the pattern breaks the
    /// rules, else with `InvalidAddress` when some address is not a
    /// canonical `a.b.c.d:port` endpoint, else with `EmptyBackendSet` when
    /// no backend was given.
    pub fn new(path: &str, backends: &Vec<String>, lb_strategy: Adaptive) -> (r: Result<
        Route,
        ConfigError,
    >)
        ensures
            r is Ok ==> ({
                let rt = r->Ok_0;
                &&& vstd::utf8::encode_utf8(rt.path@) == expanded_bytes(path.spec_bytes())
                &&& rt.lb_strategy == lb_strategy
                &&& rt.health_check_frequency == Some(DEFAULT_HEALTH_CHECK_FREQUENCY_MS)
                &&& rt.max_iterations == DEFAULT_MAX_ALGORITHM_ITERATIONS
                &&& rt.route_config.strip_path_prefix
                &&& rt.backends.wf()
            }),
            r is Ok <==> valid_pattern(path.spec_bytes()) && backends@.len() > 0 && (forall|
                t: int,
            |
                0 <= t < backends@.len() ==> crate::addr::is_canonical(
                    (#[trigger] backends@[t])@,
                )),
            r is Err && r->Err_0 == ConfigError::InvalidPathPattern <==> !valid_pattern(
                path.spec_bytes(),
            ),
            r is Err && r->Err_0 == ConfigError::InvalidAddress <==> valid_pattern(
                path.spec_bytes(),
            ) && !(forall|t: int|
                0 <= t < backends@.len() ==> crate::addr::is_canonical(
                    (#[trigger] backends@[t])@,
                )),
    {
        if !is_valid_pattern(path) {
            return Err(ConfigError::InvalidPathPattern);
        }
        let bytes = path.as_bytes();
        let n = bytes.len();
        // The pattern is valid; spell out a trailing wildcard.
        let expanded: String = if bytes[n - 1] == 0x2A {
            proof {
                vstd::utf8::encode_utf8_valid_utf8(path@);
                vstd::utf8::is_char_boundary_iff_not_is_continuation_byte(
                    path.spec_bytes(),
                    n - 1,
                );
            }
            let (prefix, _) = path.split_at(n - 1);
            let r = prefix.to_owned().concat("{*rest}");
            proof {
                lemma_encode_utf8_concat(prefix@, "{*rest}"@);
                lemma_wildcard_bytes();
                assert(vstd::utf8::encode_utf8(r@) =~= expanded_bytes(path.spec_bytes()));
            }
            r
        } else {
            path.to_owned()
        };
        // Parse the backend addresses.
        let mut parsed: Vec<Backend> = Vec::new();
        let mut t: usize = 0;
        while t < backends.len()
            invariant
                t <= backends@.len(),
                valid_pattern(path.spec_bytes()),
                crate::backend::all_wf(parsed@),
                forall|u: int|
                    0 <= u < t ==> crate::addr::is_canonical((#[trigger] backends@[u])@),
            decreases backends@.len() - t,
        {
            let addr_text = backends[t].as_str();
            match Backend::new(addr_text) {
                Ok(b) => {
                    proof {
                        assert(crate::addr::is_canonical(backends@[t as int]@)) by {
                            let ep = b.addr;
                            assert(addr_text.spec_bytes() == crate::addr::endpoint_bytes(ep));
                        }
                    }
                    parsed.push(b);
                },
                Err(e) => {
                    proof {
                        assert(!crate::addr::is_canonical(backends@[t as int]@)) by {
                            if crate::addr::is_canonical(backends@[t as int]@) {
                                let ep = choose|ep: crate::addr::Endpoint|
                                    vstd::utf8::encode_utf8(backends@[t as int]@)
                                        == crate::addr::endpoint_bytes(ep);
                                assert(addr_text.spec_bytes() == crate::addr::endpoint_bytes(ep));
                            }
                        }
                    }
                    return Err(e);
                },
            }
            t = t + 1;
        }
        if backends.len() == 0 {
            return Err(ConfigError::EmptyBackendSet);
        }
        Ok(
            Route {
                path: expanded,
                backends: Backends::new(parsed, DEFAULT_SMOOTHING_FACTOR_MILLI),
                lb_strategy,
                health_check_frequency: Some(DEFAULT_HEALTH_CHECK_FREQUENCY_MS),
                max_iterations: DEFAULT_MAX_ALGORITHM_ITERATIONS,
                route_config: RouteConfig { strip_path_prefix: true },
            },
        )
    }

    /// Sets the per-request budget of candidate steps.
    pub fn max_iterations(self, max_iterations: usize) -> (r: Route)
        ensures
            r == (Route { max_iterations, ..self }),
    {
        Route { max_iterations, ..self }
    }

    /// Sets the health-probe period (milliseconds); `None` disables the
    /// probe.
    pub fn include_health_check(self, update_frequency: Option<u64>) -> (r: Route)
        ensures
            r == (Route { health_check_frequency: update_frequency, ..self }),
    {
        Route { health_check_frequency: update_frequency, ..self }
    }

    /// Sets how matched requests are forwarded.
    pub fn route_config(self, config: RouteConfig) -> (r: Route)
        ensures
            r == (Route { route_config: config, ..self }),
    {
        Route { route_config: config, ..self }
    }
}

/// The path handed upstream for a matched catch-all remainder: the
/// remainder with a leading slash, when stripping is on.
pub open spec fn stripped_path_spec(strip: bool, rest: Option<&str>) -> Option<Seq<u8>> {
    if strip {
        match rest {
            Some(p) => if p.spec_bytes().len() > 0 && p.spec_bytes()[0] == 0x2Fu8 {
                Some(p.spec_bytes())
            } else {
                Some(seq![0x2Fu8] + p.spec_bytes())
            },
            None => None,
        }
    } else {
        None
    }
}

/// Builds the upstream path for a matched catch-all remainder.
pub fn stripped_path(strip: bool, rest: Option<&str>) -> (r: Option<String>)
    ensures
        match (r, stripped_path_spec(strip, rest)) {
            (Some(s), Some(bs)) => vstd::utf8::encode_utf8(s@) == bs,
            (None, None) => true,
            _ => false,
        },
{
    if !strip {
        return None;
    }
    match rest {
        None => None,
        Some(p) => {
            let bs = p.as_bytes();
            if bs.len() > 0 && bs[0] == 0x2F {
                Some(p.to_owned())
            } else {
                let r = "/".to_owned().concat(p);
                proof {
                    lemma_encode_utf8_concat("/"@, p@);
                    lemma_slash_bytes();
                    assert(vstd::utf8::encode_utf8(r@) =~= seq![0x2Fu8] + p.spec_bytes());
                }
                Some(r)
            }
        },
    }
}

/// UTF-8 encoding distributes over concatenation.
pub proof fn lemma_encode_utf8_concat(a: Seq<char>, b: Seq<char>)
    ensures
        vstd::utf8::encode_utf8(a + b) == vstd::utf8::encode_utf8(a) + vstd::utf8::encode_utf8(b),
    decreases a.len(),
{
    if a.len() == 0 {
        assert(a + b =~= b);
        assert(vstd::utf8::encode_utf8(a) + vstd::utf8::encode_utf8(b) =~= vstd::utf8::encode_utf8(
            b,
        ));
    } else {
        lemma_encode_utf8_concat(a.drop_first(), b);
        assert((a + b).drop_first() =~= a.drop_first() + b);
        assert((a + b)[0] == a[0]);
        assert(vstd::utf8::encode_utf8(a + b) =~= vstd::utf8::encode_utf8(a)
            + vstd::utf8::encode_utf8(b));
    }
}

/// One ASCII character encodes to its own byte.
proof fn lemma_ascii_scalar(c: char)
    requires
        c as u32 <= 0x7F,
    ensures
        vstd::utf8::encode_scalar(c as u32) == seq![(c as u32) as u8],
{
    let u = c as u32;
    assert(u & 0x7F == u) by (bit_vector)
        requires
            u <= 0x7F,
    ;
}

/// A string of ASCII characters encodes to their bytes, one each.
proof fn lemma_ascii_encode(s: Seq<char>)
    requires
        forall|i: int| 0 <= i < s.len() ==> (#[trigger] s[i]) as u32 <= 0x7F,
    ensures
        vstd::utf8::encode_utf8(s) == Seq::new(s.len(), |i: int| (s[i] as u32) as u8),
    decreases s.len(),
{
    if s.len() == 0 {
        assert(vstd::utf8::encode_utf8(s) =~= Seq::new(s.len(), |i: int| (s[i] as u32) as u8));
    } else {
        lemma_ascii_scalar(s[0]);
        assert(forall|i: int|
            0 <= i < s.drop_first().len() ==> (#[trigger] s.drop_first()[i]) as u32 <= 0x7F);
        lemma_ascii_encode(s.drop_first());
        assert(vstd::utf8::encode_utf8(s) =~= Seq::new(s.len(), |i: int| (s[i] as u32) as u8));
    }
}

/// The catch-all segment text encodes to its seven ASCII bytes.
proof fn lemma_wildcard_bytes()
    ensures
        vstd::utf8::encode_utf8("{*rest}"@) == wildcard_bytes(),
{
    reveal_strlit("{*rest}");
    lemma_ascii_encode("{*rest}"@);
    assert(vstd::utf8::encode_utf8("{*rest}"@) =~= wildcard_bytes());
}

/// The slash encodes to its ASCII byte.
proof fn lemma_slash_bytes()
    ensures
        vstd::utf8::encode_utf8("/"@) == seq![0x2Fu8],
{
    reveal_strlit("/");
    lemma_ascii_encode("/"@);
    assert(vstd::utf8::encode_utf8("/"@) =~= seq![0x2Fu8]);
}

} // verus!
