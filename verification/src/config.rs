//! The server's configuration and what the command line gives it: the
//! reverse-proxy rules written as `prefix=upstream`.
use crate::text::{spec_trim, str_chars, trim};
use std::path::PathBuf;
use vstd::prelude::*;

verus! {

/// A file system path, carried through unread.
#[verifier::external_type_specification]
#[verifier::external_body]
pub struct ExPathBuf(PathBuf);

/// `Clone::clone` of std's `PathBuf`, which the derived `Clone` of
/// `ServerConfig` calls; nothing is stated of the copy.
pub assume_specification[ <PathBuf as Clone>::clone ](p: &PathBuf) -> PathBuf;

/// The compression cache size, in MB, when the configuration names none.
pub const DEFAULT_CACHE_SIZE_MB: usize = 24;

/// Configuration for the Mles server.
#[derive(Debug, Clone)]
pub struct ServerConfig {
    /// Domain(s) to serve
    pub domains: Vec<String>,
    /// Contact email(s) for Let's Encrypt
    pub email: Vec<String>,
    /// Cache directory for ACME certificates
    pub cache: Option<PathBuf>,
    /// History limit for message queue
    pub limit: u32,
    /// Open files limit
    pub filelimit: usize,
    /// Web root directory
    pub wwwroot: PathBuf,
    /// Use Let's Encrypt staging environment
    pub staging: bool,
    /// Server port
    pub port: u16,
    /// Use http redirect for port 80
    pub redirect: bool,
    /// Cache size for compressed files in MB
    pub max_cache_size_mb: Option<usize>,
    /// Reverse-proxy rules: list of (url_prefix, upstream_base_url) pairs.
    /// Requests to `/{prefix}/...` are forwarded to `{upstream}/...`.
    pub proxies: Vec<(String, String)>,
    /// Per-IP TCP-accept rate limit (connections per minute), at least 1.
    /// `None` disables. Applies to both the TLS listener and the HTTP
    /// redirect listener.
    pub rate_limit: Option<u32>,
}

impl ServerConfig {
    /// The compression cache size in MB: the configured one, else
    /// `DEFAULT_CACHE_SIZE_MB`.
    pub fn cache_size_mb(&self) -> (r: usize)
        ensures
            r == (match self.max_cache_size_mb {
                Some(size) => size,
                None => DEFAULT_CACHE_SIZE_MB,
            }),
    {
        match self.max_cache_size_mb {
            Some(size) => size,
            None => DEFAULT_CACHE_SIZE_MB,
        }
    }

    /// Whether the server forwards any path to an upstream.
    pub fn has_proxies(&self) -> (r: bool)
        ensures
            r == (self.proxies@.len() > 0),
    {
        self.proxies.len() > 0
    }
}

/// The parts of `s` before and after its first `c`, none when it has none.
pub open spec fn split_once(s: Seq<char>, c: char) -> Option<(Seq<char>, Seq<char>)>
    decreases s.len(),
{
    if s.len() == 0 {
        None
    } else if s[0] == c {
        Some((seq![], s.drop_first()))
    } else {
        match split_once(s.drop_first(), c) {
            Some((a, b)) => Some((seq![s[0]] + a, b)),
            None => None,
        }
    }
}

/// The rule that a `prefix=upstream` argument gives: both parts trimmed,
/// none when the argument has no '='.
pub open spec fn spec_proxy_rule(s: Seq<char>) -> Option<(Seq<char>, Seq<char>)> {
    match split_once(s, '=') {
        Some((a, b)) => Some((spec_trim(a), spec_trim(b))),
        None => None,
    }
}

proof fn lemma_split_once_at(s: Seq<char>, c: char, k: int)
    requires
        0 <= k < s.len(),
        s[k] == c,
        forall|j: int| 0 <= j < k ==> s[j] != c,
    ensures
        split_once(s, c) == Some((s.subrange(0, k), s.subrange(k + 1, s.len() as int))),
    decreases k,
{
    if k == 0 {
        assert(s.subrange(0, 0) =~= Seq::<char>::empty());
        assert(s.subrange(1, s.len() as int) =~= s.drop_first());
    } else {
        let d = s.drop_first();
        assert forall|j: int| 0 <= j < k - 1 implies d[j] != c by {
            assert(d[j] == s[j + 1]);
        }
        lemma_split_once_at(d, c, k - 1);
        assert(seq![s[0]] + d.subrange(0, k - 1) =~= s.subrange(0, k));
        assert(d.subrange(k, d.len() as int) =~= s.subrange(k + 1, s.len() as int));
    }
}

proof fn lemma_split_once_none(s: Seq<char>, c: char)
    requires
        forall|j: int| 0 <= j < s.len() ==> s[j] != c,
    ensures
        split_once(s, c) is None,
    decreases s.len(),
{
    if s.len() > 0 {
        let d = s.drop_first();
        assert forall|j: int| 0 <= j < d.len() implies d[j] != c by {
            assert(d[j] == s[j + 1]);
        }
        lemma_split_once_none(d, c);
    }
}

/// The rule that a `prefix=upstream` argument gives: the parts before and
/// after its first '=', trimmed; none when it has no '='.
pub fn parse_proxy_rule(s: &str) -> (r: Option<(String, String)>)
    ensures
        (match r {
            Some((a, b)) => Some((a@, b@)),
            None => None,
        }) == spec_proxy_rule(s@),
{
    let cs = str_chars(s);
    let n = cs.len();
    let mut i: usize = 0;
    while i < n
        invariant
            n == s@.len(),
            cs@ == s@,
            i <= n,
            forall|j: int| 0 <= j < i ==> s@[j] != '=',
        decreases n - i,
    {
        if cs[i] == '=' {
            proof {
                lemma_split_once_at(s@, '=', i as int);
            }
            let prefix = trim(s.substring_char(0, i));
            let upstream = trim(s.substring_char(i + 1, n));
            return Some((String::from_str(prefix), String::from_str(upstream)));
        }
        i = i + 1;
    }
    proof {
        lemma_split_once_none(s@, '=');
    }
    None
}

/// The rules that the `--proxy` arguments `args` give, in order, the
/// arguments without '=' left out.
pub open spec fn spec_proxy_rules(args: Seq<Seq<char>>) -> Seq<(Seq<char>, Seq<char>)>
    decreases args.len(),
{
    if args.len() == 0 {
        seq![]
    } else {
        let rest = spec_proxy_rules(args.drop_last());
        match spec_proxy_rule(args.last()) {
            Some(p) => rest.push(p),
            None => rest,
        }
    }
}

/// The views of some pairs of strings.
pub open spec fn pair_views(v: Seq<(String, String)>) -> Seq<(Seq<char>, Seq<char>)> {
    v.map_values(|p: (String, String)| (p.0@, p.1@))
}

/// The rules that the `--proxy` arguments `args` give.
pub fn parse_proxy_rules(args: &Vec<String>) -> (r: Vec<(String, String)>)
    ensures
        pair_views(r@) == spec_proxy_rules(args@.map_values(|s: String| s@)),
{
    let mut out: Vec<(String, String)> = Vec::new();
    let n = args.len();
    for i in 0..n
        invariant
            n == args@.len(),
            pair_views(out@) == spec_proxy_rules(args@.take(i as int).map_values(|s: String| s@)),
    {
        let ghost prev = out@;
        let ghost next = args@.take(i + 1).map_values(|s: String| s@);
        proof {
            assert(next.drop_last() =~= args@.take(i as int).map_values(|s: String| s@));
            assert(next.last() == args@[i as int]@);
        }
        match parse_proxy_rule(args[i].as_str()) {
            Some(p) => {
                out.push(p);
                assert(pair_views(out@) =~= pair_views(prev).push((p.0@, p.1@)));
            },
            None => {},
        }
    }
    assert(args@.take(n as int) =~= args@);
    out
}

} // verus!
