//! Reverse-proxy configuration and routing.
use vstd::prelude::*;

verus! {

/// Where a route sends its requests, and whether the matched prefix is
/// removed from the path first.
#[derive(Debug, Clone, PartialEq, Eq)]
pub struct ProxyEntry {
    pub addr: String,
    pub strip_prefix: bool,
}

/// The route table: path prefixes with their entries, tried in order.
#[derive(Debug, Clone, PartialEq, Eq)]
pub struct ServerConfig {
    pub reverse_proxy_mapping: Vec<(String, ProxyEntry)>,
}

impl Default for ServerConfig {
    fn default() -> (r: ServerConfig)
        ensures
            r.reverse_proxy_mapping@.len() == 0,
    {
        ServerConfig { reverse_proxy_mapping: Vec::new() }
    }
}

pub struct Server {
    pub config: ServerConfig,
}

impl Server {
    pub fn new(config: ServerConfig) -> (r: Server)
        ensures
            r.config == config,
    {
        Server { config }
    }
}

/// Whether `p` is a prefix of `s`.
pub open spec fn char_prefix(p: Seq<char>, s: Seq<char>) -> bool {
    p.len() <= s.len() && s.take(p.len() as int) == p
}

/// The first route at or after `from` whose prefix starts `path`, or
/// `routes.len()` when none does.
pub open spec fn route_index(routes: Seq<(String, ProxyEntry)>, path: Seq<char>, from: int) -> int
    decreases routes.len() - from,
{
    if from < 0 || from >= routes.len() {
        routes.len() as int
    } else if char_prefix(routes[from].0@, path) {
        from
    } else {
        route_index(routes, path, from + 1)
    }
}

/// The path sent to the backend: unchanged, or with `prefix` removed and a
/// leading `/` restored when the rest lacks one.
pub open spec fn rewritten_path(path: Seq<char>, prefix: Seq<char>, strip: bool) -> Seq<char> {
    if !strip {
        path
    } else {
        let rest = path.skip(prefix.len() as int);
        if rest.len() > 0 && rest[0] == '/' {
            rest
        } else {
            seq!['/'] + rest
        }
    }
}

/// Whether `s` starts with `p`.
pub fn starts_with(s: &str, p: &str) -> (r: bool)
    ensures
        r == char_prefix(p@, s@),
{
    let n = p.unicode_len();
    if n > s.unicode_len() {
        return false;
    }
    let mut i: usize = 0;
    while i < n
        invariant
            n == p@.len(),
            n <= s@.len(),
            i <= n,
            forall|j: int| 0 <= j < i ==> s@[j] == p@[j],
        decreases n - i,
    {
        if s.get_char(i) != p.get_char(i) {
            assert(s@.take(n as int)[i as int] != p@[i as int]);
            return false;
        }
        i = i + 1;
    }
    assert(s@.take(n as int) =~= p@);
    true
}

/// `path` with `prefix` removed when `strip` is set, and with a leading `/`
/// restored when the rest lacks one.
pub fn rewrite_path(path: &String, prefix: &String, strip: bool) -> (r: String)
    requires
        char_prefix(prefix@, path@),
    ensures
        r@ == rewritten_path(path@, prefix@, strip),
{
    if !strip {
        return path.clone();
    }
    let n = path.as_str().unicode_len();
    let rest = path.as_str().substring_char(prefix.as_str().unicode_len(), n);
    if rest.unicode_len() > 0 && rest.get_char(0) == '/' {
        return rest.to_string();
    }
    let slash = "/".to_string();
    proof {
        reveal_strlit("/");
    }
    slash.concat(rest)
}

impl ServerConfig {
    /// The first route whose prefix starts `path`: its index and the path to
    /// send to its backend.
    pub fn route(&self, path: &String) -> (r: Option<(usize, String)>)
        ensures
            match r {
                Some((i, p)) => {
                    &&& i == route_index(self.reverse_proxy_mapping@, path@, 0)
                    &&& i < self.reverse_proxy_mapping@.len()
                    &&& p@ == rewritten_path(
                        path@,
                        self.reverse_proxy_mapping@[i as int].0@,
                        self.reverse_proxy_mapping@[i as int].1.strip_prefix,
                    )
                },
                None => route_index(self.reverse_proxy_mapping@, path@, 0)
                    == self.reverse_proxy_mapping@.len(),
            },
    {
        let mut i: usize = 0;
        while i < self.reverse_proxy_mapping.len()
            invariant
                i <= self.reverse_proxy_mapping@.len(),
                route_index(self.reverse_proxy_mapping@, path@, 0) == route_index(
                    self.reverse_proxy_mapping@,
                    path@,
                    i as int,
                ),
            decreases self.reverse_proxy_mapping@.len() - i,
        {
            let (prefix, entry) = &self.reverse_proxy_mapping[i];
            if starts_with(path.as_str(), prefix.as_str()) {
                return Some((i, rewrite_path(path, prefix, entry.strip_prefix)));
            }
            i = i + 1;
        }
        None
    }
}

} // verus!
