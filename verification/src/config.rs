//! Settings: where the servers listen, what the indexer watches, and what a
//! repository's configuration holds.

use vstd::prelude::*;
use vstd::string::*;
use crate::debounce::DEFAULT_DEBOUNCE_MS;
use crate::node::strings_view;
use crate::text::{lists_text, str_eq};

verus! {

/// The port of the query server.
pub const QUERY_PORT: u16 = 7432;

/// The port of the query server when it runs beside the agent bridge.
pub const BRIDGE_QUERY_PORT: u16 = 7433;

/// The port of the broadcast server.
pub const BROADCAST_PORT: u16 = 8080;

/// The port of the broadcast server when it runs beside the agent bridge.
pub const BRIDGE_BROADCAST_PORT: u16 = 8081;

/// How many messages the broadcast channel holds for a slow subscriber.
pub const BROADCAST_CAPACITY: usize = 256;

/// The host a server binds to: every interface when headless, the loopback
/// interface otherwise.
pub fn bind_host(headless: bool) -> (out: &'static str)
    ensures
        out@ == (if headless {
            "0.0.0.0"@
        } else {
            "127.0.0.1"@
        }),
{
    if headless {
        "0.0.0.0"
    } else {
        "127.0.0.1"
    }
}

/// Where the query server listens.
#[derive(Debug)]
pub struct ServerConfig {
    pub host: String,
    pub port: u16,
}

impl ServerConfig {
    /// The loopback interface, on the port of the query server.
    pub fn default_config() -> (out: ServerConfig)
        ensures
            out.host@ == "127.0.0.1"@,
            out.port == QUERY_PORT,
    {
        ServerConfig { host: String::from_str("127.0.0.1"), port: QUERY_PORT }
    }
}

/// Where the broadcast server listens and what its indexer watches.
#[derive(Debug)]
pub struct SyncServerConfig {
    pub host: String,
    pub port: u16,
    /// The root of the watched tree.
    pub watch_path: String,
    /// How long a path must be quiet before it is re-indexed, in
    /// milliseconds.
    pub debounce_ms: u64,
    /// The extensions of the files that are watched.
    pub extensions: Vec<String>,
}

/// The extensions that are watched unless the settings say otherwise.
pub open spec fn default_extension_texts() -> Seq<Seq<char>> {
    seq!["ts"@, "tsx"@, "js"@, "jsx"@, "rs"@, "py"@]
}

impl SyncServerConfig {
    /// The loopback interface on the port of the broadcast server, watching
    /// the current directory with the default debounce time and extensions.
    pub fn default_config() -> (out: SyncServerConfig)
        ensures
            out.host@ == "127.0.0.1"@,
            out.port == BROADCAST_PORT,
            out.watch_path@ == "."@,
            out.debounce_ms == DEFAULT_DEBOUNCE_MS,
            strings_view(out.extensions@) == default_extension_texts(),
    {
        let mut extensions: Vec<String> = Vec::new();
        extensions.push(String::from_str("ts"));
        extensions.push(String::from_str("tsx"));
        extensions.push(String::from_str("js"));
        extensions.push(String::from_str("jsx"));
        extensions.push(String::from_str("rs"));
        extensions.push(String::from_str("py"));
        proof {
            assert(strings_view(extensions@) =~= default_extension_texts());
        }
        SyncServerConfig {
            host: String::from_str("127.0.0.1"),
            port: BROADCAST_PORT,
            watch_path: String::from_str("."),
            debounce_ms: DEFAULT_DEBOUNCE_MS,
            extensions,
        }
    }
}

/// What the configuration file of a repository holds.
#[derive(Debug)]
pub struct RepositoryConfig {
    pub version: String,
    pub languages: Vec<String>,
    /// The names of the directories and files that indexing passes over.
    pub ignore: Vec<String>,
}

impl RepositoryConfig {
    /// The configuration that initialising a repository writes.
    pub fn default_config() -> (out: RepositoryConfig)
        ensures
            out.version@ == "1.0"@,
            strings_view(out.languages@) == seq!["typescript"@, "rust"@, "python"@],
            strings_view(out.ignore@) == seq!["node_modules"@, "target"@, "dist"@, "__pycache__"@],
    {
        let mut languages: Vec<String> = Vec::new();
        languages.push(String::from_str("typescript"));
        languages.push(String::from_str("rust"));
        languages.push(String::from_str("python"));
        let mut ignore: Vec<String> = Vec::new();
        ignore.push(String::from_str("node_modules"));
        ignore.push(String::from_str("target"));
        ignore.push(String::from_str("dist"));
        ignore.push(String::from_str("__pycache__"));
        proof {
            assert(strings_view(languages@) =~= seq!["typescript"@, "rust"@, "python"@]);
            assert(strings_view(ignore@) =~= seq!["node_modules"@, "target"@, "dist"@, "__pycache__"@]);
        }
        RepositoryConfig { version: String::from_str("1.0"), languages, ignore }
    }
}

/// The segment of `path` that starts at `start` runs up to `end`: it holds no
/// `/`, and it is bounded by the ends of the path or by a `/`.
pub open spec fn is_segment(path: Seq<char>, start: int, end: int) -> bool {
    &&& 0 <= start <= end <= path.len()
    &&& start == 0 || path[start - 1] == '/'
    &&& end == path.len() || path[end] == '/'
    &&& forall|j: int| start <= j < end ==> path[j] != '/'
}

/// Some segment of `path` is one of the names of `ignore`.
pub open spec fn passes_over(path: Seq<char>, ignore: Seq<String>) -> bool {
    exists|start: int, end: int| #[trigger]
        is_segment(path, start, end) && lists_text(ignore, path.subrange(start, end))
}

/// Whether indexing passes over the file at `path`: whether one of the
/// directories on the way to it, or the file itself, bears a name of
/// `ignore`.
pub fn is_ignored(path: &str, ignore: &Vec<String>) -> (out: bool)
    ensures
        out == passes_over(path@, ignore@),
{
    let len = path.unicode_len();
    let mut start: usize = 0;
    loop
        invariant
            len == path@.len(),
            start <= len,
            start == 0 || path@[start - 1] == '/',
            forall|a: int, b: int|
                0 <= a < start && #[trigger] is_segment(path@, a, b) ==> !lists_text(ignore@, path@.subrange(a, b)),
        decreases len - start,
    {
        let mut end: usize = start;
        while end < len && path.get_char(end) != '/'
            invariant
                len == path@.len(),
                start <= end <= len,
                forall|j: int| start <= j < end ==> path@[j] != '/',
            decreases len - end,
        {
            end = end + 1;
        }
        proof {
            assert(is_segment(path@, start as int, end as int));
        }
        let segment = path.substring_char(start, end);
        let mut k: usize = 0;
        while k < ignore.len()
            invariant
                k <= ignore.len(),
                segment@ == path@.subrange(start as int, end as int),
                is_segment(path@, start as int, end as int),
                forall|m: int| 0 <= m < k ==> (#[trigger] ignore@[m])@ != segment@,
            decreases ignore.len() - k,
        {
            if str_eq(ignore[k].as_str(), segment) {
                proof {
                    assert(lists_text(ignore@, path@.subrange(start as int, end as int)));
                }
                return true;
            }
            k = k + 1;
        }
        proof {
            assert(!lists_text(ignore@, segment@)) by {
                if lists_text(ignore@, segment@) {
                    let m = choose|m: int| 0 <= m < ignore@.len() && (#[trigger] ignore@[m])@ == segment@;
                    assert(ignore@[m]@ != segment@);
                }
            }
            assert forall|a: int, b: int|
                0 <= a < end + 1 && #[trigger] is_segment(path@, a, b) implies !lists_text(
                ignore@,
                path@.subrange(a, b),
            ) by {
                if a >= start {
                    if a > start {
                        assert(path@[a - 1] == '/');
                        assert(false);
                    }
                    if b < end {
                        assert(path@[b] == '/');
                    }
                    if b > end {
                        assert(path@[end as int] != '/');
                    }
                    assert(b == end);
                }
            }
        }
        if end >= len {
            proof {
                assert(!passes_over(path@, ignore@)) by {
                    if passes_over(path@, ignore@) {
                        let (a, b) = choose|a: int, b: int| #[trigger]
                            is_segment(path@, a, b) && lists_text(ignore@, path@.subrange(a, b));
                        assert(a < end + 1);
                    }
                }
            }
            return false;
        }
        start = end + 1;
    }
}

} // verus!
