use vstd::prelude::*;
use crate::errors::LspError;
use crate::seqs::{first_where, lemma_first_where, lemma_first_where_is, lemma_first_where_none};
use crate::text::{chars_of, chars_eq, contains_string, has_string, ext_of, extension_of_chars};

verus! {

/// Static description of one language server: how it is named and launched,
/// and which files and workspaces it applies to.
pub struct ServerConfig {
    /// Key under which instances of this server are registered.
    pub name: String,
    /// Arguments the server is launched with.
    pub args: Vec<String>,
    /// File extensions the server handles.
    pub extensions: Vec<String>,
    /// Marker files whose presence in a workspace root selects this server.
    pub workspace_markers: Vec<String>,
}

/// Whether `c` handles files with extension `e`.
pub open spec fn config_handles_ext(c: ServerConfig, e: Seq<char>) -> bool {
    has_string(c.extensions@, e)
}

/// Whether `c` applies to a workspace whose root holds the marker files
/// `present`.
pub open spec fn config_matches_markers(c: ServerConfig, present: Seq<String>) -> bool {
    exists|i: int| 0 <= i < c.workspace_markers@.len() && has_string(
        present,
        c.workspace_markers@[i]@,
    )
}

/// Ordered list of server descriptors; lookups take the first match.
pub struct LspRegistry {
    pub servers: Vec<ServerConfig>,
}

/// The predicate "handles extension `e`", as a value.
pub open spec fn ext_pred(e: Seq<char>) -> spec_fn(ServerConfig) -> bool {
    |c: ServerConfig| config_handles_ext(c, e)
}

/// The predicate "matches the marker files `present`", as a value.
pub open spec fn marker_pred(present: Seq<String>) -> spec_fn(ServerConfig) -> bool {
    |c: ServerConfig| config_matches_markers(c, present)
}

/// Index of the first descriptor handling extension `e`, or `-1`.
pub open spec fn first_config_for_ext(servers: Seq<ServerConfig>, e: Seq<char>) -> int {
    first_where(servers, ext_pred(e))
}

/// Index of the first descriptor matched by the marker files `present`,
/// or `-1`.
pub open spec fn first_config_for_markers(servers: Seq<ServerConfig>, present: Seq<String>) -> int {
    first_where(servers, marker_pred(present))
}

impl LspRegistry {
    /// The built-in descriptor list: one TypeScript server covering the
    /// supported web-language extensions.
    pub fn new() -> (r: LspRegistry)
        ensures
            r.servers@.len() == 1,
            r.servers@[0].name@ == "typescript"@,
            r.servers@[0].args@.len() == 1 && r.servers@[0].args@[0]@ == "--stdio"@,
            r.servers@[0].extensions@.len() == 7,
            r.servers@[0].extensions@[0]@ == "ts"@,
            r.servers@[0].extensions@[1]@ == "tsx"@,
            r.servers@[0].extensions@[2]@ == "js"@,
            r.servers@[0].extensions@[3]@ == "jsx"@,
            r.servers@[0].extensions@[4]@ == "mjs"@,
            r.servers@[0].extensions@[5]@ == "cjs"@,
            r.servers@[0].extensions@[6]@ == "json"@,
            r.servers@[0].workspace_markers@.len() == 3,
            r.servers@[0].workspace_markers@[0]@ == "package.json"@,
            r.servers@[0].workspace_markers@[1]@ == "tsconfig.json"@,
            r.servers@[0].workspace_markers@[2]@ == "jsconfig.json"@,
    {
        let mut extensions: Vec<String> = Vec::new();
        extensions.push(String::from_str("ts"));
        extensions.push(String::from_str("tsx"));
        extensions.push(String::from_str("js"));
        extensions.push(String::from_str("jsx"));
        extensions.push(String::from_str("mjs"));
        extensions.push(String::from_str("cjs"));
        extensions.push(String::from_str("json"));
        let mut args: Vec<String> = Vec::new();
        args.push(String::from_str("--stdio"));
        let mut workspace_markers: Vec<String> = Vec::new();
        workspace_markers.push(String::from_str("package.json"));
        workspace_markers.push(String::from_str("tsconfig.json"));
        workspace_markers.push(String::from_str("jsconfig.json"));
        let config = ServerConfig {
            name: String::from_str("typescript"),
            args,
            extensions,
            workspace_markers,
        };
        let mut servers: Vec<ServerConfig> = Vec::new();
        servers.push(config);
        LspRegistry { servers }
    }

    /// Build a registry from an explicit descriptor list.
    pub fn from_servers(servers: Vec<ServerConfig>) -> (r: LspRegistry)
        ensures
            r.servers@ == servers@,
    {
        LspRegistry { servers }
    }

    /// First descriptor whose extension list holds the extension of `e`,
    /// searched in registry order.
    pub fn find_for_ext(&self, e: &Vec<char>) -> (r: Option<usize>)
        ensures
            match r {
                Some(i) => i < self.servers@.len() && first_config_for_ext(self.servers@, e@)
                    == i as int,
                None => first_config_for_ext(self.servers@, e@) == -1,
            },
    {
        let mut i: usize = 0;
        while i < self.servers.len()
            invariant
                i <= self.servers@.len(),
                forall|j: int| 0 <= j < i ==> !config_handles_ext(self.servers@[j], e@),
            decreases self.servers@.len() - i,
        {
            if self.config_has_ext(i, e) {
                proof {
                    let p = ext_pred(e@);
                    assert forall|j: int| 0 <= j <= i implies p(self.servers@[j])
                        == config_handles_ext(self.servers@[j], e@) by {}
                    lemma_first_where_is(self.servers@, p, i as int);
                }
                return Some(i);
            }
            i = i + 1;
        }
        proof {
            let p = ext_pred(e@);
            assert forall|j: int| 0 <= j < self.servers@.len() implies !p(self.servers@[j]) by {
                assert(!config_handles_ext(self.servers@[j], e@));
            }
            lemma_first_where_none(self.servers@, p);
        }
        None
    }

    /// Whether descriptor `i` lists extension `e`.
    fn config_has_ext(&self, i: usize, e: &Vec<char>) -> (r: bool)
        requires
            i < self.servers@.len(),
        ensures
            r == config_handles_ext(self.servers@[i as int], e@),
    {
        let exts = &self.servers[i].extensions;
        let mut k: usize = 0;
        while k < exts.len()
            invariant
                k <= exts@.len(),
                exts@ == self.servers@[i as int].extensions@,
                forall|j: int| 0 <= j < k ==> exts@[j]@ != e@,
            decreases exts@.len() - k,
        {
            let cand = chars_of(exts[k].as_str());
            if chars_eq(&cand, e) {
                return true;
            }
            k = k + 1;
        }
        false
    }

    /// First descriptor for a file, by the file's extension.
    pub fn find_server_for_file(&self, file_path: &str) -> (r: Option<usize>)
        ensures
            match r {
                Some(i) => i < self.servers@.len() && first_config_for_ext(
                    self.servers@,
                    ext_of(file_path@),
                ) == i as int,
                None => first_config_for_ext(self.servers@, ext_of(file_path@)) == -1,
            },
    {
        let v = chars_of(file_path);
        let e = extension_of_chars(&v);
        self.find_for_ext(&e)
    }

    /// First descriptor matched by the marker files found in a workspace
    /// root. The caller lists the files that exist there; which files exist
    /// is not this crate's business.
    pub fn find_server_for_workspace(&self, markers_present: &Vec<String>) -> (r: Option<usize>)
        ensures
            match r {
                Some(i) => i < self.servers@.len() && first_config_for_markers(
                    self.servers@,
                    markers_present@,
                ) == i as int,
                None => first_config_for_markers(self.servers@, markers_present@) == -1,
            },
    {
        let mut i: usize = 0;
        while i < self.servers.len()
            invariant
                i <= self.servers@.len(),
                forall|j: int|
                    0 <= j < i ==> !config_matches_markers(self.servers@[j], markers_present@),
            decreases self.servers@.len() - i,
        {
            if self.config_matches(i, markers_present) {
                proof {
                    let p = marker_pred(markers_present@);
                    assert forall|j: int| 0 <= j <= i implies p(self.servers@[j])
                        == config_matches_markers(self.servers@[j], markers_present@) by {}
                    lemma_first_where_is(self.servers@, p, i as int);
                }
                return Some(i);
            }
            i = i + 1;
        }
        proof {
            let p = marker_pred(markers_present@);
            assert forall|j: int| 0 <= j < self.servers@.len() implies !p(self.servers@[j]) by {
                assert(!config_matches_markers(self.servers@[j], markers_present@));
            }
            lemma_first_where_none(self.servers@, p);
        }
        None
    }

    /// Whether some marker of descriptor `i` is among `present`.
    fn config_matches(&self, i: usize, present: &Vec<String>) -> (r: bool)
        requires
            i < self.servers@.len(),
        ensures
            r == config_matches_markers(self.servers@[i as int], present@),
    {
        let markers = &self.servers[i].workspace_markers;
        let mut k: usize = 0;
        while k < markers.len()
            invariant
                k <= markers@.len(),
                markers@ == self.servers@[i as int].workspace_markers@,
                forall|j: int| 0 <= j < k ==> !has_string(present@, markers@[j]@),
            decreases markers@.len() - k,
        {
            if contains_string(present, &markers[k]) {
                return true;
            }
            k = k + 1;
        }
        false
    }
}

/// What the executable resolution strategies found for one server: each
/// field holds the path a strategy discovered, if any. Probing the file
/// system is the caller's business.
pub struct PathProbe {
    /// A well-known global install location.
    pub global: Option<String>,
    /// The process's inherited search path.
    pub on_path: Option<String>,
    /// A project-local dependency directory.
    pub local: Option<String>,
    /// An application-bundled binary.
    pub bundled: Option<String>,
}

/// The path the resolution order picks: for the TypeScript server the
/// global install, then the search path, then the project-local directory,
/// then the bundled binary; for every other server only the bundled binary.
pub open spec fn resolved_path(ts: bool, probe: PathProbe) -> Option<String> {
    if ts {
        if probe.global is Some {
            probe.global
        } else if probe.on_path is Some {
            probe.on_path
        } else if probe.local is Some {
            probe.local
        } else {
            probe.bundled
        }
    } else {
        probe.bundled
    }
}

/// Pick the executable for `server_name` from what the strategies found,
/// in resolution order; when nothing was found, fail naming the missing
/// binary.
pub fn get_server_path(server_name: &str, probe: &PathProbe) -> (r: Result<String, LspError>)
    ensures
        match r {
            Ok(path) => resolved_path(server_name@ == "typescript"@, *probe) == Some(path),
            Err(e) => {
                &&& resolved_path(server_name@ == "typescript"@, *probe) is None
                &&& e matches LspError::BinaryNotFound { server_name: n } && n@ == server_name@
            },
        },
{
    let is_ts = typescript_name_matches(server_name);
    if is_ts {
        if let Some(p) = &probe.global {
            return Ok(p.clone());
        }
        if let Some(p) = &probe.on_path {
            return Ok(p.clone());
        }
        if let Some(p) = &probe.local {
            return Ok(p.clone());
        }
    }
    match &probe.bundled {
        Some(p) => Ok(p.clone()),
        None => Err(LspError::BinaryNotFound { server_name: server_name.to_owned() }),
    }
}

/// The file name of a bundled server binary for `server_name`.
pub fn server_binary_name(server_name: &str) -> (r: String)
    ensures
        r@ == server_name@ + "-language-server"@,
{
    let mut r = server_name.to_owned();
    r.append("-language-server");
    r
}

/// Whether `server_name` is the TypeScript server's name.
fn typescript_name_matches(server_name: &str) -> (r: bool)
    ensures
        r == (server_name@ == "typescript"@),
{
    let ts = String::from_str("typescript");
    let s = server_name.to_owned();
    s.eq(&ts)
}

} // verus!
