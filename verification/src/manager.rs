use vstd::prelude::*;
use crate::errors::LspError;
use crate::lang::{language_id_of_ext, language_id_for_ext};
use crate::messages::{CompletionRequestParams, DidChangeParams, DidCloseParams, DidOpenParams, HoverRequestParams, file_uri};
use crate::seqs::{first_where, lemma_first_where, lemma_first_where_is, lemma_first_where_none};
use crate::text::{chars_of, contains_string, has_string, last_segment, clone_strings, ext_of, is_path_prefix};
use crate::registry::{LspRegistry, ServerConfig, first_config_for_ext, first_config_for_markers};

verus! {

/// Completion lists handed back to callers are cut to this many items.
pub const DEFAULT_MAX_COMPLETION_ITEMS: usize = 100;

/// Tunable limits of the manager.
pub struct LspSettings {
    /// Largest completion list a caller receives.
    pub max_completion_items: usize,
}

impl Default for LspSettings {
    fn default() -> (r: Self)
        ensures
            r.max_completion_items == DEFAULT_MAX_COMPLETION_ITEMS,
    {
        LspSettings { max_completion_items: DEFAULT_MAX_COMPLETION_ITEMS }
    }
}

/// One running language server process: its client handle, the key it is
/// registered under, how many attach calls keep it alive, and the files
/// attached to it.
pub struct LspInstance {
    /// Workspace root the server was started for.
    pub workspace: String,
    /// Server name, the second half of the registry key.
    pub server_name: String,
    /// Handle under which the caller reaches this instance's protocol
    /// client and process.
    pub client: u64,
    /// Number of attach calls not yet matched by a stop.
    pub ref_count: usize,
    /// Files currently attached, without duplicates.
    pub files: Vec<String>,
}

/// Mathematical image of one instance record.
#[verifier::ext_equal]
pub struct InstanceView {
    pub workspace: Seq<char>,
    pub server_name: Seq<char>,
    pub client: u64,
    pub ref_count: nat,
    pub files: Seq<Seq<char>>,
}

impl View for LspInstance {
    type V = InstanceView;

    open spec fn view(&self) -> InstanceView {
        InstanceView {
            workspace: self.workspace@,
            server_name: self.server_name@,
            client: self.client,
            ref_count: self.ref_count as nat,
            files: self.files@.map_values(|f: String| f@),
        }
    }
}

/// Whether `iv` is registered under the key (`w`, `n`).
pub open spec fn key_is(iv: InstanceView, w: Seq<char>, n: Seq<char>) -> bool {
    iv.workspace == w && iv.server_name == n
}

/// The predicate "registered under (`w`, `n`)", as a value.
pub open spec fn key_pred(w: Seq<char>, n: Seq<char>) -> spec_fn(InstanceView) -> bool {
    |iv: InstanceView| key_is(iv, w, n)
}

/// Index of the instance with key (`w`, `n`), or `-1`.
pub open spec fn key_index(s: Seq<InstanceView>, w: Seq<char>, n: Seq<char>) -> int {
    first_where(s, key_pred(w, n))
}

/// Whether some instance is registered under (`w`, `n`).
pub open spec fn has_key(s: Seq<InstanceView>, w: Seq<char>, n: Seq<char>) -> bool {
    exists|i: int| 0 <= i < s.len() && key_is(s[i], w, n)
}

pub proof fn lemma_key_index(s: Seq<InstanceView>, w: Seq<char>, n: Seq<char>)
    ensures
        has_key(s, w, n) <==> key_index(s, w, n) >= 0,
        key_index(s, w, n) >= 0 ==> key_index(s, w, n) < s.len() && key_is(
            s[key_index(s, w, n)],
            w,
            n,
        ),
{
    let p = key_pred(w, n);
    lemma_first_where(s, p);
    if key_index(s, w, n) >= 0 {
        assert(p(s[key_index(s, w, n)]));
        assert(has_key(s, w, n));
    }
    if has_key(s, w, n) {
        let i = choose|i: int| 0 <= i < s.len() && key_is(s[i], w, n);
        assert(p(s[i]));
        if first_where(s, p) == -1 {
            assert(!p(s[i]));
        }
    }
}

/// Whether `f` is attached to `iv`.
pub open spec fn holds_file(iv: InstanceView, f: Seq<char>) -> bool {
    iv.files.contains(f)
}

/// The predicate "holds file `f`", as a value.
pub open spec fn file_pred(f: Seq<char>) -> spec_fn(InstanceView) -> bool {
    |iv: InstanceView| holds_file(iv, f)
}

/// Index of the first instance holding `f`, or `-1`.
pub open spec fn file_index(s: Seq<InstanceView>, f: Seq<char>) -> int {
    first_where(s, file_pred(f))
}

/// Whether `f` is attached to some instance.
pub open spec fn file_attached(s: Seq<InstanceView>, f: Seq<char>) -> bool {
    exists|i: int| 0 <= i < s.len() && holds_file(s[i], f)
}

/// No file appears twice.
pub open spec fn files_unique(files: Seq<Seq<char>>) -> bool {
    forall|a: int, b: int| 0 <= a < b < files.len() ==> files[a] != files[b]
}

/// Structural soundness of the registry: keys are unique and no
/// instance lists a file twice.
pub open spec fn wf_instances(s: Seq<InstanceView>) -> bool {
    &&& forall|i: int, j: int|
        0 <= i < j < s.len() ==> !(s[i].workspace == s[j].workspace && s[i].server_name
            == s[j].server_name)
    &&& forall|i: int| 0 <= i < s.len() ==> files_unique(s[i].files)
}

/// No file is attached to two instances.
pub open spec fn files_disjoint(s: Seq<InstanceView>) -> bool {
    forall|i: int, j: int, f: Seq<char>|
        #![trigger s[i].files.contains(f), s[j].files.contains(f)]
        0 <= i < s.len() && 0 <= j < s.len() && i != j && s[i].files.contains(f) ==> !s[j].files.contains(f)
}

/// Every reference count leaves room for one more attach.
pub open spec fn counts_below_max(s: Seq<InstanceView>) -> bool {
    forall|i: int| 0 <= i < s.len() ==> s[i].ref_count < usize::MAX
}

/// `iv` after one more attach of `f`: the count grows by one on every
/// call, the file set only when `f` was absent.
pub open spec fn with_file_attached(iv: InstanceView, f: Seq<char>) -> InstanceView {
    InstanceView {
        ref_count: iv.ref_count + 1,
        files: if iv.files.contains(f) {
            iv.files
        } else {
            iv.files.push(f)
        },
        ..iv
    }
}

/// `iv` after one stop counted against it: the count drops by one, never
/// below zero. The attached files stay as they are — an attach counted
/// twice must be matched by two stops, and the file keeps naming its
/// instance until the balance is paid; the whole record leaves the
/// registry when the count reaches zero.
pub open spec fn with_stop_counted(iv: InstanceView) -> InstanceView {
    InstanceView {
        ref_count: if iv.ref_count == 0 {
            0
        } else {
            (iv.ref_count - 1) as nat
        },
        ..iv
    }
}

/// A record as it is first inserted.
pub open spec fn new_instance(
    w: Seq<char>,
    n: Seq<char>,
    c: u64,
    rc: nat,
    files: Seq<Seq<char>>,
) -> InstanceView {
    InstanceView { workspace: w, server_name: n, client: c, ref_count: rc, files }
}

/// What stopping a file does to the registry: the first instance holding
/// the file loses one count; at count zero the instance leaves and its
/// client handle is returned for termination. Until then the file stays
/// attached, so that a file started several times is torn down by exactly
/// as many stops.
pub open spec fn stop_transition(s: Seq<InstanceView>, f: Seq<char>) -> (Seq<InstanceView>, Option<
    u64,
>) {
    let i = file_index(s, f);
    if i == -1 {
        (s, None)
    } else {
        let upd = with_stop_counted(s[i]);
        if upd.ref_count == 0 {
            (s.remove(i), Some(s[i].client))
        } else {
            (s.update(i, upd), None)
        }
    }
}

/// Orchestrates server instances: resolves descriptors, reuses or plans new
/// instances, reference-counts attached files, and tears instances down.
/// Everything that must leave the process — spawning, the handshake, the
/// kill — is returned to the caller as a plan or a handle to act on.
pub struct LspManager {
    /// The live instance records; unique per (workspace, server) key.
    pub instances: Vec<LspInstance>,
    /// Descriptor lookup table.
    pub registry: LspRegistry,
    /// Tunable limits.
    pub settings: LspSettings,
}

impl View for LspManager {
    type V = Seq<InstanceView>;

    open spec fn view(&self) -> Seq<InstanceView> {
        self.instances@.map_values(|i: LspInstance| i@)
    }
}

impl LspManager {
    /// A manager with the built-in registry, default settings and no
    /// instances.
    pub fn new() -> (r: LspManager)
        ensures
            r@ =~= Seq::<InstanceView>::empty(),
            wf_instances(r@),
            files_disjoint(r@),
            r.settings.max_completion_items == DEFAULT_MAX_COMPLETION_ITEMS,
            r.registry.servers@.len() == 1,
            r.registry.servers@[0].name@ == "typescript"@,
            r.registry.servers@[0].args@.len() == 1 && r.registry.servers@[0].args@[0]@
                == "--stdio"@,
            r.registry.servers@[0].extensions@.len() == 7,
            r.registry.servers@[0].extensions@[0]@ == "ts"@,
            r.registry.servers@[0].extensions@[1]@ == "tsx"@,
            r.registry.servers@[0].extensions@[2]@ == "js"@,
            r.registry.servers@[0].extensions@[3]@ == "jsx"@,
            r.registry.servers@[0].extensions@[4]@ == "mjs"@,
            r.registry.servers@[0].extensions@[5]@ == "cjs"@,
            r.registry.servers@[0].extensions@[6]@ == "json"@,
            r.registry.servers@[0].workspace_markers@.len() == 3,
            r.registry.servers@[0].workspace_markers@[0]@ == "package.json"@,
            r.registry.servers@[0].workspace_markers@[1]@ == "tsconfig.json"@,
            r.registry.servers@[0].workspace_markers@[2]@ == "jsconfig.json"@,
    {
        LspManager {
            instances: Vec::new(),
            registry: LspRegistry::new(),
            settings: LspSettings::default(),
        }
    }

    /// A manager over a caller-supplied registry.
    pub fn with_registry(registry: LspRegistry, settings: LspSettings) -> (r: LspManager)
        ensures
            r@ =~= Seq::<InstanceView>::empty(),
            wf_instances(r@),
            files_disjoint(r@),
            r.settings == settings,
            r.registry == registry,
    {
        LspManager { instances: Vec::new(), registry, settings }
    }

    /// Index of the instance registered under (`w`, `n`), if any.
    fn find_key(&self, w: &String, n: &String) -> (r: Option<usize>)
        ensures
            match r {
                Some(i) => i < self@.len() && key_index(self@, w@, n@) == i as int,
                None => key_index(self@, w@, n@) == -1,
            },
    {
        let mut i: usize = 0;
        let len = self.instances.len();
        assert(self@.len() == self.instances@.len());
        while i < len
            invariant
                i <= len,
                len == self@.len(),
                len == self.instances@.len(),
                self@ == self.instances@.map_values(|inst: LspInstance| inst@),
                forall|j: int| 0 <= j < i ==> !key_is(self@[j], w@, n@),
            decreases len - i,
        {
            assert(self@[i as int] == self.instances@[i as int]@);
            if self.instances[i].workspace.eq(w) && self.instances[i].server_name.eq(n) {
                proof {
                    let p = key_pred(w@, n@);
                    assert forall|j: int| 0 <= j <= i implies p(self@[j]) == key_is(
                        self@[j],
                        w@,
                        n@,
                    ) by {}
                    lemma_first_where_is(self@, p, i as int);
                }
                return Some(i);
            }
            i = i + 1;
        }
        proof {
            let p = key_pred(w@, n@);
            assert forall|j: int| 0 <= j < self@.len() implies !p(self@[j]) by {
                assert(!key_is(self@[j], w@, n@));
            }
            lemma_first_where_none(self@, p);
        }
        None
    }

    /// Index of the first instance with `f` attached, if any.
    fn find_file(&self, f: &String) -> (r: Option<usize>)
        ensures
            match r {
                Some(i) => i < self@.len() && file_index(self@, f@) == i as int,
                None => file_index(self@, f@) == -1,
            },
    {
        let mut i: usize = 0;
        let len = self.instances.len();
        while i < len
            invariant
                i <= len,
                len == self@.len(),
                len == self.instances@.len(),
                self@ == self.instances@.map_values(|inst: LspInstance| inst@),
                forall|j: int| 0 <= j < i ==> !holds_file(self@[j], f@),
            decreases len - i,
        {
            assert(self@[i as int] == self.instances@[i as int]@);
            if contains_string(&self.instances[i].files, f) {
                proof {
                    lemma_has_string_contains(self.instances@[i as int].files@, f@);
                    let p = file_pred(f@);
                    assert forall|j: int| 0 <= j <= i implies p(self@[j]) == holds_file(
                        self@[j],
                        f@,
                    ) by {}
                    lemma_first_where_is(self@, p, i as int);
                }
                return Some(i);
            }
            proof {
                lemma_has_string_contains(self.instances@[i as int].files@, f@);
            }
            i = i + 1;
        }
        proof {
            let p = file_pred(f@);
            assert forall|j: int| 0 <= j < self@.len() implies !p(self@[j]) by {
                assert(!holds_file(self@[j], f@));
            }
            lemma_first_where_none(self@, p);
        }
        None
    }

    /// Count one stop against the instance holding `file_path`, if one
    /// does: the reference count drops by one, never below zero, and at
    /// zero the instance leaves the registry and its client handle is
    /// returned so the caller can terminate the process. The file stays in
    /// the attached set until then: a file started several times is torn
    /// down by exactly as many stops. A file attached nowhere is not an
    /// error; nothing changes.
    pub fn stop_lsp_for_file(&mut self, file_path: &str) -> (r: Result<Option<u64>, LspError>)
        requires
            wf_instances(old(self)@),
        ensures
            wf_instances(final(self)@),
            final(self)@ == stop_transition(old(self)@, file_path@).0,
            r == Ok::<Option<u64>, LspError>(stop_transition(old(self)@, file_path@).1),
            final(self).registry == old(self).registry,
            final(self).settings == old(self).settings,
    {
        let fs = file_path.to_owned();
        let found = self.find_file(&fs);
        let i = match found {
            None => {
                return Ok(None);
            },
            Some(i) => i,
        };
        let ghost s0 = self@;
        let mut inst = self.instances.remove(i);
        assert(inst@ == s0[i as int]) by {
            assert(old(self).instances@[i as int]@ == s0[i as int]);
        }
        let client = inst.client;
        if inst.ref_count > 0 {
            inst.ref_count = inst.ref_count - 1;
        }
        assert(inst@ == with_stop_counted(s0[i as int]));
        if inst.ref_count == 0 {
            proof {
                assert(self@ =~= s0.remove(i as int));
                lemma_wf_remove(s0, i as int);
            }
            Ok(Some(client))
        } else {
            self.instances.insert(i, inst);
            proof {
                assert(self@ =~= s0.update(i as int, with_stop_counted(s0[i as int])));
                lemma_wf_stop_update(s0, i as int);
            }
            Ok(None)
        }
    }
}

/// `has_string` over the views of a string vector is `contains` on the
/// mapped sequence.
pub proof fn lemma_has_string_contains(files: Seq<String>, f: Seq<char>)
    ensures
        has_string(files, f) == files.map_values(|x: String| x@).contains(f),
{
    let mapped = files.map_values(|x: String| x@);
    if has_string(files, f) {
        let k = choose|k: int| 0 <= k < files.len() && files[k]@ == f;
        assert(mapped[k] == f);
    }
    if mapped.contains(f) {
        let k = choose|k: int| 0 <= k < mapped.len() && mapped[k] == f;
        assert(files[k]@ == f);
        assert(has_string(files, f));
    }
}

/// Removing an instance keeps the registry well formed.
pub proof fn lemma_wf_remove(s: Seq<InstanceView>, i: int)
    requires
        wf_instances(s),
        0 <= i < s.len(),
    ensures
        wf_instances(s.remove(i)),
{
    let t = s.remove(i);
    assert forall|a: int, b: int| 0 <= a < b < t.len() implies !(t[a].workspace == t[b].workspace
        && t[a].server_name == t[b].server_name) by {
        let a0 = if a < i { a } else { a + 1 };
        let b0 = if b < i { b } else { b + 1 };
        assert(t[a] == s[a0] && t[b] == s[b0]);
    }
    assert forall|a: int| 0 <= a < t.len() implies files_unique(t[a].files) by {
        let a0 = if a < i { a } else { a + 1 };
        assert(t[a] == s[a0]);
    }
}

/// Counting a stop against one instance keeps the registry well formed.
pub proof fn lemma_wf_stop_update(s: Seq<InstanceView>, i: int)
    requires
        wf_instances(s),
        0 <= i < s.len(),
    ensures
        wf_instances(s.update(i, with_stop_counted(s[i]))),
{
    let upd = with_stop_counted(s[i]);
    let t = s.update(i, upd);
    assert(upd.workspace == s[i].workspace && upd.server_name == s[i].server_name);
    assert forall|a: int, b: int| 0 <= a < b < t.len() implies !(t[a].workspace == t[b].workspace
        && t[a].server_name == t[b].server_name) by {
        assert(s[a].workspace == t[a].workspace && s[a].server_name == t[a].server_name);
        assert(s[b].workspace == t[b].workspace && s[b].server_name == t[b].server_name);
    }
    assert forall|a: int| 0 <= a < t.len() implies files_unique(t[a].files) by {
        if a == i {
            assert(t[a].files == s[i].files);
        } else {
            assert(t[a] == s[a]);
        }
    }
}

/// The view of an optional override path.
pub open spec fn opt_str_view(o: Option<&str>) -> Option<Seq<char>> {
    match o {
        Some(p) => Some(p@),
        None => None,
    }
}

/// The server name a file-scoped start resolves: the last segment of an
/// explicit override path, else the name of the first descriptor handling
/// the file's extension.
pub open spec fn resolved_file_server(
    servers: Seq<ServerConfig>,
    ovr: Option<Seq<char>>,
    file: Seq<char>,
) -> Option<Seq<char>> {
    match ovr {
        Some(o) => Some(last_segment(o)),
        None => {
            let i = first_config_for_ext(servers, ext_of(file));
            if i == -1 {
                None
            } else {
                Some(servers[i].name@)
            }
        },
    }
}

/// The server name a workspace-scoped start resolves: the last segment of
/// an explicit override path, else the name of the first descriptor whose
/// marker files are present.
pub open spec fn resolved_workspace_server(
    servers: Seq<ServerConfig>,
    ovr: Option<Seq<char>>,
    markers: Seq<String>,
) -> Option<Seq<char>> {
    match ovr {
        Some(o) => Some(last_segment(o)),
        None => {
            let i = first_config_for_markers(servers, markers);
            if i == -1 {
                None
            } else {
                Some(servers[i].name@)
            }
        },
    }
}

/// What a file-scoped start decides.
pub enum FileStart {
    /// An instance for the key existed; the file was attached to it.
    Attached,
    /// No instance exists yet. The caller must spawn `server_name` with
    /// `args`, run the handshake, and report the outcome to
    /// `finish_start_for_file`.
    NeedsSpawn { server_name: String, args: Vec<String> },
}

/// What a workspace-scoped start decides.
pub enum WorkspaceStart {
    /// An instance for the key is already registered; nothing to do.
    AlreadyRunning,
    /// No instance exists yet. The caller must spawn `server_name` with
    /// `args`, run the handshake, and report the outcome to
    /// `finish_start_for_workspace`.
    NeedsSpawn { server_name: String, args: Vec<String> },
}

/// How the spawn-and-handshake step a start plan asked for went.
pub enum StartOutcome {
    /// Spawn and initialize both succeeded; the new process is reachable
    /// under this client handle.
    Started { client: u64 },
    /// Process creation failed; nothing runs.
    SpawnFailed,
    /// The process started but the initialize exchange failed; the caller
    /// must kill the process.
    HandshakeFailed,
}

/// Attaching a file keeps the registry well formed.
pub proof fn lemma_wf_attach_update(s: Seq<InstanceView>, i: int, f: Seq<char>)
    requires
        wf_instances(s),
        0 <= i < s.len(),
    ensures
        wf_instances(s.update(i, with_file_attached(s[i], f))),
{
    let upd = with_file_attached(s[i], f);
    let t = s.update(i, upd);
    assert forall|a: int, b: int| 0 <= a < b < t.len() implies !(t[a].workspace == t[b].workspace
        && t[a].server_name == t[b].server_name) by {
        assert(s[a].workspace == t[a].workspace && s[a].server_name == t[a].server_name);
        assert(s[b].workspace == t[b].workspace && s[b].server_name == t[b].server_name);
    }
    assert forall|a: int| 0 <= a < t.len() implies files_unique(t[a].files) by {
        if a == i {
            if !s[i].files.contains(f) {
                let fp = s[i].files.push(f);
                assert forall|x: int, y: int| 0 <= x < y < fp.len() implies fp[x] != fp[y] by {
                    if y < fp.len() - 1 {
                        assert(fp[x] == s[i].files[x] && fp[y] == s[i].files[y]);
                    } else {
                        assert(fp[y] == f);
                        assert(fp[x] == s[i].files[x]);
                        assert(s[i].files.contains(f) == false);
                        if fp[x] == f {
                            assert(s[i].files[x] == f);
                            assert(s[i].files.contains(f));
                        }
                    }
                }
            } else {
                assert(t[a].files == s[i].files);
            }
        } else {
            assert(t[a] == s[a]);
        }
    }
}

/// Inserting a record under a fresh key keeps the registry well formed.
pub proof fn lemma_wf_push(s: Seq<InstanceView>, nv: InstanceView)
    requires
        wf_instances(s),
        !has_key(s, nv.workspace, nv.server_name),
        files_unique(nv.files),
    ensures
        wf_instances(s.push(nv)),
{
    let t = s.push(nv);
    assert forall|a: int, b: int| 0 <= a < b < t.len() implies !(t[a].workspace == t[b].workspace
        && t[a].server_name == t[b].server_name) by {
        if b < t.len() - 1 {
            assert(t[a] == s[a] && t[b] == s[b]);
        } else {
            assert(t[b] == nv && t[a] == s[a]);
            if t[a].workspace == nv.workspace && t[a].server_name == nv.server_name {
                assert(key_is(s[a], nv.workspace, nv.server_name));
                assert(has_key(s, nv.workspace, nv.server_name));
            }
        }
    }
    assert forall|a: int| 0 <= a < t.len() implies files_unique(t[a].files) by {
        if a < t.len() - 1 {
            assert(t[a] == s[a]);
        } else {
            assert(t[a] == nv);
        }
    }
}

impl LspManager {
    /// Attach a file to the instance at `ki`: the count grows by one on
    /// every call; the file joins the set only when absent.
    fn attach_at(&mut self, ki: usize, file_path: &str)
        requires
            wf_instances(old(self)@),
            ki < old(self)@.len(),
            old(self)@[ki as int].ref_count < usize::MAX,
        ensures
            wf_instances(final(self)@),
            final(self)@ == old(self)@.update(
                ki as int,
                with_file_attached(old(self)@[ki as int], file_path@),
            ),
            final(self).registry == old(self).registry,
            final(self).settings == old(self).settings,
    {
        let fs = file_path.to_owned();
        let ghost s0 = self@;
        let mut inst = self.instances.remove(ki);
        assert(inst@ == s0[ki as int]) by {
            assert(old(self).instances@[ki as int]@ == s0[ki as int]);
        }
        inst.ref_count = inst.ref_count + 1;
        let ghost old_files = inst.files@;
        let present = contains_string(&inst.files, &fs);
        proof {
            lemma_has_string_contains(old_files, file_path@);
        }
        if !present {
            inst.files.push(fs);
            assert(inst.files@.map_values(|f: String| f@) =~= old_files.map_values(
                |f: String| f@,
            ).push(file_path@));
        }
        self.instances.insert(ki, inst);
        proof {
            assert(self@ =~= s0.update(ki as int, with_file_attached(s0[ki as int], file_path@)));
            lemma_wf_attach_update(s0, ki as int, file_path@);
        }
    }

    /// Resolve a server for `file_path` and either attach the file to the
    /// running instance for (workspace, server) or report that one must be
    /// spawned. An explicit override path takes precedence over the
    /// registry; with no override and no matching descriptor the file is
    /// rejected.
    pub fn start_lsp_for_file(
        &mut self,
        file_path: &str,
        workspace_path: &str,
        server_path_override: Option<&str>,
        server_args_override: Option<Vec<String>>,
    ) -> (r: Result<FileStart, LspError>)
        requires
            wf_instances(old(self)@),
            counts_below_max(old(self)@),
        ensures
            wf_instances(final(self)@),
            final(self).registry == old(self).registry,
            final(self).settings == old(self).settings,
            ({
                let resolved = resolved_file_server(
                    old(self).registry.servers@,
                    opt_str_view(server_path_override),
                    file_path@,
                );
                match r {
                    Err(e) => e is ResolutionError && resolved is None && final(self)@ == old(
                        self,
                    )@,
                    Ok(FileStart::Attached) => resolved matches Some(n) && has_key(
                        old(self)@,
                        workspace_path@,
                        n,
                    ) && final(self)@ == old(self)@.update(
                        key_index(old(self)@, workspace_path@, n),
                        with_file_attached(
                            old(self)@[key_index(old(self)@, workspace_path@, n)],
                            file_path@,
                        ),
                    ),
                    Ok(FileStart::NeedsSpawn { server_name, args }) => resolved matches Some(n) && {
                        &&& server_name@ == n
                        &&& !has_key(old(self)@, workspace_path@, n)
                        &&& final(self)@ == old(self)@
                        &&& args@ == (if server_path_override is Some {
                            match server_args_override {
                                Some(a) => a@,
                                None => Seq::<String>::empty(),
                            }
                        } else {
                            old(self).registry.servers@[first_config_for_ext(
                                old(self).registry.servers@,
                                ext_of(file_path@),
                            )].args@
                        })
                    },
                }
            }),
    {
        let (name, args): (String, Vec<String>) = match server_path_override {
            Some(o) => {
                let name = crate::text::last_segment_of(o);
                let args = match server_args_override {
                    Some(a) => a,
                    None => Vec::new(),
                };
                (name, args)
            },
            None => {
                let idx = match self.registry.find_server_for_file(file_path) {
                    Some(i) => i,
                    None => {
                        return Err(LspError::ResolutionError);
                    },
                };
                let name = self.registry.servers[idx].name.clone();
                let args = clone_strings(&self.registry.servers[idx].args);
                (name, args)
            },
        };
        let ws = workspace_path.to_owned();
        match self.find_key(&ws, &name) {
            Some(ki) => {
                proof {
                    lemma_key_index(self@, workspace_path@, name@);
                }
                self.attach_at(ki, file_path);
                Ok(FileStart::Attached)
            },
            None => {
                proof {
                    lemma_key_index(self@, workspace_path@, name@);
                }
                Ok(FileStart::NeedsSpawn { server_name: name, args })
            },
        }
    }

    /// Record the outcome of the spawn-and-handshake step a file-scoped
    /// start asked for. On success the new instance enters the registry
    /// with one reference and the file attached — unless a record for the
    /// key appeared meanwhile, in which case the file is attached to it
    /// and the spare client handle is returned for termination. On failure
    /// nothing is recorded and the failure is reported.
    pub fn finish_start_for_file(
        &mut self,
        file_path: &str,
        workspace_path: &str,
        server_name: &str,
        outcome: StartOutcome,
    ) -> (r: Result<Option<u64>, LspError>)
        requires
            wf_instances(old(self)@),
            counts_below_max(old(self)@),
        ensures
            wf_instances(final(self)@),
            final(self).registry == old(self).registry,
            final(self).settings == old(self).settings,
            match outcome {
                StartOutcome::Started { client } => {
                    if has_key(old(self)@, workspace_path@, server_name@) {
                        r == Ok::<Option<u64>, LspError>(Some(client)) && final(self)@ == old(
                            self,
                        )@.update(
                            key_index(old(self)@, workspace_path@, server_name@),
                            with_file_attached(
                                old(self)@[key_index(old(self)@, workspace_path@, server_name@)],
                                file_path@,
                            ),
                        )
                    } else {
                        r == Ok::<Option<u64>, LspError>(None) && final(self)@ == old(
                            self,
                        )@.push(
                            new_instance(
                                workspace_path@,
                                server_name@,
                                client,
                                1,
                                seq![file_path@],
                            ),
                        )
                    }
                },
                StartOutcome::SpawnFailed => r == Err::<Option<u64>, LspError>(
                    LspError::SpawnError,
                ) && final(self)@ == old(self)@,
                StartOutcome::HandshakeFailed => r == Err::<Option<u64>, LspError>(
                    LspError::HandshakeError,
                ) && final(self)@ == old(self)@,
            },
    {
        let client = match outcome {
            StartOutcome::Started { client } => client,
            StartOutcome::SpawnFailed => {
                return Err(LspError::SpawnError);
            },
            StartOutcome::HandshakeFailed => {
                return Err(LspError::HandshakeError);
            },
        };
        let ws = workspace_path.to_owned();
        let name = server_name.to_owned();
        match self.find_key(&ws, &name) {
            Some(ki) => {
                proof {
                    lemma_key_index(self@, workspace_path@, server_name@);
                }
                self.attach_at(ki, file_path);
                Ok(Some(client))
            },
            None => {
                proof {
                    lemma_key_index(self@, workspace_path@, server_name@);
                }
                let ghost s0 = self@;
                let mut files: Vec<String> = Vec::new();
                files.push(file_path.to_owned());
                let inst = LspInstance {
                    workspace: ws,
                    server_name: name,
                    client,
                    ref_count: 1,
                    files,
                };
                let ghost nv = new_instance(workspace_path@, server_name@, client, 1, seq![file_path@]);
                assert(inst@ =~= nv);
                self.instances.push(inst);
                proof {
                    assert(self@ =~= s0.push(nv));
                    lemma_wf_push(s0, nv);
                }
                Ok(None)
            },
        }
    }
}

/// The predicate "serves file `f` under server name `n`": the instance's
/// workspace root lies above the file and its server name matches.
pub open spec fn serve_pred(n: Seq<char>, f: Seq<char>) -> spec_fn(InstanceView) -> bool {
    |iv: InstanceView| is_path_prefix(iv.workspace, f) && iv.server_name == n
}

/// Index of the first instance serving `f` under server name `n`, or `-1`.
pub open spec fn serving_index(s: Seq<InstanceView>, n: Seq<char>, f: Seq<char>) -> int {
    first_where(s, serve_pred(n, f))
}

/// The client handle request dispatch resolves for a file: the file's
/// extension picks a descriptor; the first instance whose workspace root
/// lies above the file and whose server name is the descriptor's answers.
pub open spec fn spec_client_for_file(
    s: Seq<InstanceView>,
    servers: Seq<ServerConfig>,
    f: Seq<char>,
) -> Option<u64> {
    let ci = first_config_for_ext(servers, ext_of(f));
    if ci == -1 {
        None
    } else {
        let ii = serving_index(s, servers[ci].name@, f);
        if ii == -1 {
            None
        } else {
            Some(s[ii].client)
        }
    }
}

/// The records of `s` whose workspace root is not `w`, in order.
pub open spec fn without_workspace(s: Seq<InstanceView>, w: Seq<char>) -> Seq<InstanceView>
    decreases s.len(),
{
    if s.len() == 0 {
        Seq::empty()
    } else {
        let rest = without_workspace(s.drop_last(), w);
        if s.last().workspace == w {
            rest
        } else {
            rest.push(s.last())
        }
    }
}

/// The client handles of the records of `s` whose workspace root is `w`,
/// in order.
pub open spec fn workspace_clients(s: Seq<InstanceView>, w: Seq<char>) -> Seq<u64>
    decreases s.len(),
{
    if s.len() == 0 {
        Seq::empty()
    } else {
        let rest = workspace_clients(s.drop_last(), w);
        if s.last().workspace == w {
            rest.push(s.last().client)
        } else {
            rest
        }
    }
}

/// Keeping a subset of well-formed records keeps them well formed.
pub proof fn lemma_wf_without_workspace(s: Seq<InstanceView>, w: Seq<char>)
    requires
        wf_instances(s),
    ensures
        wf_instances(without_workspace(s, w)),
        forall|i: int|
            0 <= i < without_workspace(s, w).len() ==> #[trigger] without_workspace(
                s,
                w,
            )[i].workspace != w,
    decreases s.len(),
{
    if s.len() > 0 {
        let pre = s.drop_last();
        assert(wf_instances(pre)) by {
            assert(forall|i: int| 0 <= i < pre.len() ==> pre[i] == s[i]);
        }
        lemma_wf_without_workspace(pre, w);
        let rest = without_workspace(pre, w);
        if s.last().workspace != w {
            lemma_without_workspace_members(pre, w);
            let t = rest.push(s.last());
            assert forall|a: int, b: int| 0 <= a < b < t.len() implies !(t[a].workspace
                == t[b].workspace && t[a].server_name == t[b].server_name) by {
                if b == t.len() - 1 {
                    let a0 = choose|a0: int| 0 <= a0 < pre.len() && pre[a0] == rest[a];
                    assert(s[a0] == pre[a0]);
                    assert(t[b] == s[s.len() - 1]);
                }
            }
            assert forall|a: int| 0 <= a < t.len() implies files_unique(t[a].files) by {
                if a == t.len() - 1 {
                    assert(t[a] == s[s.len() - 1]);
                }
            }
        }
    }
}

/// Every kept record already stood in `s`.
pub proof fn lemma_without_workspace_members(s: Seq<InstanceView>, w: Seq<char>)
    ensures
        forall|i: int|
            0 <= i < without_workspace(s, w).len() ==> exists|j: int|
                0 <= j < s.len() && s[j] == #[trigger] without_workspace(s, w)[i],
    decreases s.len(),
{
    if s.len() > 0 {
        let pre = s.drop_last();
        lemma_without_workspace_members(pre, w);
        let rest = without_workspace(pre, w);
        assert forall|i: int| 0 <= i < without_workspace(s, w).len() implies exists|j: int|
            0 <= j < s.len() && s[j] == #[trigger] without_workspace(s, w)[i] by {
            if i < rest.len() {
                let j = choose|j: int| 0 <= j < pre.len() && pre[j] == rest[i];
                assert(s[j] == without_workspace(s, w)[i]);
            } else {
                assert(without_workspace(s, w)[i] == s[s.len() - 1]);
            }
        }
    }
}

impl LspManager {
    /// Resolve a server for a workspace and report whether one must be
    /// spawned. An explicit override path takes precedence; otherwise the
    /// descriptor is picked by the marker files the caller found in the
    /// workspace root. A start for a key that is already registered is a
    /// no-op success: workspace starts prewarm, they take no reference.
    pub fn start_lsp_for_workspace(
        &self,
        workspace_path: &str,
        markers_present: &Vec<String>,
        server_path_override: Option<&str>,
        server_args_override: Option<Vec<String>>,
    ) -> (r: Result<WorkspaceStart, LspError>)
        ensures
            ({
                let resolved = resolved_workspace_server(
                    self.registry.servers@,
                    opt_str_view(server_path_override),
                    markers_present@,
                );
                match r {
                    Err(e) => e is ResolutionError && resolved is None,
                    Ok(WorkspaceStart::AlreadyRunning) => resolved matches Some(n) && has_key(
                        self@,
                        workspace_path@,
                        n,
                    ),
                    Ok(WorkspaceStart::NeedsSpawn { server_name, args }) => resolved matches Some(
                        n,
                    ) && {
                        &&& server_name@ == n
                        &&& !has_key(self@, workspace_path@, n)
                        &&& args@ == (if server_path_override is Some {
                            match server_args_override {
                                Some(a) => a@,
                                None => Seq::<String>::empty(),
                            }
                        } else {
                            self.registry.servers@[first_config_for_markers(
                                self.registry.servers@,
                                markers_present@,
                            )].args@
                        })
                    },
                }
            }),
    {
        let (name, args): (String, Vec<String>) = match server_path_override {
            Some(o) => {
                let name = crate::text::last_segment_of(o);
                let args = match server_args_override {
                    Some(a) => a,
                    None => Vec::new(),
                };
                (name, args)
            },
            None => {
                let idx = match self.registry.find_server_for_workspace(markers_present) {
                    Some(i) => i,
                    None => {
                        return Err(LspError::ResolutionError);
                    },
                };
                let name = self.registry.servers[idx].name.clone();
                let args = clone_strings(&self.registry.servers[idx].args);
                (name, args)
            },
        };
        let ws = workspace_path.to_owned();
        match self.find_key(&ws, &name) {
            Some(_) => {
                proof {
                    lemma_key_index(self@, workspace_path@, name@);
                }
                Ok(WorkspaceStart::AlreadyRunning)
            },
            None => {
                proof {
                    lemma_key_index(self@, workspace_path@, name@);
                }
                Ok(WorkspaceStart::NeedsSpawn { server_name: name, args })
            },
        }
    }

    /// Record the outcome of the spawn-and-handshake step a
    /// workspace-scoped start asked for. On success the instance enters
    /// the registry with reference count zero and no files — prewarming
    /// only — unless a record for the key appeared meanwhile, in which
    /// case nothing changes and the spare client handle is returned for
    /// termination. On failure nothing is recorded.
    pub fn finish_start_for_workspace(
        &mut self,
        workspace_path: &str,
        server_name: &str,
        outcome: StartOutcome,
    ) -> (r: Result<Option<u64>, LspError>)
        requires
            wf_instances(old(self)@),
        ensures
            wf_instances(final(self)@),
            final(self).registry == old(self).registry,
            final(self).settings == old(self).settings,
            match outcome {
                StartOutcome::Started { client } => {
                    if has_key(old(self)@, workspace_path@, server_name@) {
                        r == Ok::<Option<u64>, LspError>(Some(client)) && final(self)@ == old(
                            self,
                        )@
                    } else {
                        r == Ok::<Option<u64>, LspError>(None) && final(self)@ == old(
                            self,
                        )@.push(
                            new_instance(
                                workspace_path@,
                                server_name@,
                                client,
                                0,
                                Seq::empty(),
                            ),
                        )
                    }
                },
                StartOutcome::SpawnFailed => r == Err::<Option<u64>, LspError>(
                    LspError::SpawnError,
                ) && final(self)@ == old(self)@,
                StartOutcome::HandshakeFailed => r == Err::<Option<u64>, LspError>(
                    LspError::HandshakeError,
                ) && final(self)@ == old(self)@,
            },
    {
        let client = match outcome {
            StartOutcome::Started { client } => client,
            StartOutcome::SpawnFailed => {
                return Err(LspError::SpawnError);
            },
            StartOutcome::HandshakeFailed => {
                return Err(LspError::HandshakeError);
            },
        };
        let ws = workspace_path.to_owned();
        let name = server_name.to_owned();
        match self.find_key(&ws, &name) {
            Some(_) => {
                proof {
                    lemma_key_index(self@, workspace_path@, server_name@);
                }
                Ok(Some(client))
            },
            None => {
                proof {
                    lemma_key_index(self@, workspace_path@, server_name@);
                }
                let ghost s0 = self@;
                let inst = LspInstance {
                    workspace: ws,
                    server_name: name,
                    client,
                    ref_count: 0,
                    files: Vec::new(),
                };
                let ghost nv = new_instance(
                    workspace_path@,
                    server_name@,
                    client,
                    0,
                    Seq::empty(),
                );
                assert(inst@ =~= nv);
                self.instances.push(inst);
                proof {
                    assert(self@ =~= s0.push(nv));
                    lemma_wf_push(s0, nv);
                }
                Ok(None)
            },
        }
    }

    /// The client handle serving `file_path`, if a descriptor matches the
    /// file and an instance of that server runs in a workspace above it.
    pub fn get_client_for_file(&self, file_path: &str) -> (r: Option<u64>)
        ensures
            r == spec_client_for_file(self@, self.registry.servers@, file_path@),
    {
        let ci = match self.registry.find_server_for_file(file_path) {
            Some(i) => i,
            None => {
                return None;
            },
        };
        let name = &self.registry.servers[ci].name;
        let f = chars_of(file_path);
        let mut i: usize = 0;
        let len = self.instances.len();
        while i < len
            invariant
                i <= len,
                len == self@.len(),
                len == self.instances@.len(),
                self@ == self.instances@.map_values(|inst: LspInstance| inst@),
                f@ == file_path@,
                ci < self.registry.servers@.len(),
                name@ == self.registry.servers@[ci as int].name@,
                first_config_for_ext(self.registry.servers@, ext_of(file_path@)) == ci as int,
                forall|j: int|
                    0 <= j < i ==> !(is_path_prefix(self@[j].workspace, file_path@)
                        && self@[j].server_name == name@),
            decreases len - i,
        {
            assert(self@[i as int] == self.instances@[i as int]@);
            let ws_chars = chars_of(self.instances[i].workspace.as_str());
            if crate::text::path_prefix_chars(&ws_chars, &f) && self.instances[i].server_name.eq(
                name,
            ) {
                proof {
                    let p = serve_pred(name@, file_path@);
                    assert forall|j: int| 0 <= j <= i implies p(self@[j]) == (is_path_prefix(
                        self@[j].workspace,
                        file_path@,
                    ) && self@[j].server_name == name@) by {}
                    lemma_first_where_is(self@, p, i as int);
                }
                return Some(self.instances[i].client);
            }
            i = i + 1;
        }
        proof {
            let p = serve_pred(name@, file_path@);
            assert forall|j: int| 0 <= j < self@.len() implies !p(self@[j]) by {
                assert(!(is_path_prefix(self@[j].workspace, file_path@) && self@[j].server_name
                    == name@));
            }
            lemma_first_where_none(self@, p);
        }
        None
    }

    /// The client handle for `file_path`, or the error request dispatch
    /// reports when no running instance serves the file.
    pub fn require_client_for_file(&self, file_path: &str) -> (r: Result<u64, LspError>)
        ensures
            match r {
                Ok(c) => spec_client_for_file(self@, self.registry.servers@, file_path@) == Some(
                    c,
                ),
                Err(e) => e is NoActiveInstance && spec_client_for_file(
                    self@,
                    self.registry.servers@,
                    file_path@,
                ) is None,
            },
    {
        match self.get_client_for_file(file_path) {
            Some(c) => Ok(c),
            None => Err(LspError::NoActiveInstance),
        }
    }

    /// Remove every instance whose workspace root is exactly
    /// `workspace_path`, whatever its reference count, and return their
    /// client handles for termination. Closing a workspace overrides the
    /// reference-count protocol.
    pub fn shutdown_workspace(&mut self, workspace_path: &str) -> (r: Result<Vec<u64>, LspError>)
        requires
            wf_instances(old(self)@),
        ensures
            wf_instances(final(self)@),
            final(self)@ == without_workspace(old(self)@, workspace_path@),
            forall|i: int| 0 <= i < final(self)@.len() ==> final(self)@[i].workspace != workspace_path@,
            r matches Ok(kills) && kills@ == workspace_clients(old(self)@, workspace_path@),
            final(self).registry == old(self).registry,
            final(self).settings == old(self).settings,
    {
        let ws = workspace_path.to_owned();
        let ghost s0 = self@;
        let mut kills: Vec<u64> = Vec::new();
        let mut i: usize = 0;
        let ghost k: int = 0;
        assert(s0.subrange(0, 0) =~= Seq::<InstanceView>::empty());
        while i < self.instances.len()
            invariant
                0 <= i <= self.instances@.len(),
                0 <= k <= s0.len(),
                i == without_workspace(s0.subrange(0, k), workspace_path@).len(),
                ws@ == workspace_path@,
                self@ == self.instances@.map_values(|inst: LspInstance| inst@),
                self@ =~= without_workspace(s0.subrange(0, k), workspace_path@) + s0.subrange(
                    k,
                    s0.len() as int,
                ),
                kills@ == workspace_clients(s0.subrange(0, k), workspace_path@),
                self.registry == old(self).registry,
                self.settings == old(self).settings,
            decreases s0.len() - k,
        {
            assert(self@[i as int] == s0[k]) by {
                assert(self@[i as int] == s0.subrange(k, s0.len() as int)[0]);
            }
            assert(s0.subrange(0, k + 1).drop_last() =~= s0.subrange(0, k));
            assert(s0.subrange(0, k + 1).last() == s0[k]);
            let ghost pre = self@;
            let ghost kept = without_workspace(s0.subrange(0, k), workspace_path@);
            if self.instances[i].workspace.eq(&ws) {
                let inst = self.instances.remove(i);
                kills.push(inst.client);
                proof {
                    assert(s0[k].workspace == workspace_path@);
                    assert(without_workspace(s0.subrange(0, k + 1), workspace_path@) == kept);
                    assert forall|j: int| 0 <= j < self@.len() implies self@[j] == (kept
                        + s0.subrange(k + 1, s0.len() as int))[j] by {
                        if j < i {
                            assert(self@[j] == pre[j]);
                            assert(pre[j] == kept[j]);
                        } else {
                            assert(self@[j] == pre[j + 1]);
                            assert(0 <= j + 1 < pre.len());
                            assert(pre == kept + s0.subrange(k, s0.len() as int));
                            assert(kept.len() == i as int);
                            assert(pre[j + 1] == (kept + s0.subrange(k, s0.len() as int))[j + 1]);
                            assert(pre[j + 1] == s0.subrange(k, s0.len() as int)[j + 1 - i]);
                            assert(s0.subrange(k, s0.len() as int)[j + 1 - i] == s0[k + 1 + (j
                                - i)]);
                            assert((kept + s0.subrange(k + 1, s0.len() as int))[j] == s0.subrange(
                                k + 1,
                                s0.len() as int,
                            )[j - i]);
                        }
                    }
                    assert(self@ =~= without_workspace(s0.subrange(0, k + 1), workspace_path@)
                        + s0.subrange(k + 1, s0.len() as int));
                    k = k + 1;
                }
            } else {
                proof {
                    assert(s0[k].workspace != workspace_path@);
                    assert(without_workspace(s0.subrange(0, k + 1), workspace_path@) == kept.push(
                        s0[k],
                    ));
                    assert forall|j: int| 0 <= j < self@.len() implies self@[j] == (kept.push(
                        s0[k],
                    ) + s0.subrange(k + 1, s0.len() as int))[j] by {
                        if j < i {
                            assert(pre[j] == kept[j]);
                        } else if j == i {
                            assert(pre[j] == s0.subrange(k, s0.len() as int)[0]);
                        } else {
                            assert(pre[j] == s0.subrange(k, s0.len() as int)[j - i]);
                            assert(s0.subrange(k, s0.len() as int)[j - i] == s0[k + (j - i)]);
                        }
                    }
                    assert(self@ =~= without_workspace(s0.subrange(0, k + 1), workspace_path@)
                        + s0.subrange(k + 1, s0.len() as int));
                    k = k + 1;
                }
                i = i + 1;
            }
        }
        proof {
            assert(k == s0.len());
            assert(s0.subrange(0, s0.len() as int) =~= s0);
            assert(self@ =~= without_workspace(s0, workspace_path@));
            lemma_wf_without_workspace(s0, workspace_path@);
        }
        Ok(kills)
    }

    /// Remove every instance and return all client handles for
    /// termination; run once at process exit.
    pub fn shutdown(&mut self) -> (r: Vec<u64>)
        ensures
            final(self)@.len() == 0,
            r@.len() == old(self)@.len(),
            forall|i: int| 0 <= i < r@.len() ==> r@[i] == old(self)@[i].client,
            final(self).registry == old(self).registry,
            final(self).settings == old(self).settings,
    {
        let ghost s0 = self@;
        let mut kills: Vec<u64> = Vec::new();
        while self.instances.len() > 0
            invariant
                kills@.len() + self.instances@.len() == s0.len(),
                self@ == self.instances@.map_values(|inst: LspInstance| inst@),
                forall|j: int| 0 <= j < kills@.len() ==> kills@[j] == s0[j].client,
                forall|j: int|
                    0 <= j < self.instances@.len() ==> self@[j] == s0[kills@.len() + j],
                self.registry == old(self).registry,
                self.settings == old(self).settings,
            decreases self.instances@.len(),
        {
            assert(self@[0] == self.instances@[0]@);
            let ghost pre = self@;
            let ghost done = kills@.len() as int;
            let inst = self.instances.remove(0);
            assert(inst@ == pre[0]);
            assert(pre[0] == s0[done]);
            kills.push(inst.client);
            proof {
                assert forall|j: int| 0 <= j < self.instances@.len() implies self@[j] == s0[
                    kills@.len() + j
                ] by {
                    assert(self@[j] == pre[j + 1]);
                }
            }
        }
        kills
    }

    /// The protocol language identifier for a file, by its extension.
    pub fn get_language_id_for_file(&self, file_path: &str) -> (r: String)
        ensures
            r@ == language_id_of_ext(ext_of(file_path@)),
    {
        let v = chars_of(file_path);
        let e = crate::text::extension_of_chars(&v);
        language_id_for_ext(&e)
    }

    /// Cut a completion list to the configured maximum: the front of the
    /// list survives, items past the cap are discarded, never an error.
    pub fn cap_completions(&self, items: Vec<lsp_types::CompletionItem>) -> (r: Vec<
        lsp_types::CompletionItem,
    >)
        ensures
            r@.len() <= self.settings.max_completion_items,
            r@ == (if items@.len() <= self.settings.max_completion_items {
                items@
            } else {
                items@.subrange(0, self.settings.max_completion_items as int)
            }),
    {
        let mut items = items;
        if items.len() > self.settings.max_completion_items {
            items.truncate(self.settings.max_completion_items);
        }
        items
    }
}

/// Completion items flow through the manager uninspected; the caller
/// builds them from server responses.
#[verifier::external_type_specification]
#[verifier::external_body]
pub struct ExCompletionItem(lsp_types::CompletionItem);

/// Pushing an element makes a sequence contain exactly the old contents
/// and the new element.
pub proof fn lemma_push_contains(files: Seq<Seq<char>>, f: Seq<char>, g: Seq<char>)
    ensures
        files.push(f).contains(g) <==> (g == f || files.contains(g)),
{
    let fp = files.push(f);
    if fp.contains(g) {
        let k = choose|k: int| 0 <= k < fp.len() && fp[k] == g;
        if k < files.len() {
            assert(files[k] == g);
        }
    }
    if files.contains(g) {
        let k = choose|k: int| 0 <= k < files.len() && files[k] == g;
        assert(fp[k] == g);
    }
    if g == f {
        assert(fp[fp.len() - 1] == g);
    }
}

/// Starting a file on a fresh key and then stopping that file returns the
/// registry to its previous state: no record for the key remains, and the
/// client spawned for it is handed back for termination. No instance
/// leaks.
pub proof fn lemma_start_then_stop_leaves_no_record(
    s: Seq<InstanceView>,
    w: Seq<char>,
    n: Seq<char>,
    c: u64,
    f: Seq<char>,
)
    requires
        wf_instances(s),
        !has_key(s, w, n),
        !file_attached(s, f),
    ensures
        ({
            let s1 = s.push(new_instance(w, n, c, 1, seq![f]));
            let after = stop_transition(s1, f);
            &&& after.0 =~= s
            &&& after.1 == Some(c)
            &&& !has_key(after.0, w, n)
        }),
{
    let nv = new_instance(w, n, c, 1, seq![f]);
    let s1 = s.push(nv);
    let last = s1.len() - 1;
    assert(nv.files.contains(f)) by {
        assert(nv.files[0] == f);
    }
    let p = file_pred(f);
    assert forall|j: int| 0 <= j < last implies !p(s1[j]) by {
        assert(s1[j] == s[j]);
        assert(!holds_file(s[j], f));
    }
    assert(p(s1[last]));
    lemma_first_where_is(s1, p, last);
    assert(file_index(s1, f) == last);
    let upd = with_stop_counted(s1[last]);
    assert(upd.ref_count == 0);
    assert(stop_transition(s1, f).0 == s1.remove(last));
    assert(s1.remove(last) =~= s);
    assert(stop_transition(s1, f).1 == Some(c));
}

/// Stopping a file attached nowhere changes nothing, and nothing is
/// terminated: a stray stop is a no-op, not an error.
pub proof fn lemma_stop_unattached_is_noop(s: Seq<InstanceView>, f: Seq<char>)
    requires
        !file_attached(s, f),
    ensures
        stop_transition(s, f).0 == s,
        stop_transition(s, f).1 is None,
{
    let p = file_pred(f);
    assert forall|j: int| 0 <= j < s.len() implies !p(s[j]) by {
        assert(!holds_file(s[j], f));
    }
    lemma_first_where_none(s, p);
}

/// Attaching a file that no other instance holds keeps every file in at
/// most one instance.
pub proof fn lemma_attach_preserves_disjoint(s: Seq<InstanceView>, i: int, f: Seq<char>)
    requires
        files_disjoint(s),
        0 <= i < s.len(),
        forall|j: int| 0 <= j < s.len() && j != i ==> !(#[trigger] s[j].files).contains(f),
    ensures
        files_disjoint(s.update(i, with_file_attached(s[i], f))),
{
    let t = s.update(i, with_file_attached(s[i], f));
    assert forall|a: int, b: int, g: Seq<char>|
        0 <= a < t.len() && 0 <= b < t.len() && a != b && #[trigger] t[a].files.contains(g)
            implies !(#[trigger] t[b].files.contains(g)) by {
        lemma_push_contains(s[i].files, f, g);
        if a == i {
            assert(s[a].files.contains(g) || g == f);
            if t[b].files.contains(g) {
                assert(s[b].files.contains(g));
                if g == f {
                    assert(!s[b].files.contains(f));
                } else {
                    assert(!s[b].files.contains(g));
                }
            }
        } else if b == i {
            assert(s[a].files.contains(g));
            if t[b].files.contains(g) {
                assert(s[b].files.contains(g) || g == f);
            }
        } else {
            assert(s[a].files.contains(g));
            assert(!s[b].files.contains(g));
        }
    }
}

/// Inserting a record none of whose files is attached elsewhere keeps
/// every file in at most one instance.
pub proof fn lemma_push_preserves_disjoint(s: Seq<InstanceView>, nv: InstanceView)
    requires
        files_disjoint(s),
        forall|g: Seq<char>| #[trigger] nv.files.contains(g) ==> !file_attached(s, g),
    ensures
        files_disjoint(s.push(nv)),
{
    let t = s.push(nv);
    let last = t.len() - 1;
    assert forall|a: int, b: int, g: Seq<char>|
        0 <= a < t.len() && 0 <= b < t.len() && a != b && #[trigger] t[a].files.contains(g)
            implies !(#[trigger] t[b].files.contains(g)) by {
        if a == last {
            if t[b].files.contains(g) {
                assert(s[b].files.contains(g));
                assert(holds_file(s[b], g));
                assert(file_attached(s, g));
            }
        } else if b == last {
            assert(s[a].files.contains(g));
            assert(holds_file(s[a], g));
            assert(file_attached(s, g));
            if t[b].files.contains(g) {
                assert(!file_attached(s, g));
            }
        } else {
            assert(s[a].files.contains(g));
            assert(!s[b].files.contains(g));
        }
    }
}

/// Stopping a file keeps every file in at most one instance.
pub proof fn lemma_stop_preserves_disjoint(s: Seq<InstanceView>, f: Seq<char>)
    requires
        files_disjoint(s),
    ensures
        files_disjoint(stop_transition(s, f).0),
{
    let i = file_index(s, f);
    lemma_first_where(s, file_pred(f));
    if i != -1 {
        let upd = with_stop_counted(s[i]);
        if upd.ref_count == 0 {
            let t = s.remove(i);
            assert forall|a: int, b: int, g: Seq<char>|
                0 <= a < t.len() && 0 <= b < t.len() && a != b && #[trigger] t[a].files.contains(g)
                    implies !(#[trigger] t[b].files.contains(g)) by {
                let a0 = if a < i { a } else { a + 1 };
                let b0 = if b < i { b } else { b + 1 };
                assert(t[a] == s[a0] && t[b] == s[b0]);
            }
        } else {
            let t = s.update(i, upd);
            assert(t[i].files == s[i].files);
            assert forall|a: int, b: int, g: Seq<char>|
                0 <= a < t.len() && 0 <= b < t.len() && a != b && #[trigger] t[a].files.contains(g)
                    implies !(#[trigger] t[b].files.contains(g)) by {
                assert(t[a].files == s[a].files);
                assert(t[b].files == s[b].files);
                assert(s[a].files.contains(g));
                assert(!s[b].files.contains(g));
            }
        }
    }
}

/// Closing a workspace keeps every file in at most one instance.
pub proof fn lemma_shutdown_workspace_preserves_disjoint(s: Seq<InstanceView>, w: Seq<char>)
    requires
        wf_instances(s),
        files_disjoint(s),
    ensures
        files_disjoint(without_workspace(s, w)),
{
    let t = without_workspace(s, w);
    lemma_wf_without_workspace(s, w);
    lemma_without_workspace_members(s, w);
    assert forall|a: int, b: int, g: Seq<char>|
        0 <= a < t.len() && 0 <= b < t.len() && a != b && #[trigger] t[a].files.contains(g)
            implies !(#[trigger] t[b].files.contains(g)) by {
        let ja = choose|j: int| 0 <= j < s.len() && s[j] == t[a];
        let jb = choose|j: int| 0 <= j < s.len() && s[j] == t[b];
        if ja == jb {
            // two kept positions with one source would repeat a key,
            // which well-formedness of the kept records forbids
            assert(t[a] == t[b]);
            if a < b {
                assert(!(t[a].workspace == t[b].workspace && t[a].server_name
                    == t[b].server_name));
            } else {
                assert(!(t[b].workspace == t[a].workspace && t[b].server_name
                    == t[a].server_name));
            }
        } else {
            assert(s[ja].files.contains(g));
            assert(!s[jb].files.contains(g));
        }
    }
}

/// A client handle is returned exactly when some descriptor matches the
/// file's extension and some live instance carries that descriptor's
/// server name with its workspace root above the file.
pub proof fn lemma_client_for_file_iff(
    s: Seq<InstanceView>,
    servers: Seq<ServerConfig>,
    f: Seq<char>,
)
    ensures
        spec_client_for_file(s, servers, f) is Some <==> ({
            let ci = first_config_for_ext(servers, ext_of(f));
            ci >= 0 && exists|i: int|
                0 <= i < s.len() && is_path_prefix(#[trigger] s[i].workspace, f) && s[i].server_name
                    == servers[ci].name@
        }),
        spec_client_for_file(s, servers, f) matches Some(c) ==> exists|i: int|
            0 <= i < s.len() && is_path_prefix(#[trigger] s[i].workspace, f) && s[i].server_name
                == servers[first_config_for_ext(servers, ext_of(f))].name@ && s[i].client == c,
{
    let ci = first_config_for_ext(servers, ext_of(f));
    crate::seqs::lemma_first_where(servers, crate::registry::ext_pred(ext_of(f)));
    if ci >= 0 {
        let n = servers[ci].name@;
        let p = serve_pred(n, f);
        lemma_first_where(s, p);
        let ii = serving_index(s, n, f);
        if ii >= 0 {
            assert(p(s[ii]));
            assert(is_path_prefix(s[ii].workspace, f) && s[ii].server_name == n);
        } else {
            assert forall|i: int|
                0 <= i < s.len() implies !(is_path_prefix(#[trigger] s[i].workspace, f)
                && s[i].server_name == n) by {
                assert(!p(s[i]));
            }
        }
    }
}

pub proof fn lemma_file_index(s: Seq<InstanceView>, f: Seq<char>)
    ensures
        file_attached(s, f) <==> file_index(s, f) >= 0,
        file_index(s, f) >= 0 ==> file_index(s, f) < s.len() && holds_file(s[file_index(s, f)], f),
{
    let p = file_pred(f);
    lemma_first_where(s, p);
    if file_index(s, f) >= 0 {
        assert(p(s[file_index(s, f)]));
        assert(file_attached(s, f));
    }
    if file_attached(s, f) {
        let i = choose|i: int| 0 <= i < s.len() && holds_file(s[i], f);
        assert(p(s[i]));
        if first_where(s, p) == -1 {
            assert(!p(s[i]));
        }
    }
}

impl LspManager {
    /// Number of live instances.
    pub fn instance_count(&self) -> (r: usize)
        ensures
            r == self@.len(),
    {
        self.instances.len()
    }

    /// Whether an instance is registered under (`workspace_path`,
    /// `server_name`).
    pub fn has_instance(&self, workspace_path: &str, server_name: &str) -> (r: bool)
        ensures
            r == has_key(self@, workspace_path@, server_name@),
    {
        let ws = workspace_path.to_owned();
        let name = server_name.to_owned();
        let found = self.find_key(&ws, &name);
        proof {
            lemma_key_index(self@, workspace_path@, server_name@);
        }
        match found {
            Some(_) => true,
            None => false,
        }
    }

    /// The reference count of the instance under the key, if one runs.
    pub fn ref_count_of(&self, workspace_path: &str, server_name: &str) -> (r: Option<usize>)
        ensures
            match r {
                Some(c) => has_key(self@, workspace_path@, server_name@) && c as nat == self@[
                    key_index(self@, workspace_path@, server_name@)
                ].ref_count,
                None => !has_key(self@, workspace_path@, server_name@),
            },
    {
        let ws = workspace_path.to_owned();
        let name = server_name.to_owned();
        let found = self.find_key(&ws, &name);
        proof {
            lemma_key_index(self@, workspace_path@, server_name@);
        }
        match found {
            Some(i) => {
                assert(self@[i as int] == self.instances@[i as int]@);
                Some(self.instances[i].ref_count)
            },
            None => None,
        }
    }

    /// The client handle of the instance under the key, if one runs.
    pub fn client_of(&self, workspace_path: &str, server_name: &str) -> (r: Option<u64>)
        ensures
            match r {
                Some(c) => has_key(self@, workspace_path@, server_name@) && c == self@[key_index(
                    self@,
                    workspace_path@,
                    server_name@,
                )].client,
                None => !has_key(self@, workspace_path@, server_name@),
            },
    {
        let ws = workspace_path.to_owned();
        let name = server_name.to_owned();
        let found = self.find_key(&ws, &name);
        proof {
            lemma_key_index(self@, workspace_path@, server_name@);
        }
        match found {
            Some(i) => {
                assert(self@[i as int] == self.instances@[i as int]@);
                Some(self.instances[i].client)
            },
            None => None,
        }
    }

    /// How many files are attached to the instance under the key, if one
    /// runs.
    pub fn attached_file_count(&self, workspace_path: &str, server_name: &str) -> (r: Option<
        usize,
    >)
        ensures
            match r {
                Some(c) => has_key(self@, workspace_path@, server_name@) && c as nat == self@[
                    key_index(self@, workspace_path@, server_name@)
                ].files.len(),
                None => !has_key(self@, workspace_path@, server_name@),
            },
    {
        let ws = workspace_path.to_owned();
        let name = server_name.to_owned();
        let found = self.find_key(&ws, &name);
        proof {
            lemma_key_index(self@, workspace_path@, server_name@);
        }
        match found {
            Some(i) => {
                assert(self@[i as int] == self.instances@[i as int]@);
                Some(self.instances[i].files.len())
            },
            None => None,
        }
    }

    /// Whether every reference count has room for one more attach; the
    /// start operations ask their callers for this.
    pub fn counts_have_room(&self) -> (r: bool)
        ensures
            r == counts_below_max(self@),
    {
        let mut i: usize = 0;
        let len = self.instances.len();
        while i < len
            invariant
                i <= len,
                len == self@.len(),
                len == self.instances@.len(),
                self@ == self.instances@.map_values(|inst: LspInstance| inst@),
                forall|j: int| 0 <= j < i ==> #[trigger] self@[j].ref_count < usize::MAX,
            decreases len - i,
        {
            assert(self@[i as int] == self.instances@[i as int]@);
            if self.instances[i].ref_count == usize::MAX {
                return false;
            }
            i = i + 1;
        }
        true
    }

    /// Whether `file_path` is attached to some instance.
    pub fn is_file_attached(&self, file_path: &str) -> (r: bool)
        ensures
            r == file_attached(self@, file_path@),
    {
        let fs = file_path.to_owned();
        let found = self.find_file(&fs);
        proof {
            lemma_file_index(self@, file_path@);
        }
        match found {
            Some(_) => true,
            None => false,
        }
    }
}

impl LspManager {
    /// Resolve the client serving `file_path` and build the document-open
    /// notification: the whole document, under the protocol language
    /// identifier its extension maps to, at version 1.
    pub fn notify_document_open(&self, file_path: &str, content: String) -> (r: Result<
        (u64, DidOpenParams),
        LspError,
    >)
        ensures
            match r {
                Ok((c, p)) => {
                    &&& spec_client_for_file(self@, self.registry.servers@, file_path@) == Some(c)
                    &&& p.uri@ == "file://"@ + file_path@
                    &&& p.language_id@ == language_id_of_ext(ext_of(file_path@))
                    &&& p.version == 1
                    &&& p.text == content
                },
                Err(e) => e is NoActiveInstance && spec_client_for_file(
                    self@,
                    self.registry.servers@,
                    file_path@,
                ) is None,
            },
    {
        let client = match self.get_client_for_file(file_path) {
            Some(c) => c,
            None => {
                return Err(LspError::NoActiveInstance);
            },
        };
        let uri = file_uri(file_path);
        let language_id = self.get_language_id_for_file(file_path);
        Ok((client, DidOpenParams { uri, language_id, version: 1, text: content }))
    }

    /// Resolve the client serving `file_path` and build the
    /// document-change notification: the whole document replaces the old
    /// text under the caller's version number.
    pub fn notify_document_change(&self, file_path: &str, content: String, version: i32) -> (r:
        Result<(u64, DidChangeParams), LspError>)
        ensures
            match r {
                Ok((c, p)) => {
                    &&& spec_client_for_file(self@, self.registry.servers@, file_path@) == Some(c)
                    &&& p.uri@ == "file://"@ + file_path@
                    &&& p.version == version
                    &&& p.full_text == content
                },
                Err(e) => e is NoActiveInstance && spec_client_for_file(
                    self@,
                    self.registry.servers@,
                    file_path@,
                ) is None,
            },
    {
        let client = match self.get_client_for_file(file_path) {
            Some(c) => c,
            None => {
                return Err(LspError::NoActiveInstance);
            },
        };
        let uri = file_uri(file_path);
        Ok((client, DidChangeParams { uri, version, full_text: content }))
    }

    /// Resolve the client serving `file_path` and build the
    /// document-close notification.
    pub fn notify_document_close(&self, file_path: &str) -> (r: Result<
        (u64, DidCloseParams),
        LspError,
    >)
        ensures
            match r {
                Ok((c, p)) => {
                    &&& spec_client_for_file(self@, self.registry.servers@, file_path@) == Some(c)
                    &&& p.uri@ == "file://"@ + file_path@
                },
                Err(e) => e is NoActiveInstance && spec_client_for_file(
                    self@,
                    self.registry.servers@,
                    file_path@,
                ) is None,
            },
    {
        let client = match self.get_client_for_file(file_path) {
            Some(c) => c,
            None => {
                return Err(LspError::NoActiveInstance);
            },
        };
        let uri = file_uri(file_path);
        Ok((client, DidCloseParams { uri }))
    }

    /// Resolve the client serving `file_path` and build the completion
    /// request for a zero-based document position. The caller sends it and
    /// hands the returned list to `cap_completions`.
    pub fn completion_request(&self, file_path: &str, line: u32, character: u32) -> (r: Result<
        (u64, CompletionRequestParams),
        LspError,
    >)
        ensures
            match r {
                Ok((c, p)) => {
                    &&& spec_client_for_file(self@, self.registry.servers@, file_path@) == Some(c)
                    &&& p.uri@ == "file://"@ + file_path@
                    &&& p.line == line
                    &&& p.character == character
                },
                Err(e) => e is NoActiveInstance && spec_client_for_file(
                    self@,
                    self.registry.servers@,
                    file_path@,
                ) is None,
            },
    {
        let client = match self.get_client_for_file(file_path) {
            Some(c) => c,
            None => {
                return Err(LspError::NoActiveInstance);
            },
        };
        let uri = file_uri(file_path);
        Ok((client, CompletionRequestParams { uri, line, character }))
    }

    /// Resolve the client serving `file_path` and build the hover request
    /// for a zero-based document position.
    pub fn hover_request(&self, file_path: &str, line: u32, character: u32) -> (r: Result<
        (u64, HoverRequestParams),
        LspError,
    >)
        ensures
            match r {
                Ok((c, p)) => {
                    &&& spec_client_for_file(self@, self.registry.servers@, file_path@) == Some(c)
                    &&& p.uri@ == "file://"@ + file_path@
                    &&& p.line == line
                    &&& p.character == character
                },
                Err(e) => e is NoActiveInstance && spec_client_for_file(
                    self@,
                    self.registry.servers@,
                    file_path@,
                ) is None,
            },
    {
        let client = match self.get_client_for_file(file_path) {
            Some(c) => c,
            None => {
                return Err(LspError::NoActiveInstance);
            },
        };
        let uri = file_uri(file_path);
        Ok((client, HoverRequestParams { uri, line, character }))
    }
}

} // verus!
