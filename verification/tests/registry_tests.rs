use athas_core::lang::lsp_is_language_supported;
use athas_core::errors::LspError;
use athas_core::registry::{
    get_server_path, server_binary_name, LspRegistry, PathProbe, ServerConfig,
};

fn probe(
    global: Option<&str>,
    on_path: Option<&str>,
    local: Option<&str>,
    bundled: Option<&str>,
) -> PathProbe {
    PathProbe {
        global: global.map(str::to_string),
        on_path: on_path.map(str::to_string),
        local: local.map(str::to_string),
        bundled: bundled.map(str::to_string),
    }
}

#[test]
fn default_registry_serves_web_files() {
    let reg = LspRegistry::new();
    assert_eq!(reg.find_server_for_file("/w/a.ts"), Some(0));
    assert_eq!(reg.find_server_for_file("/w/a.tsx"), Some(0));
    assert_eq!(reg.find_server_for_file("/w/a.json"), Some(0));
    assert_eq!(reg.find_server_for_file("/w/a.py"), None);
    assert_eq!(reg.find_server_for_file("/w/Makefile"), None);
    // a dot that opens the file name is not an extension
    assert_eq!(reg.find_server_for_file("/w/.ts"), None);
}

#[test]
fn workspace_lookup_goes_by_marker_files() {
    let reg = LspRegistry::new();
    assert_eq!(
        reg.find_server_for_workspace(&vec!["package.json".to_string()]),
        Some(0)
    );
    assert_eq!(
        reg.find_server_for_workspace(&vec![
            "README.md".to_string(),
            "tsconfig.json".to_string()
        ]),
        Some(0)
    );
    assert_eq!(reg.find_server_for_workspace(&vec!["Cargo.toml".to_string()]), None);
    assert_eq!(reg.find_server_for_workspace(&vec![]), None);
}

#[test]
fn first_matching_descriptor_wins() {
    let mk = |name: &str, exts: &[&str]| ServerConfig {
        name: name.to_string(),
        args: vec![],
        extensions: exts.iter().map(|e| e.to_string()).collect(),
        workspace_markers: vec![],
    };
    let reg = LspRegistry::from_servers(vec![mk("alpha", &["ts"]), mk("beta", &["ts", "js"])]);
    assert_eq!(reg.find_server_for_file("a.ts"), Some(0));
    assert_eq!(reg.find_server_for_file("a.js"), Some(1));
    assert_eq!(reg.find_server_for_file("a.rs"), None);
}

#[test]
fn resolution_order_for_the_typescript_server() {
    let all = probe(Some("/g"), Some("/p"), Some("/l"), Some("/b"));
    assert_eq!(get_server_path("typescript", &all).unwrap(), "/g");
    let no_global = probe(None, Some("/p"), Some("/l"), Some("/b"));
    assert_eq!(get_server_path("typescript", &no_global).unwrap(), "/p");
    let local_only = probe(None, None, Some("/l"), Some("/b"));
    assert_eq!(get_server_path("typescript", &local_only).unwrap(), "/l");
    let bundled_only = probe(None, None, None, Some("/b"));
    assert_eq!(get_server_path("typescript", &bundled_only).unwrap(), "/b");
}

#[test]
fn other_servers_use_only_the_bundled_binary() {
    let all = probe(Some("/g"), Some("/p"), Some("/l"), Some("/b"));
    assert_eq!(get_server_path("gopls", &all).unwrap(), "/b");
    let nothing = probe(Some("/g"), Some("/p"), Some("/l"), None);
    let err = get_server_path("gopls", &nothing).unwrap_err();
    match &err {
        LspError::BinaryNotFound { server_name } => assert_eq!(server_name, "gopls"),
        other => panic!("wrong error: {:?}", other),
    }
    assert_eq!(
        err.message(),
        "language server 'gopls' not found; install it with: bun add -g typescript-language-server"
    );
}

#[test]
fn missing_binary_is_reported_with_its_name() {
    let nothing = probe(None, None, None, None);
    let err = get_server_path("typescript", &nothing).unwrap_err();
    assert!(matches!(err, LspError::BinaryNotFound { .. }));
}

#[test]
fn bundled_binaries_are_named_for_their_server() {
    assert_eq!(server_binary_name("typescript"), "typescript-language-server");
    assert_eq!(server_binary_name("gopls"), "gopls-language-server");
}

#[test]
fn supported_languages_are_a_closed_set() {
    for good in ["a.ts", "a.tsx", "a.js", "a.jsx", "a.mjs", "a.cjs", "a.json"] {
        assert!(lsp_is_language_supported(format!("/w/{}", good)), "{}", good);
    }
    for bad in ["a.py", "a.rs", "a", "a.", ".ts", "a.TS", "a.tsx.bak"] {
        assert!(!lsp_is_language_supported(format!("/w/{}", bad)), "{}", bad);
    }
}

#[test]
fn error_messages_are_actionable() {
    assert_eq!(
        LspError::ResolutionError.message(),
        "no language server matches this file or workspace"
    );
    assert_eq!(
        LspError::NoActiveInstance.message(),
        "no running language server instance for this file"
    );
    assert_eq!(
        LspError::SpawnError.message(),
        "failed to spawn the language server process"
    );
    assert_eq!(
        LspError::HandshakeError.message(),
        "language server failed to initialize"
    );
    assert_eq!(
        LspError::ProtocolError.message(),
        "malformed or unexpected language server message"
    );
}
