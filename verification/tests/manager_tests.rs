use athas_core::errors::LspError;
use athas_core::manager::{FileStart, LspManager, LspSettings, StartOutcome, WorkspaceStart};
use athas_core::registry::LspRegistry;

fn spawn_file(m: &mut LspManager, file: &str, ws: &str, client: u64) {
    match m.start_lsp_for_file(file, ws, None, None) {
        Ok(FileStart::NeedsSpawn { server_name, .. }) => {
            let r = m.finish_start_for_file(file, ws, &server_name, StartOutcome::Started {
                client,
            });
            assert_eq!(r.unwrap(), None);
        }
        other => panic!("expected a spawn plan, got {:?}", other.is_ok()),
    }
}

#[test]
fn start_then_stop_leaves_no_record() {
    let mut m = LspManager::new();
    let plan = m.start_lsp_for_file("/w/a.ts", "/w", None, None).unwrap();
    match plan {
        FileStart::NeedsSpawn { server_name, args } => {
            assert_eq!(server_name, "typescript");
            assert_eq!(args, vec!["--stdio".to_string()]);
            let r = m
                .finish_start_for_file("/w/a.ts", "/w", &server_name, StartOutcome::Started {
                    client: 7,
                })
                .unwrap();
            assert_eq!(r, None);
        }
        FileStart::Attached => panic!("no instance should exist yet"),
    }
    assert!(m.has_instance("/w", "typescript"));
    assert_eq!(m.ref_count_of("/w", "typescript"), Some(1));
    assert_eq!(m.attached_file_count("/w", "typescript"), Some(1));
    assert!(m.is_file_attached("/w/a.ts"));

    let killed = m.stop_lsp_for_file("/w/a.ts").unwrap();
    assert_eq!(killed, Some(7));
    assert!(!m.has_instance("/w", "typescript"));
    assert_eq!(m.instance_count(), 0);
}

#[test]
fn double_start_overcounts_single_file() {
    let mut m = LspManager::new();
    spawn_file(&mut m, "/w/a.ts", "/w", 1);
    // a second start for the same file reuses the instance and counts again
    let plan = m.start_lsp_for_file("/w/a.ts", "/w", None, None).unwrap();
    assert!(matches!(plan, FileStart::Attached));
    assert_eq!(m.ref_count_of("/w", "typescript"), Some(2));
    // the file set is deduplicated even though the count is not
    assert_eq!(m.attached_file_count("/w", "typescript"), Some(1));

    // one stop pays one count back; the file stays attached and the
    // instance stays live
    assert_eq!(m.stop_lsp_for_file("/w/a.ts").unwrap(), None);
    assert_eq!(m.ref_count_of("/w", "typescript"), Some(1));
    assert!(m.has_instance("/w", "typescript"));
    assert!(m.is_file_attached("/w/a.ts"));

    // the second stop balances the second start: the instance is removed
    // and its process handed back for termination
    assert_eq!(m.stop_lsp_for_file("/w/a.ts").unwrap(), Some(1));
    assert!(!m.has_instance("/w", "typescript"));
    assert_eq!(m.instance_count(), 0);
}

#[test]
fn stop_of_unattached_file_is_noop() {
    let mut m = LspManager::new();
    assert_eq!(m.stop_lsp_for_file("/w/a.ts").unwrap(), None);
    spawn_file(&mut m, "/w/a.ts", "/w", 3);
    assert_eq!(m.stop_lsp_for_file("/w/other.ts").unwrap(), None);
    assert_eq!(m.ref_count_of("/w", "typescript"), Some(1));
    assert_eq!(m.instance_count(), 1);
}

#[test]
fn shutdown_workspace_removes_all_languages_unconditionally() {
    let mut m = LspManager::new();
    // two languages under /w through explicit server overrides
    let plan = m
        .start_lsp_for_file("/w/a.ts", "/w", Some("/usr/bin/alpha-ls"), None)
        .unwrap();
    match plan {
        FileStart::NeedsSpawn { server_name, args } => {
            assert_eq!(server_name, "alpha-ls");
            assert!(args.is_empty());
            m.finish_start_for_file("/w/a.ts", "/w", "alpha-ls", StartOutcome::Started {
                client: 1,
            })
            .unwrap();
        }
        FileStart::Attached => panic!("fresh key"),
    }
    let plan = m
        .start_lsp_for_file("/w/b.ts", "/w", Some("/usr/bin/beta-ls"), None)
        .unwrap();
    match plan {
        FileStart::NeedsSpawn { server_name, .. } => {
            m.finish_start_for_file("/w/b.ts", "/w", &server_name, StartOutcome::Started {
                client: 2,
            })
            .unwrap();
        }
        FileStart::Attached => panic!("fresh key"),
    }
    // raise one count so the teardown demonstrably ignores it
    let plan = m.start_lsp_for_file("/w/a.ts", "/w", Some("/usr/bin/alpha-ls"), None);
    assert!(matches!(plan, Ok(FileStart::Attached)));
    assert_eq!(m.ref_count_of("/w", "alpha-ls"), Some(2));
    // a bystander in another workspace
    spawn_file(&mut m, "/x/c.ts", "/x", 9);

    let killed = m.shutdown_workspace("/w").unwrap();
    assert_eq!(killed, vec![1, 2]);
    assert!(!m.has_instance("/w", "alpha-ls"));
    assert!(!m.has_instance("/w", "beta-ls"));
    assert!(m.has_instance("/x", "typescript"));
    assert_eq!(m.instance_count(), 1);
}

#[test]
fn handshake_failure_leaves_no_record() {
    let mut m = LspManager::new();
    let plan = m.start_lsp_for_file("/w/a.ts", "/w", None, None).unwrap();
    let server_name = match plan {
        FileStart::NeedsSpawn { server_name, .. } => server_name,
        FileStart::Attached => panic!("fresh key"),
    };
    let r = m.finish_start_for_file("/w/a.ts", "/w", &server_name, StartOutcome::HandshakeFailed);
    assert!(matches!(r, Err(LspError::HandshakeError)));
    assert_eq!(m.instance_count(), 0);
    assert!(!m.has_instance("/w", "typescript"));

    let r = m.finish_start_for_file("/w/a.ts", "/w", &server_name, StartOutcome::SpawnFailed);
    assert!(matches!(r, Err(LspError::SpawnError)));
    assert_eq!(m.instance_count(), 0);
}

#[test]
fn request_after_removal_reports_no_active_instance() {
    let mut m = LspManager::new();
    spawn_file(&mut m, "/w/a.ts", "/w", 11);
    assert_eq!(m.get_client_for_file("/w/a.ts"), Some(11));
    assert_eq!(m.require_client_for_file("/w/a.ts").unwrap(), 11);

    assert_eq!(m.stop_lsp_for_file("/w/a.ts").unwrap(), Some(11));
    let r = m.require_client_for_file("/w/a.ts");
    assert!(matches!(r, Err(LspError::NoActiveInstance)));
}

#[test]
fn client_lookup_matches_prefix_and_server_name() {
    let mut m = LspManager::new();
    spawn_file(&mut m, "/w/a.ts", "/w", 5);
    // any supported file under the workspace reaches the same client
    assert_eq!(m.get_client_for_file("/w/src/deep/b.tsx"), Some(5));
    // a file elsewhere does not
    assert_eq!(m.get_client_for_file("/elsewhere/c.ts"), None);
    // a prefix must end at a path boundary
    assert_eq!(m.get_client_for_file("/wider/c.ts"), None);
    // an unsupported extension resolves no server at all
    assert_eq!(m.get_client_for_file("/w/notes.txt"), None);
}

#[test]
fn workspace_start_prewarms_without_reference() {
    let mut m = LspManager::new();
    let markers = vec!["package.json".to_string()];
    let plan = m
        .start_lsp_for_workspace("/w", &markers, None, None)
        .unwrap();
    let server_name = match plan {
        WorkspaceStart::NeedsSpawn { server_name, args } => {
            assert_eq!(server_name, "typescript");
            assert_eq!(args, vec!["--stdio".to_string()]);
            server_name
        }
        WorkspaceStart::AlreadyRunning => panic!("nothing runs yet"),
    };
    let r = m
        .finish_start_for_workspace("/w", &server_name, StartOutcome::Started { client: 21 })
        .unwrap();
    assert_eq!(r, None);
    assert_eq!(m.ref_count_of("/w", "typescript"), Some(0));
    assert_eq!(m.attached_file_count("/w", "typescript"), Some(0));

    // a second workspace start is a no-op success
    let plan = m.start_lsp_for_workspace("/w", &markers, None, None).unwrap();
    assert!(matches!(plan, WorkspaceStart::AlreadyRunning));

    // the first file attach raises the count; its stop tears down
    let plan = m.start_lsp_for_file("/w/a.ts", "/w", None, None).unwrap();
    assert!(matches!(plan, FileStart::Attached));
    assert_eq!(m.ref_count_of("/w", "typescript"), Some(1));
    assert_eq!(m.stop_lsp_for_file("/w/a.ts").unwrap(), Some(21));
    assert_eq!(m.instance_count(), 0);
}

#[test]
fn workspace_start_without_markers_resolves_nothing() {
    let m = LspManager::new();
    let r = m.start_lsp_for_workspace("/w", &vec![], None, None);
    assert!(matches!(r, Err(LspError::ResolutionError)));
    let r = m.start_lsp_for_workspace("/w", &vec!["Cargo.toml".to_string()], None, None);
    assert!(matches!(r, Err(LspError::ResolutionError)));
}

#[test]
fn unresolvable_file_is_rejected() {
    let mut m = LspManager::new();
    let r = m.start_lsp_for_file("/w/report.pdf", "/w", None, None);
    assert!(matches!(r, Err(LspError::ResolutionError)));
    assert_eq!(m.instance_count(), 0);
}

#[test]
fn late_finish_returns_spare_client() {
    let mut m = LspManager::new();
    spawn_file(&mut m, "/w/a.ts", "/w", 1);
    // a second spawn outcome for the same key: the record stands, the
    // spare process is handed back for termination
    let r = m
        .finish_start_for_file("/w/a.ts", "/w", "typescript", StartOutcome::Started { client: 2 })
        .unwrap();
    assert_eq!(r, Some(2));
    assert_eq!(m.client_of("/w", "typescript"), Some(1));
    assert_eq!(m.ref_count_of("/w", "typescript"), Some(2));
}

#[test]
fn shutdown_terminates_everything() {
    let mut m = LspManager::new();
    spawn_file(&mut m, "/w/a.ts", "/w", 1);
    spawn_file(&mut m, "/x/b.ts", "/x", 2);
    let kills = m.shutdown();
    assert_eq!(kills, vec![1, 2]);
    assert_eq!(m.instance_count(), 0);
}

#[test]
fn completions_are_capped_to_configured_maximum() {
    let m = LspManager::with_registry(
        LspRegistry::new(),
        LspSettings {
            max_completion_items: 3,
        },
    );
    let items: Vec<lsp_types::CompletionItem> = (0..5)
        .map(|i| lsp_types::CompletionItem {
            label: format!("item{}", i),
            ..Default::default()
        })
        .collect();
    let capped = m.cap_completions(items);
    assert_eq!(capped.len(), 3);
    assert_eq!(capped[0].label, "item0");
    assert_eq!(capped[1].label, "item1");
    assert_eq!(capped[2].label, "item2");

    let few: Vec<lsp_types::CompletionItem> = (0..2)
        .map(|i| lsp_types::CompletionItem {
            label: format!("item{}", i),
            ..Default::default()
        })
        .collect();
    let kept = m.cap_completions(few.clone());
    assert_eq!(kept, few);

    let exact: Vec<lsp_types::CompletionItem> = (0..3)
        .map(|_| lsp_types::CompletionItem::default())
        .collect();
    assert_eq!(m.cap_completions(exact).len(), 3);
}

#[test]
fn default_manager_caps_at_one_hundred() {
    let m = LspManager::new();
    let items: Vec<lsp_types::CompletionItem> = (0..250)
        .map(|_| lsp_types::CompletionItem::default())
        .collect();
    assert_eq!(m.cap_completions(items).len(), 100);
}

#[test]
fn typed_operations_carry_exact_methods_and_values() {
    let mut m = LspManager::new();
    spawn_file(&mut m, "/w/a.ts", "/w", 4);

    let (client, open) = m
        .notify_document_open("/w/a.ts", "let x = 1;".to_string())
        .unwrap();
    assert_eq!(client, 4);
    assert_eq!(open.method(), "textDocument/didOpen");
    assert_eq!(open.uri, "file:///w/a.ts");
    assert_eq!(open.language_id, "typescript");
    assert_eq!(open.version, 1);
    assert_eq!(open.text, "let x = 1;");

    let (_, change) = m
        .notify_document_change("/w/a.ts", "let x = 2;".to_string(), 7)
        .unwrap();
    assert_eq!(change.method(), "textDocument/didChange");
    assert_eq!(change.uri, "file:///w/a.ts");
    assert_eq!(change.version, 7);
    assert_eq!(change.full_text, "let x = 2;");

    let (_, close) = m.notify_document_close("/w/a.ts").unwrap();
    assert_eq!(close.method(), "textDocument/didClose");
    assert_eq!(close.uri, "file:///w/a.ts");

    let (_, compl) = m.completion_request("/w/a.ts", 3, 14).unwrap();
    assert_eq!(compl.method(), "textDocument/completion");
    assert_eq!((compl.line, compl.character), (3, 14));

    let (_, hover) = m.hover_request("/w/a.ts", 0, 0).unwrap();
    assert_eq!(hover.method(), "textDocument/hover");
    assert_eq!(hover.uri, "file:///w/a.ts");

    // with no serving instance every typed operation reports the same error
    assert!(matches!(
        m.notify_document_open("/x/b.ts", String::new()),
        Err(LspError::NoActiveInstance)
    ));
    assert!(matches!(
        m.completion_request("/x/b.ts", 0, 0),
        Err(LspError::NoActiveInstance)
    ));
}

#[test]
fn counts_are_observable_before_a_start() {
    let mut m = LspManager::new();
    assert!(m.counts_have_room());
    spawn_file(&mut m, "/w/a.ts", "/w", 1);
    assert!(m.counts_have_room());
}

#[test]
fn language_ids_follow_the_extension() {
    let m = LspManager::new();
    assert_eq!(m.get_language_id_for_file("/w/a.ts"), "typescript");
    assert_eq!(m.get_language_id_for_file("/w/a.tsx"), "typescriptreact");
    assert_eq!(m.get_language_id_for_file("/w/a.js"), "javascript");
    assert_eq!(m.get_language_id_for_file("/w/a.mjs"), "javascript");
    assert_eq!(m.get_language_id_for_file("/w/a.cjs"), "javascript");
    assert_eq!(m.get_language_id_for_file("/w/a.jsx"), "javascriptreact");
    assert_eq!(m.get_language_id_for_file("/w/a.json"), "json");
    assert_eq!(m.get_language_id_for_file("/w/a.rs"), "plaintext");
    assert_eq!(m.get_language_id_for_file("/w/README"), "plaintext");
}
