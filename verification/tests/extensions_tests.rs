use athas_core::extensions::{
    archive_file_name, checksum_matches, download_file_name, get_bundled_extensions_path,
    get_extension_dir, metadata_file_name, new_extension_metadata, verify_download,
    DownloadInfo, ExtensionMetadata, InstallStatus,
};
use athas_core::theme::{is_theme_selection, theme_menu_entries, ThemeData};
use athas_core::text::{chars_of, extension_of, last_segment_of, path_prefix_chars};

const ABC_SHA256: &str = "ba7816bf8f01cfea414140de5dae2223b00361a396177a9cb410ff61f20015ad";

#[test]
fn checksum_verification_uses_the_real_digest() {
    let data = b"abc".to_vec();
    assert!(checksum_matches(&data, &ABC_SHA256.to_string()));
    assert!(!checksum_matches(&data, &"abc".to_string()));
    let wrong = ABC_SHA256.replace('b', "c");
    assert!(!checksum_matches(&data, &wrong));
}

#[test]
fn downloads_are_accepted_only_with_the_announced_checksum() {
    let info = DownloadInfo {
        url: "https://example.invalid/ext.tar.gz".to_string(),
        checksum: ABC_SHA256.to_string(),
        size: 3,
    };
    assert!(verify_download(&b"abc".to_vec(), &info).is_ok());
    let err = verify_download(&b"abd".to_vec(), &info).unwrap_err();
    assert!(err.starts_with("checksum mismatch: expected ba7816bf"));
    assert!(err.contains(", got "));
}

#[test]
fn metadata_files_sit_beside_the_extension() {
    assert_eq!(metadata_file_name("vim-mode"), "vim-mode.json");
    let meta = ExtensionMetadata {
        id: "vim-mode".to_string(),
        name: "Vim Mode".to_string(),
        version: "1.0.0".to_string(),
        installed_at: "2024-01-01T00:00:00Z".to_string(),
        enabled: true,
    };
    assert_eq!(metadata_file_name(&meta.id), "vim-mode.json");
    let failed = InstallStatus::Failed {
        error: "checksum mismatch".to_string(),
    };
    assert!(matches!(failed, InstallStatus::Failed { .. }));
}

#[test]
fn install_artifacts_are_named_for_the_extension() {
    assert_eq!(archive_file_name("vim-mode"), "vim-mode.tar.gz");
    assert_eq!(download_file_name("vim-mode"), "vim-mode.wasm");
    assert_eq!(
        get_extension_dir("/home/u/.athas/extensions", "vim-mode"),
        "/home/u/.athas/extensions/vim-mode"
    );
    let meta = new_extension_metadata("vim-mode", "2024-01-01T00:00:00Z".to_string());
    assert_eq!(meta.id, "vim-mode");
    assert_eq!(meta.name, "vim-mode");
    assert_eq!(meta.version, "1.0.0");
    assert_eq!(meta.installed_at, "2024-01-01T00:00:00Z");
    assert!(meta.enabled);
}

#[test]
fn bundled_extensions_sit_under_the_project_root() {
    assert_eq!(
        get_bundled_extensions_path("/home/u/proj/src-tauri"),
        "/home/u/proj/src/extensions/bundled"
    );
    assert_eq!(
        get_bundled_extensions_path("/home/u/proj"),
        "/home/u/proj/src/extensions/bundled"
    );
    assert_eq!(get_bundled_extensions_path("src-tauri"), "src/extensions/bundled");
}

#[test]
fn theme_menu_falls_back_to_the_builtin_pair() {
    let fallback = theme_menu_entries(None);
    assert_eq!(fallback.len(), 2);
    assert_eq!(fallback[0].id, "athas-light");
    assert_eq!(fallback[0].name, "Athas Light");
    assert_eq!(fallback[1].id, "athas-dark");
    assert_eq!(fallback[1].name, "Athas Dark");

    let own = vec![ThemeData {
        id: "tokyo-night".to_string(),
        name: "Tokyo Night".to_string(),
        category: "dark".to_string(),
    }];
    let kept = theme_menu_entries(Some(own));
    assert_eq!(kept.len(), 1);
    assert_eq!(kept[0].id, "tokyo-night");
}

#[test]
fn theme_menu_ids_are_recognised() {
    assert!(is_theme_selection("auto"));
    assert!(is_theme_selection("catppuccin-mocha"));
    assert!(is_theme_selection("tokyo-night"));
    assert!(!is_theme_selection("quit"));
    assert!(!is_theme_selection("save"));
}

#[test]
fn path_text_helpers_take_paths_apart() {
    assert_eq!(extension_of("/w/a.ts"), vec!['t', 's']);
    assert_eq!(extension_of("/w/archive.tar.gz"), vec!['g', 'z']);
    assert_eq!(extension_of("/w.d/file"), Vec::<char>::new());
    assert_eq!(extension_of("/w/.hidden"), Vec::<char>::new());
    assert_eq!(extension_of("/w/.hidden.ts"), vec!['t', 's']);

    assert_eq!(last_segment_of("/usr/bin/alpha-ls"), "alpha-ls");
    assert_eq!(last_segment_of("alpha-ls"), "alpha-ls");
    assert_eq!(last_segment_of("/usr/bin/"), "");

    let ws = chars_of("/w");
    assert!(path_prefix_chars(&ws, &chars_of("/w/a.ts")));
    assert!(path_prefix_chars(&ws, &chars_of("/w")));
    assert!(!path_prefix_chars(&ws, &chars_of("/wider/a.ts")));
    let root = chars_of("/");
    assert!(path_prefix_chars(&root, &chars_of("/a.ts")));
}
