use arca::associations::{
    bytes_hex, linux_desktop_exec_path, linux_is_arca_desktop_id, linux_mime_aliases_for_extension,
    normalized_file_association_extension, push_unique_mime_type, windows_command, windows_prog_id,
    windows_shell_action_key,
};
use arca::gui::{archive_validation, default_jobs, password_from_string};
use arca::menus::{
    context_menu_enabled, menu_event_action, menu_label, normalized_locale, EntryContextMenuState, MenuEventAction,
};
use arca::startup::{
    shell_operation_window_url, startup_candidates, startup_shell_operation_request, StartupAction, StartupRequest,
};

#[test]
fn startup_arguments_pair_flags_with_paths() {
    let args = vec![
        Some("arca".to_string()),
        Some("--arca-shell-test".to_string()),
        Some("a.zip".to_string()),
        Some("b.zip".to_string()),
        None,
        Some("--arca-shell-extract".to_string()),
    ];
    assert_eq!(
        startup_candidates(&args),
        vec![(StartupAction::Test, 2), (StartupAction::Open, 3), (StartupAction::Open, 4)]
    );
    assert!(startup_candidates(&Vec::new()).is_empty());
}

#[test]
fn only_a_single_test_or_extract_request_opens_its_own_window() {
    let extract = StartupRequest { action: StartupAction::Extract, archive_path: "/a.zip".to_string() };
    let open = StartupRequest { action: StartupAction::Open, archive_path: "/a.zip".to_string() };
    assert!(startup_shell_operation_request(&vec![extract.clone()]).is_some());
    assert!(startup_shell_operation_request(&vec![open.clone()]).is_none());
    assert!(startup_shell_operation_request(&vec![extract.clone(), extract]).is_none());
}

#[test]
fn shell_window_url_encodes_the_archive_path() {
    let request = StartupRequest { action: StartupAction::Extract, archive_path: "/tmp/a b.zip".to_string() };
    assert_eq!(shell_operation_window_url(&request), "index.html?shellAction=extract&archivePath=%2Ftmp%2Fa%20b%2Ezip");
    let request = StartupRequest { action: StartupAction::Test, archive_path: "é".to_string() };
    assert_eq!(shell_operation_window_url(&request), "index.html?shellAction=test&archivePath=%C3%A9");
}

#[test]
fn menu_locale_and_labels() {
    assert_eq!(normalized_locale("ko-KR"), "ko");
    assert_eq!(normalized_locale("KO"), "ko");
    assert_eq!(normalized_locale("en-US"), "en");
    assert_eq!(normalized_locale("k"), "en");
    assert_eq!(menu_label("en", "quit"), "Quit");
    assert_eq!(menu_label("ko", "quit"), "끝내기");
    assert_eq!(menu_label("en", "no_such_label"), "no_such_label");
}

#[test]
fn menu_events_are_routed_by_id() {
    assert_eq!(menu_event_action("arca-menu-quit"), MenuEventAction::Quit);
    assert_eq!(menu_event_action("arca-menu-open"), MenuEventAction::Forward);
    assert_eq!(menu_event_action("arca-context-extract"), MenuEventAction::Forward);
    assert_eq!(menu_event_action("other"), MenuEventAction::Ignore);
}

#[test]
fn context_menu_items_follow_the_editor_state() {
    let state = EntryContextMenuState {
        has_selection: true,
        can_add_direct_edit: true,
        can_delete: true,
        can_open_properties: true,
        loading: true,
    };
    let enabled = context_menu_enabled(state);
    assert!(!enabled.selection_actions);
    assert!(!enabled.add_actions);
    assert!(!enabled.delete);
    assert!(enabled.properties);
    let idle = context_menu_enabled(EntryContextMenuState { loading: false, has_selection: false, ..state });
    assert!(!idle.selection_actions && idle.add_actions && !idle.delete && !idle.properties);
}

#[test]
fn association_names_and_commands() {
    assert_eq!(windows_prog_id("zip"), "Arca.zip");
    assert_eq!(
        windows_shell_action_key("zip", "ArcaExtract"),
        "Software\\Classes\\SystemFileAssociations\\.zip\\shell\\ArcaExtract"
    );
    assert_eq!(windows_command("C:\\arca.exe", "--arca-shell-open"), "\"C:\\arca.exe\" --arca-shell-open \"%1\"");
    assert_eq!(linux_desktop_exec_path("/opt/a \"b\"$"), "\"/opt/a \\\"b\\\"\\$\"");
    assert_eq!(bytes_hex(&[0x50, 0x4b, 0x03, 0x04]), "504b0304");
    assert!(linux_is_arca_desktop_id("arca-gui.desktop"));
    assert!(!linux_is_arca_desktop_id("other.desktop"));
}

#[test]
fn mime_types_gain_aliases_without_duplicates() {
    assert_eq!(linux_mime_aliases_for_extension("zip"), vec!["application/x-zip-compressed"]);
    assert!(linux_mime_aliases_for_extension("xz").is_empty());
    let mut types = vec!["application/zip"];
    push_unique_mime_type(&mut types, "application/zip");
    push_unique_mime_type(&mut types, "application/x-zip-compressed");
    assert_eq!(types, vec!["application/zip", "application/x-zip-compressed"]);
}

#[test]
fn association_extensions_are_normalized() {
    assert_eq!(normalized_file_association_extension(".ZIP").unwrap(), "zip");
    assert!(normalized_file_association_extension("rar").is_err());
}

#[test]
fn listed_archives_are_validated_as_far_as_metadata() {
    let plain = archive_validation(0);
    assert!(plain.metadata_validated && !plain.payload_validated && !plain.password_required);
    assert_eq!(plain.state, "metadataOnly");
    let encrypted = archive_validation(2);
    assert!(encrypted.password_required && !encrypted.fully_validated);
    assert_eq!(encrypted.state, "metadataOnlyPasswordRequired");
}

#[test]
fn editor_jobs_are_capped() {
    assert_eq!(default_jobs(Some(16)), 4);
    assert_eq!(default_jobs(Some(2)), 2);
    assert_eq!(default_jobs(None), 1);
}

#[test]
fn editor_passwords_are_utf8_bytes() {
    assert_eq!(password_from_string(Some("pé".to_string())).unwrap().as_bytes(), "pé".as_bytes());
    assert!(password_from_string(None).is_none());
}

#[test]
fn gui_validation_serializes_camel_case_password_state() {
    let value = archive_validation(2);
    assert!(value.metadata_validated);
    assert!(!value.payload_validated);
    assert!(value.password_required);
    assert!(!value.fully_validated);
    assert_eq!(value.state, "metadataOnlyPasswordRequired");
}

#[test]
fn gui_validation_non_encrypted_archive_is_metadata_only() {
    let value = archive_validation(0);
    assert!(value.metadata_validated);
    assert!(!value.password_required);
    assert!(!value.fully_validated);
    assert_eq!(value.state, "metadataOnly");
}

#[test]
fn no_native_backend_is_compiled_in() {
    assert!(!arca::native::native_backend_enabled());
}

#[test]
fn windows_registration_writes_the_association_values() {
    let values = arca::associations::windows_registry_values("zip", "ZIP Archive", "C:\\Arca\\arca.exe");
    let seen: Vec<(String, String, String)> = values.into_iter().map(|v| (v.key, v.name, v.value)).collect();
    assert_eq!(seen.len(), 14);
    assert_eq!(seen[0], ("Software\\Classes\\.zip".into(), "".into(), "Arca.zip".into()));
    assert_eq!(seen[1], ("Software\\Classes\\.zip\\OpenWithProgids".into(), "Arca.zip".into(), "".into()));
    assert_eq!(seen[2], ("Software\\Classes\\Arca.zip".into(), "".into(), "Arca ZIP Archive".into()));
    assert_eq!(seen[3], ("Software\\Classes\\Arca.zip\\DefaultIcon".into(), "".into(), "C:\\Arca\\arca.exe,0".into()));
    assert_eq!(
        seen[4],
        (
            "Software\\Classes\\Arca.zip\\shell\\open\\command".into(),
            "".into(),
            "\"C:\\Arca\\arca.exe\" --arca-shell-open \"%1\"".into()
        )
    );
    let action = "Software\\Classes\\SystemFileAssociations\\.zip\\shell\\ArcaExtract";
    assert_eq!(seen[8], (action.into(), "".into(), "Extract with Arca".into()));
    assert_eq!(seen[9], (action.into(), "Icon".into(), "C:\\Arca\\arca.exe,0".into()));
    assert_eq!(
        seen[10],
        (format!("{action}\\command"), "".into(), "\"C:\\Arca\\arca.exe\" --arca-shell-extract \"%1\"".into())
    );
}
