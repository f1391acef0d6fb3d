use vstd::prelude::*;

use crate::text::{lower_eq_char, str_eq};

verus! {

broadcast use vstd::string::group_string_axioms;

/// A locale that starts with `ko` in any ASCII case.
pub open spec fn is_korean_locale(locale: Seq<char>) -> bool {
    locale.len() >= 2 && crate::text::lower_eq(locale[0], 'k') && crate::text::lower_eq(locale[1], 'o')
}

fn korean_locale(locale: &str) -> (r: bool)
    ensures
        r == is_korean_locale(locale@),
{
    let chars = crate::text::chars_of(locale);
    chars.len() >= 2 && lower_eq_char(chars[0], 'k') && lower_eq_char(chars[1], 'o')
}

/// The locale whose labels the menus use: Korean for a Korean locale,
/// English otherwise.
pub fn normalized_locale(locale: &str) -> (r: &'static str)
    ensures
        r == (if is_korean_locale(locale@) { "ko" } else { "en" }),
{
    if korean_locale(locale) {
        "ko"
    } else {
        "en"
    }
}

/// The Korean label of a menu key, if it has one.
pub open spec fn korean_label(key: Seq<char>) -> Option<&'static str> {
    if key == "file"@ {
        Some("파일")
    } else if key == "open"@ {
        Some("열기...")
    } else if key == "new_archive"@ {
        Some("새 아카이브...")
    } else if key == "quit"@ {
        Some("끝내기")
    } else if key == "edit"@ {
        Some("편집")
    } else if key == "copy"@ {
        Some("복사")
    } else if key == "delete"@ {
        Some("삭제")
    } else if key == "undo"@ {
        Some("실행 취소")
    } else if key == "redo"@ {
        Some("다시 실행")
    } else if key == "archive"@ {
        Some("아카이브")
    } else if key == "add_files"@ {
        Some("파일 추가...")
    } else if key == "extract"@ {
        Some("풀기")
    } else if key == "test"@ {
        Some("검사")
    } else if key == "info"@ {
        Some("정보")
    } else if key == "view"@ {
        Some("보기")
    } else if key == "find"@ {
        Some("찾기")
    } else if key == "settings"@ {
        Some("설정...")
    } else if key == "help"@ {
        Some("도움말")
    } else if key == "archive_info"@ {
        Some("아카이브 정보")
    } else if key == "extract_selection"@ {
        Some("풀기...")
    } else if key == "extract_here"@ {
        Some("여기에 풀기")
    } else if key == "add_folder"@ {
        Some("폴더 추가...")
    } else if key == "copy_path"@ {
        Some("경로 복사")
    } else if key == "properties"@ {
        Some("속성")
    } else {
        None
    }
}

/// The English label of a menu key, if it has one.
pub open spec fn english_label(key: Seq<char>) -> Option<&'static str> {
    if key == "file"@ {
        Some("File")
    } else if key == "open"@ {
        Some("Open...")
    } else if key == "new_archive"@ {
        Some("New Archive...")
    } else if key == "quit"@ {
        Some("Quit")
    } else if key == "edit"@ {
        Some("Edit")
    } else if key == "copy"@ {
        Some("Copy")
    } else if key == "delete"@ {
        Some("Delete")
    } else if key == "undo"@ {
        Some("Undo")
    } else if key == "redo"@ {
        Some("Redo")
    } else if key == "archive"@ {
        Some("Archive")
    } else if key == "add_files"@ {
        Some("Add Files...")
    } else if key == "extract"@ {
        Some("Extract")
    } else if key == "test"@ {
        Some("Test")
    } else if key == "info"@ {
        Some("Info")
    } else if key == "view"@ {
        Some("View")
    } else if key == "find"@ {
        Some("Find")
    } else if key == "settings"@ {
        Some("Settings...")
    } else if key == "help"@ {
        Some("Help")
    } else if key == "archive_info"@ {
        Some("Archive Info")
    } else if key == "extract_selection"@ {
        Some("Extract...")
    } else if key == "extract_here"@ {
        Some("Extract Here")
    } else if key == "add_folder"@ {
        Some("Add folder...")
    } else if key == "copy_path"@ {
        Some("Copy path")
    } else if key == "properties"@ {
        Some("Properties")
    } else {
        None
    }
}

/// The label of a menu item in a locale: its Korean or English text, or the
/// key itself for an unknown key.
pub fn menu_label<'a>(locale: &str, key: &'a str) -> (r: &'a str)
    ensures
        is_korean_locale(locale@) ==> match korean_label(key@) {
            Some(l) => r == l,
            None => r == key,
        },
        !is_korean_locale(locale@) ==> match english_label(key@) {
            Some(l) => r == l,
            None => r == key,
        },
{
    let korean = korean_locale(locale);
    if str_eq(key, "file") {
        if korean {
            "파일"
        } else {
            "File"
        }
    } else if str_eq(key, "open") {
        if korean {
            "열기..."
        } else {
            "Open..."
        }
    } else if str_eq(key, "new_archive") {
        if korean {
            "새 아카이브..."
        } else {
            "New Archive..."
        }
    } else if str_eq(key, "quit") {
        if korean {
            "끝내기"
        } else {
            "Quit"
        }
    } else if str_eq(key, "edit") {
        if korean {
            "편집"
        } else {
            "Edit"
        }
    } else if str_eq(key, "copy") {
        if korean {
            "복사"
        } else {
            "Copy"
        }
    } else if str_eq(key, "delete") {
        if korean {
            "삭제"
        } else {
            "Delete"
        }
    } else if str_eq(key, "undo") {
        if korean {
            "실행 취소"
        } else {
            "Undo"
        }
    } else if str_eq(key, "redo") {
        if korean {
            "다시 실행"
        } else {
            "Redo"
        }
    } else if str_eq(key, "archive") {
        if korean {
            "아카이브"
        } else {
            "Archive"
        }
    } else if str_eq(key, "add_files") {
        if korean {
            "파일 추가..."
        } else {
            "Add Files..."
        }
    } else if str_eq(key, "extract") {
        if korean {
            "풀기"
        } else {
            "Extract"
        }
    } else if str_eq(key, "test") {
        if korean {
            "검사"
        } else {
            "Test"
        }
    } else if str_eq(key, "info") {
        if korean {
            "정보"
        } else {
            "Info"
        }
    } else if str_eq(key, "view") {
        if korean {
            "보기"
        } else {
            "View"
        }
    } else if str_eq(key, "find") {
        if korean {
            "찾기"
        } else {
            "Find"
        }
    } else if str_eq(key, "settings") {
        if korean {
            "설정..."
        } else {
            "Settings..."
        }
    } else if str_eq(key, "help") {
        if korean {
            "도움말"
        } else {
            "Help"
        }
    } else if str_eq(key, "archive_info") {
        if korean {
            "아카이브 정보"
        } else {
            "Archive Info"
        }
    } else if str_eq(key, "extract_selection") {
        if korean {
            "풀기..."
        } else {
            "Extract..."
        }
    } else if str_eq(key, "extract_here") {
        if korean {
            "여기에 풀기"
        } else {
            "Extract Here"
        }
    } else if str_eq(key, "add_folder") {
        if korean {
            "폴더 추가..."
        } else {
            "Add folder..."
        }
    } else if str_eq(key, "copy_path") {
        if korean {
            "경로 복사"
        } else {
            "Copy path"
        }
    } else if str_eq(key, "properties") {
        if korean {
            "속성"
        } else {
            "Properties"
        }
    } else {
        key
    }
}

/// What the context menu of the entry list offers, given the editor's state.
#[derive(Clone, Copy, Debug, PartialEq, Eq, Structural)]
pub struct EntryContextMenuState {
    pub has_selection: bool,
    pub can_add_direct_edit: bool,
    pub can_delete: bool,
    pub can_open_properties: bool,
    pub loading: bool,
}

/// Which context menu items are enabled.
#[derive(Clone, Copy, Debug, PartialEq, Eq, Structural)]
pub struct ContextMenuEnabled {
    /// Extract, extract here, test and copy path.
    pub selection_actions: bool,
    /// Add files and add folder.
    pub add_actions: bool,
    pub delete: bool,
    pub properties: bool,
}

/// Selection actions need a selection and an idle editor; adding needs a
/// direct-editable archive and an idle editor; deleting needs both a
/// selection and permission; properties need a selection.
pub fn context_menu_enabled(state: EntryContextMenuState) -> (r: ContextMenuEnabled)
    ensures
        r.selection_actions == (state.has_selection && !state.loading),
        r.add_actions == (state.can_add_direct_edit && !state.loading),
        r.delete == (state.can_delete && state.has_selection && !state.loading),
        r.properties == (state.can_open_properties && state.has_selection),
{
    ContextMenuEnabled {
        selection_actions: state.has_selection && !state.loading,
        add_actions: state.can_add_direct_edit && !state.loading,
        delete: state.can_delete && state.has_selection && !state.loading,
        properties: state.can_open_properties && state.has_selection,
    }
}

/// What a click on a native menu item does.
#[derive(Clone, Copy, Debug, PartialEq, Eq, Structural)]
pub enum MenuEventAction {
    Quit,
    Forward,
    Ignore,
}

/// `s` starts with `prefix`.
pub open spec fn has_prefix(s: Seq<char>, prefix: Seq<char>) -> bool {
    prefix.len() <= s.len() && s.take(prefix.len() as int) == prefix
}

fn starts_with_text(s: &str, prefix: &str) -> (r: bool)
    ensures
        r == has_prefix(s@, prefix@),
{
    let a = crate::text::chars_of(s);
    let b = crate::text::chars_of(prefix);
    if b.len() > a.len() {
        return false;
    }
    let mut i: usize = 0;
    while i < b.len()
        invariant
            b.len() <= a.len(),
            a@ == s@,
            b@ == prefix@,
            i <= b.len(),
            forall|k: int| 0 <= k < i ==> a@[k] == b@[k],
        decreases b.len() - i,
    {
        if a[i] != b[i] {
            assert(s@.take(prefix@.len() as int)[i as int] != prefix@[i as int]);
            return false;
        }
        i = i + 1;
    }
    assert(s@.take(prefix@.len() as int) =~= prefix@);
    true
}

/// The quit item quits; items of the Arca menus and context menu are
/// forwarded to the editor; anything else is ignored.
pub fn menu_event_action(menu_id: &str) -> (r: MenuEventAction)
    ensures
        r == (if menu_id@ == "arca-menu-quit"@ {
            MenuEventAction::Quit
        } else if has_prefix(menu_id@, "arca-menu-"@) || has_prefix(menu_id@, "arca-context-"@) {
            MenuEventAction::Forward
        } else {
            MenuEventAction::Ignore
        }),
{
    if str_eq(menu_id, "arca-menu-quit") {
        MenuEventAction::Quit
    } else if starts_with_text(menu_id, "arca-menu-") || starts_with_text(menu_id, "arca-context-") {
        MenuEventAction::Forward
    } else {
        MenuEventAction::Ignore
    }
}

} // verus!
