use arca::mimeapps::{
    arca_is_default_in, arca_is_listed_in, join_desktop_ids, mimeapps_prepend_desktop_id, mimeapps_remove_desktop_ids,
    mimeapps_remove_key, mimeapps_set_value, mimeapps_value, mimeapps_with_association, split_desktop_ids,
};

#[test]
fn value_is_read_from_the_named_section_only() {
    let source = "[Added Associations]\nfoo=other;\n[Default Applications]\nfoo=bar;\n";
    assert_eq!(mimeapps_value(source, "Default Applications", "foo"), Some("bar;".to_string()));
    assert_eq!(mimeapps_value(source, "Added Associations", "foo"), Some("other;".to_string()));
    assert_eq!(mimeapps_value(source, "Missing", "foo"), None);
}

#[test]
fn value_trims_key_and_value_and_skips_comments() {
    let source = "[ A ]\r\n#foo=x\n; foo=y\n  foo =  a.desktop ; \n";
    assert_eq!(mimeapps_value(source, "A", "foo"), Some("a.desktop ;".to_string()));
    assert_eq!(mimeapps_value("[A]\n#foo=x\n", "A", "foo"), None);
}

#[test]
fn value_takes_the_first_key_line() {
    let source = "[A]\nk=1\nk=2\n";
    assert_eq!(mimeapps_value(source, "A", "k"), Some("1".to_string()));
}

#[test]
fn set_value_replaces_an_existing_line() {
    assert_eq!(mimeapps_set_value("[A]\nk=1\nj=2\n", "A", "k", "9"), "[A]\nk=9\nj=2\n");
}

#[test]
fn set_value_appends_at_the_end_of_its_section() {
    assert_eq!(mimeapps_set_value("[A]\nj=2\n[B]\nk=1\n", "A", "k", "9"), "[A]\nj=2\nk=9\n[B]\nk=1\n");
    assert_eq!(mimeapps_set_value("[A]\nj=2", "A", "k", "9"), "[A]\nj=2\nk=9\n");
}

#[test]
fn set_value_adds_a_missing_section_after_a_blank_line() {
    assert_eq!(mimeapps_set_value("[Other]\nx=1", "A", "k", "9"), "[Other]\nx=1\n\n[A]\nk=9\n");
    assert_eq!(mimeapps_set_value("[Other]\n\n", "A", "k", "9"), "[Other]\n\n[A]\nk=9\n");
    assert_eq!(mimeapps_set_value("", "A", "k", "9"), "[A]\nk=9\n");
}

#[test]
fn set_value_then_read_gives_the_value_back() {
    let source = "[Default Applications]\r\nx=1\n[Other]\nk=old\n";
    let written = mimeapps_set_value(source, "Default Applications", "k", " new.desktop; ");
    assert_eq!(mimeapps_value(&written, "Default Applications", "k"), Some("new.desktop;".to_string()));
    let written = mimeapps_set_value(source, "Fresh", "k", "v");
    assert_eq!(mimeapps_value(&written, "Fresh", "k"), Some("v".to_string()));
}

#[test]
fn remove_key_drops_the_line_and_normalizes_line_endings() {
    assert_eq!(mimeapps_remove_key("[A]\nk=1\nj=2\n", "A", "k"), "[A]\nj=2\n");
    assert_eq!(mimeapps_remove_key("[A]\r\nj=2", "A", "k"), "[A]\nj=2\n");
    assert_eq!(mimeapps_remove_key("[B]\nk=1\n[A]\nk=2\n", "A", "k"), "[B]\nk=1\n[A]\n");
}

#[test]
fn desktop_ids_split_trim_and_join() {
    assert_eq!(split_desktop_ids(" a.desktop ; ;b.desktop;"), vec!["a.desktop".to_string(), "b.desktop".to_string()]);
    assert!(split_desktop_ids("").is_empty());
    assert_eq!(join_desktop_ids(&vec!["a".to_string(), "b".to_string()]), "a;b;");
    assert_eq!(join_desktop_ids(&Vec::new()), "");
}

#[test]
fn prepend_puts_the_id_first_once() {
    let source = "[Default Applications]\napplication/zip=other.desktop;com.crasnec.arca.desktop;\n";
    assert_eq!(
        mimeapps_prepend_desktop_id(source, "Default Applications", "application/zip", "com.crasnec.arca.desktop"),
        "[Default Applications]\napplication/zip=com.crasnec.arca.desktop;other.desktop;\n"
    );
}

#[test]
fn remove_desktop_ids_keeps_other_handlers() {
    let source = "[Added Associations]\napplication/zip=arca.desktop;other.desktop;\n";
    let ids = ["com.crasnec.arca.desktop", "arca-gui.desktop", "Arca.desktop", "arca.desktop"];
    assert_eq!(
        mimeapps_remove_desktop_ids(source, "Added Associations", "application/zip", &ids),
        "[Added Associations]\napplication/zip=other.desktop;\n"
    );
    assert_eq!(
        mimeapps_remove_desktop_ids("[Added Associations]\napplication/zip=arca.desktop;\n", "Added Associations", "application/zip", &ids),
        "[Added Associations]\n"
    );
    assert_eq!(mimeapps_remove_desktop_ids("x\r\n", "Added Associations", "application/zip", &ids), "x\r\n");
}

#[test]
fn editor_handlers_are_recognized_in_values() {
    assert!(arca_is_default_in("arca.desktop;x;"));
    assert!(!arca_is_default_in("x;arca.desktop"));
    assert!(arca_is_listed_in("x; com.crasnec.arca.desktop"));
    assert!(!arca_is_listed_in(""));
}

#[test]
fn association_is_turned_on_and_off() {
    let mime_types = vec!["application/zip".to_string()];
    let on = mimeapps_with_association("", &mime_types, true);
    assert_eq!(
        on,
        "[Default Applications]\napplication/zip=com.crasnec.arca.desktop;\n\n[Added Associations]\napplication/zip=com.crasnec.arca.desktop;\n"
    );
    assert!(arca_is_default_in(&mimeapps_value(&on, "Default Applications", "application/zip").unwrap()));
    let off = mimeapps_with_association(&on, &mime_types, false);
    assert_eq!(off, "[Default Applications]\n\n[Added Associations]\n");
    assert_eq!(mimeapps_with_association("keep\r\n", &Vec::new(), true), "keep\r\n");
}

#[test]
fn prepended_id_is_read_back_first() {
    let source = "[Default Applications]\r\ntext/plain=a.desktop; b.desktop ;\n[Other]\ntext/plain=z.desktop;\n";
    let written = mimeapps_prepend_desktop_id(source, "Default Applications", "text/plain", "b.desktop");
    let value = mimeapps_value(&written, "Default Applications", "text/plain").unwrap();
    assert_eq!(value, "b.desktop;a.desktop;");
    assert_eq!(split_desktop_ids(&value)[0], "b.desktop");
    let fresh = mimeapps_prepend_desktop_id("", "Added Associations", "text/plain", "c.desktop");
    assert_eq!(split_desktop_ids(&mimeapps_value(&fresh, "Added Associations", "text/plain").unwrap()), vec!["c.desktop".to_string()]);
}

#[test]
fn setting_a_key_leaves_other_reads_and_repeats_change_nothing() {
    let source = "[A]\na=x;\n[B]\nc=old;\n";
    let written = mimeapps_set_value(source, "A", "c", "z;");
    assert_eq!(written, "[A]\na=x;\nc=z;\n[B]\nc=old;\n");
    assert_eq!(mimeapps_value(&written, "A", "a"), Some("x;".to_owned()));
    assert_eq!(mimeapps_value(&written, "B", "c"), Some("old;".to_owned()));
    assert_eq!(mimeapps_value(&written, "A", "c"), Some("z;".to_owned()));
    assert_eq!(mimeapps_set_value(&written, "A", "c", "z;"), written);
    let fresh = mimeapps_set_value("[A]\na=x;", "Added Associations", "k", "v;");
    assert_eq!(mimeapps_set_value(&fresh, "Added Associations", "k", "v;"), fresh);
    assert_eq!(mimeapps_value(&fresh, "A", "a"), Some("x;".to_owned()));
}

#[test]
fn setting_a_value_ending_in_carriage_return_twice_changes_nothing() {
    let source = "[A]\na=x;\n";
    let written = mimeapps_set_value(source, "A", "k", "v\r");
    assert_eq!(written, "[A]\na=x;\nk=v\r\n");
    assert_eq!(mimeapps_set_value(&written, "A", "k", "v\r"), written);
    let inside = mimeapps_set_value("[A]\nk=old\n", "A", "k", "a\rb");
    assert_eq!(mimeapps_set_value(&inside, "A", "k", "a\rb"), inside);
}
