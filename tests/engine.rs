use default_app_manager::association::{association_entry, best_effort_status, native_status_result, DefaultSource, Resolution};
use default_app_manager::content_type::{content_type_or_generic, extension_to_content_type};
use default_app_manager::document::{document_handlers, prepare_document, record_assignment, DocValue, PreferenceDocument};
use default_app_manager::error::PlatformError;
use default_app_manager::extension::{ensure_extension_normalized, validate_extension};
use default_app_manager::handlers::{
    find_bundle_id_for_extension, upsert_content_type_handler, upsert_extension_handler, FieldValue,
    HandlerEntry,
};
use default_app_manager::locator::{bundle_ids_match, choose_index_candidate, enclosing_bundle, find_app_in_scan, ScannedApp};
use default_app_manager::names::{humanize_bundle_id, mdls_display_name, read_app_display_name, bundle_id_from_info};
use default_app_manager::registry::{add_extension_to_list, load_extension_list, merge_extension_list, register_extension_if_needed, save_extension_list};
use default_app_manager::selection::{index_candidates, interpret_user_path, select_bundle_path};
use default_app_manager::{
    add_extension_inner, check_full_disk_access_inner, list_file_associations_inner,
    open_full_disk_access_settings_inner, set_default_application_for_extension_inner, FileAssociation,
};

fn text(s: &str) -> FieldValue {
    FieldValue::Text(s.to_string())
}

fn entry(pairs: Vec<(&str, FieldValue)>) -> HandlerEntry {
    HandlerEntry::Dict(pairs.into_iter().map(|(k, v)| (k.to_string(), v)).collect())
}

fn role_all(e: &HandlerEntry) -> Option<String> {
    match e {
        HandlerEntry::Dict(fields) => fields.iter().find(|(k, _)| k == "LSHandlerRoleAll").and_then(|(_, v)| match v {
            FieldValue::Text(s) => Some(s.clone()),
            FieldValue::Other(_) => None,
        }),
        HandlerEntry::Other(_) => None,
    }
}

#[test]
fn normalize_strips_dot_and_lowercases() {
    assert_eq!(ensure_extension_normalized(".TXT"), "txt");
    assert_eq!(ensure_extension_normalized("..Md"), "md");
    assert_eq!(ensure_extension_normalized("C++"), "c++");
    assert_eq!(ensure_extension_normalized(".É"), "é");
    assert_eq!(validate_extension("\u{212A}").unwrap(), "k");
}

#[test]
fn normalize_is_idempotent_on_samples() {
    for x in ["", ".", "..", ".TXT", "Foo.Bar", " a b", "ÄB", "...x.Y"] {
        let once = ensure_extension_normalized(x);
        assert_eq!(ensure_extension_normalized(&once), once);
    }
}

#[test]
fn add_rejects_bad_extensions() {
    for bad in ["", "."] {
        match validate_extension(bad) {
            Err(PlatformError::InvalidSelection(m)) => assert_eq!(m, "扩展名不能为空"),
            other => panic!("unexpected {:?}", other),
        }
    }
    match validate_extension("a b") {
        Err(PlatformError::InvalidSelection(m)) => assert_eq!(m, "扩展名只能包含字母、数字、加号或减号"),
        other => panic!("unexpected {:?}", other),
    }
    assert_eq!(validate_extension("c++").unwrap(), "c++");
    assert_eq!(validate_extension(".RTF").unwrap(), "rtf");
}

#[test]
fn registry_add_is_idempotent_and_sorted() {
    let base = merge_extension_list(&vec![]);
    let mut sorted = base.clone();
    sorted.sort();
    assert_eq!(base, sorted);
    assert!(base.contains(&"pdf".to_string()));
    let once = register_extension_if_needed(&base, "rtf").expect("rtf is new");
    assert_eq!(once.iter().filter(|e| *e == "rtf").count(), 1);
    assert_eq!(once.len(), base.len() + 1);
    assert!(register_extension_if_needed(&once, "rtf").is_none());
    let mut s = once.clone();
    s.sort();
    assert_eq!(once, s);
}

#[test]
fn registry_order_does_not_depend_on_add_order() {
    let base = vec!["b".to_string(), "d".to_string()];
    let ab = register_extension_if_needed(&register_extension_if_needed(&base, "a").unwrap(), "c").unwrap();
    let ba = register_extension_if_needed(&register_extension_if_needed(&base, "c").unwrap(), "a").unwrap();
    assert_eq!(ab, ba);
    assert_eq!(ab, vec!["a", "b", "c", "d"]);
}

#[test]
fn registry_load_merges_stored_entries() {
    let defaults = load_extension_list(None).unwrap();
    assert_eq!(defaults.len(), 59);
    let loaded = load_extension_list(Some("[\".RTF\", \"\", \"pdf\", \"Zz\"]")).unwrap();
    assert_eq!(loaded.len(), 61);
    assert!(loaded.contains(&"rtf".to_string()));
    assert!(loaded.contains(&"zz".to_string()));
    assert!(!loaded.contains(&"".to_string()));
    match load_extension_list(Some("{not json")) {
        Err(PlatformError::Config(_)) => {}
        other => panic!("unexpected {:?}", other),
    }
}

#[test]
fn registry_saves_pretty_json() {
    let text = save_extension_list(&vec!["md".to_string(), "rtf".to_string()]).unwrap();
    assert_eq!(text, "[\n  \"md\",\n  \"rtf\"\n]");
}

#[test]
fn scenario_add_extension_twice_lists_it_once() {
    let ext = validate_extension("RTF").unwrap();
    assert_eq!(ext, "rtf");
    let loaded = load_extension_list(None).unwrap();
    let saved = register_extension_if_needed(&loaded, &ext).unwrap();
    let text = save_extension_list(&saved).unwrap();
    let reloaded = load_extension_list(Some(&text)).unwrap();
    assert!(register_extension_if_needed(&reloaded, &ext).is_none());
    assert_eq!(reloaded.iter().filter(|e| *e == "rtf").count(), 1);
}

#[test]
fn content_type_lookup() {
    assert_eq!(extension_to_content_type("pdf"), Some("com.adobe.pdf"));
    assert_eq!(extension_to_content_type("PDF"), Some("com.adobe.pdf"));
    assert_eq!(extension_to_content_type("md"), Some("net.daringfireball.markdown"));
    assert_eq!(extension_to_content_type("rtf"), None);
    assert_eq!(content_type_or_generic("rtf"), "public.rtf");
    assert_eq!(content_type_or_generic("jpeg"), "public.jpeg");
}

#[test]
fn find_handler_by_tag_content_type_and_viewer() {
    let handlers = vec![
        entry(vec![("LSHandlerContentTag", text("MD")), ("LSHandlerContentTagClass", text("public.filename-extension"))]),
        entry(vec![("LSHandlerContentType", text("com.adobe.pdf")), ("LSHandlerRoleViewer", text("com.viewer"))]),
        entry(vec![("LSHandlerContentTag", text("md")), ("LSHandlerContentTagClass", text("public.filename-extension")), ("LSHandlerRoleAll", text("com.first"))]),
        entry(vec![("LSHandlerContentTag", text("md")), ("LSHandlerContentTagClass", text("public.filename-extension")), ("LSHandlerRoleAll", text("com.second"))]),
    ];
    assert_eq!(find_bundle_id_for_extension(&handlers, "MD"), Some("com.first".to_string()));
    assert_eq!(find_bundle_id_for_extension(&handlers, "pdf"), Some("com.viewer".to_string()));
    assert_eq!(find_bundle_id_for_extension(&handlers, "txt"), None);
    let accented = vec![entry(vec![
        ("LSHandlerContentTag", text("ÉX")),
        ("LSHandlerContentTagClass", text("public.filename-extension")),
        ("LSHandlerRoleAll", text("com.accent")),
    ])];
    assert_eq!(find_bundle_id_for_extension(&accented, "éx"), Some("com.accent".to_string()));
}

#[test]
fn upsert_twice_keeps_one_entry() {
    let mut handlers = vec![HandlerEntry::Other(plist::Value::Boolean(true))];
    upsert_extension_handler(&mut handlers, "md", "com.example.editor");
    assert_eq!(handlers.len(), 2);
    upsert_extension_handler(&mut handlers, "md", "com.example.editor");
    assert_eq!(handlers.len(), 2);
    assert_eq!(role_all(&handlers[1]), Some("com.example.editor".to_string()));
    upsert_content_type_handler(&mut handlers, "net.daringfireball.markdown", "com.example.editor");
    upsert_content_type_handler(&mut handlers, "net.daringfireball.markdown", "com.example.editor");
    assert_eq!(handlers.len(), 3);
}

#[test]
fn upsert_overwrites_role_and_keeps_other_fields() {
    let mut handlers = vec![entry(vec![
        ("LSHandlerContentTag", text("md")),
        ("LSHandlerPreferredVersions", FieldValue::Other(plist::Value::Integer(7.into()))),
        ("LSHandlerContentTagClass", text("public.filename-extension")),
        ("LSHandlerRoleAll", text("com.old")),
    ])];
    upsert_extension_handler(&mut handlers, "md", "com.new");
    assert_eq!(handlers.len(), 1);
    match &handlers[0] {
        HandlerEntry::Dict(fields) => {
            assert_eq!(fields.len(), 4);
            assert_eq!(fields[1].0, "LSHandlerPreferredVersions");
            assert!(matches!(&fields[1].1, FieldValue::Other(plist::Value::Integer(_))));
            assert_eq!(fields[3].0, "LSHandlerRoleAll");
        }
        HandlerEntry::Other(_) => panic!("entry changed kind"),
    }
    assert_eq!(role_all(&handlers[0]), Some("com.new".to_string()));
}

#[test]
fn prepared_document_with_handlers_is_unchanged() {
    let handlers = vec![entry(vec![("LSHandlerContentType", text("public.html")), ("LSHandlerRoleAll", text("com.browser"))])];
    let mut doc = PreferenceDocument {
        root: Some(vec![
            ("LSHandlers".to_string(), DocValue::Handlers(handlers)),
            ("Other".to_string(), DocValue::Other(plist::Value::Boolean(false))),
        ]),
    };
    prepare_document(&mut doc);
    let root = doc.root.as_ref().unwrap();
    assert_eq!(root.len(), 2);
    let hs = document_handlers(&doc).unwrap();
    assert_eq!(hs.len(), 1);
    assert_eq!(role_all(&hs[0]), Some("com.browser".to_string()));
}

#[test]
fn prepare_adds_missing_handlers_and_rejects_non_dictionary() {
    let mut doc = PreferenceDocument { root: Some(vec![]) };
    prepare_document(&mut doc);
    assert_eq!(document_handlers(&doc).unwrap().len(), 0);
    let bad = PreferenceDocument { root: None };
    assert!(matches!(document_handlers(&bad), Err(PlatformError::MissingHandlers)));
    let mut not_array = PreferenceDocument {
        root: Some(vec![("LSHandlers".to_string(), DocValue::Other(plist::Value::Boolean(true)))]),
    };
    assert!(matches!(record_assignment(&mut not_array, "md", "com.x"), Err(PlatformError::MissingHandlers)));
}

#[test]
fn scenario_assignment_is_found_afterwards() {
    let mut doc = PreferenceDocument { root: Some(vec![]) };
    let ct = record_assignment(&mut doc, "md", "com.example.editor").unwrap();
    assert_eq!(ct, Some("net.daringfireball.markdown"));
    let hs = document_handlers(&doc).unwrap();
    assert_eq!(hs.len(), 2);
    assert_eq!(find_bundle_id_for_extension(hs, "md"), Some("com.example.editor".to_string()));
    let apps = vec![
        ScannedApp { path: "/Applications/Other.app".to_string(), declared_id: Some("com.other".to_string()), bundle_name: None },
        ScannedApp { path: "/Applications/Editor.app".to_string(), declared_id: Some("com.example.editor".to_string()), bundle_name: None },
    ];
    assert_eq!(find_app_in_scan(&apps, "com.example.editor"), Some(1));
    let none = record_assignment(&mut doc, "rtf", "com.example.editor").unwrap();
    assert_eq!(none, None);
    assert_eq!(document_handlers(&doc).unwrap().len(), 3);
}

#[test]
fn scan_matches_suffix_identifiers() {
    assert!(bundle_ids_match("example.editor", "com.example.editor"));
    assert!(bundle_ids_match("com.example.editor", "example.editor"));
    assert!(bundle_ids_match("COM.Example.Editor", "com.example.editor"));
    assert!(!bundle_ids_match("com.example.viewer", "com.example.editor"));
    assert!(!bundle_ids_match("xample.editor", "com.example.editor"));
    assert!(!bundle_ids_match("com.example.editor", "xample.editor"));
}

#[test]
fn scan_falls_back_to_name_hint() {
    let apps = vec![
        ScannedApp { path: "/Applications/Tools/Alpha.app".to_string(), declared_id: Some("org.alpha".to_string()), bundle_name: None },
        ScannedApp { path: "/Applications/Writer.app".to_string(), declared_id: None, bundle_name: Some("SuperEditor".to_string()) },
        ScannedApp { path: "/Applications/EditorPro.app".to_string(), declared_id: None, bundle_name: None },
    ];
    assert_eq!(find_app_in_scan(&apps, "com.example.Editor"), Some(1));
    assert_eq!(find_app_in_scan(&apps, "com.example.zzz"), None);
}

#[test]
fn index_candidates_and_choice() {
    let c = index_candidates("  /Users/me/Old/Editor.app \n/x/readme\n/Applications/Editor.app\r\n");
    assert_eq!(c, vec!["/Users/me/Old/Editor.app", "/Applications/Editor.app"]);
    let none: Vec<Option<String>> = vec![None, None];
    assert_eq!(choose_index_candidate(&c, &none, "com.example.editor", "/Users/me"), Some(1));
    let declared = vec![Some("COM.EXAMPLE.EDITOR".to_string()), None];
    assert_eq!(choose_index_candidate(&c, &declared, "com.example.editor", "/Users/me"), Some(0));
    let elsewhere = vec!["/opt/A.app".to_string(), "/opt/B.app".to_string()];
    assert_eq!(choose_index_candidate(&elsewhere, &none, "x", "/Users/me"), Some(0));
    let user = vec!["/opt/A.app".to_string(), "/Users/me/Applications/B.app".to_string()];
    assert_eq!(choose_index_candidate(&user, &none, "x", "/Users/me"), Some(1));
    let ranked = vec![
        "/Users/me/Applications/A.app".to_string(),
        "/System/Applications/C.app".to_string(),
        "/Applications/B.app".to_string(),
    ];
    let none3: Vec<Option<String>> = vec![None, None, None];
    assert_eq!(choose_index_candidate(&ranked, &none3, "x", "/Users/me"), Some(2));
    assert_eq!(choose_index_candidate(&vec![], &vec![], "x", "/Users/me"), None);
}

#[test]
fn bundle_inside_path_is_found() {
    assert_eq!(enclosing_bundle("/Applications/App.app/Contents/MacOS/App"), Some("/Applications/App.app".to_string()));
    assert_eq!(enclosing_bundle("/Applications/App.APP"), Some("/Applications/App.APP".to_string()));
    assert_eq!(enclosing_bundle("/usr/bin/ls"), None);
    assert_eq!(select_bundle_path(" /A.app/Contents ", "/A.app/Contents", true).unwrap(), "/A.app");
    match select_bundle_path(" /nope.app ", "/nope.app", false) {
        Err(PlatformError::InvalidSelection(m)) => assert_eq!(m, "应用路径不存在: /nope.app"),
        other => panic!("unexpected {:?}", other),
    }
    match select_bundle_path("/usr/bin", "/usr/bin", true) {
        Err(PlatformError::InvalidSelection(m)) => assert_eq!(m, "请选择有效的 .app 包: /usr/bin"),
        other => panic!("unexpected {:?}", other),
    }
}

#[test]
fn user_paths_are_interpreted() {
    assert_eq!(interpret_user_path("file:///Applications/Foo%20Bar.app", None).unwrap(), "/Applications/Foo Bar.app");
    assert_eq!(interpret_user_path("file://rel/x.app", None).unwrap(), "rel/x.app");
    match interpret_user_path("file:///a b[", None) {
        Ok(p) => assert!(p.starts_with('/')),
        Err(PlatformError::InvalidSelection(_)) => {}
        other => panic!("unexpected {:?}", other),
    }
    assert_eq!(interpret_user_path(" ~/Apps/X.app ", Some("/Users/me")).unwrap(), "/Users/me/Apps/X.app");
    assert_eq!(interpret_user_path("~", Some("/Users/me")).unwrap(), "/Users/me");
    assert_eq!(interpret_user_path("/Applications/X.app", None).unwrap(), "/Applications/X.app");
    match interpret_user_path("~/X.app", None) {
        Err(PlatformError::HomeUnavailable(m)) => assert_eq!(m, "environment variable not found"),
        other => panic!("unexpected {:?}", other),
    }
}

#[test]
fn names_and_labels() {
    assert_eq!(humanize_bundle_id("com.example.MyApp2"), "My App 2");
    assert_eq!(humanize_bundle_id("com.foo.bar_baz-qux"), "bar baz qux");
    assert_eq!(humanize_bundle_id("plain"), "plain");
    assert_eq!(read_app_display_name(Some("Disp"), Some("Short"), Some("Idx"), "/A/X.app"), "Disp");
    assert_eq!(read_app_display_name(None, Some("Short"), Some("Idx"), "/A/X.app"), "Short");
    assert_eq!(read_app_display_name(None, None, Some("Idx"), "/A/X.app"), "Idx");
    assert_eq!(read_app_display_name(None, None, None, "/A/X.app"), "X");
    assert_eq!(read_app_display_name(None, None, None, "/"), "未知应用");
    assert_eq!(mdls_display_name(true, " Editor \n"), Some("Editor".to_string()));
    assert_eq!(mdls_display_name(true, "(null)\n"), None);
    assert_eq!(mdls_display_name(false, "Editor"), None);
    assert_eq!(bundle_id_from_info(true, Some("com.x")).unwrap(), "com.x");
    assert!(matches!(bundle_id_from_info(true, None), Err(PlatformError::MissingInfo(_))));
}

#[test]
fn scenario_unset_pdf_row() {
    let handlers: Vec<HandlerEntry> = vec![];
    assert_eq!(find_bundle_id_for_extension(&handlers, "pdf"), None);
    let row = association_entry("pdf".to_string(), DefaultSource::Unset, Resolution::NotFound(String::new()));
    assert_eq!(row, FileAssociation {
        extension: "pdf".to_string(),
        application_name: "未设置默认应用".to_string(),
        application_path: String::new(),
    });
}

#[test]
fn association_rows_for_each_source() {
    let found = association_entry("md".to_string(), DefaultSource::Recorded("com.e".to_string()), Resolution::Found { path: "/Applications/E.app".to_string(), name: "E".to_string() });
    assert_eq!(found.application_name, "E");
    assert_eq!(found.application_path, "/Applications/E.app");
    let lost = association_entry("md".to_string(), DefaultSource::Recorded("com.example.MyEditor".to_string()), Resolution::NotFound("命令执行失败: 未找到应用路径".to_string()));
    assert_eq!(lost.application_name, "My Editor (未找到路径)");
    assert_eq!(lost.application_path, "命令执行失败: 未找到应用路径");
    let sys = association_entry("md".to_string(), DefaultSource::System("com.apple.TextEdit".to_string()), Resolution::NotFound("x".to_string()));
    assert_eq!(sys.application_name, "Text Edit (未找到路径)");
    assert_eq!(sys.application_path, "x");
}

#[test]
fn errors_read_as_messages() {
    assert_eq!(PlatformError::MissingHandlers.message(), "缺少 LSHandlers 配置");
    assert_eq!(PlatformError::Command("未找到应用路径".to_string()).message(), "命令执行失败: 未找到应用路径");
    assert!(native_status_result(0).is_ok());
    match native_status_result(-54) {
        Err(e) => assert_eq!(e.message(), "命令执行失败: LSSetDefaultRoleHandlerForContentType 失败: -54"),
        Ok(()) => panic!("non-zero status accepted"),
    }
}

#[test]
fn unsupported_platform_stubs() {
    assert_eq!(check_full_disk_access_inner(), Ok(true));
    assert_eq!(open_full_disk_access_settings_inner(), Err("仅支持在 macOS 上打开系统设置".to_string()));
    let rows = list_file_associations_inner().unwrap();
    assert_eq!(rows.len(), 59);
    assert_eq!(rows[6].extension, "pdf");
    assert_eq!(rows[6].application_name, "Unsupported platform");
    assert_eq!(rows[6].application_path, "");
    assert_eq!(add_extension_inner("rtf".to_string()).unwrap(), rows);
    assert_eq!(
        set_default_application_for_extension_inner("md".to_string(), "/Applications/E.app".to_string()),
        Err("仅支持在 macOS 上修改默认应用".to_string())
    );
}


#[test]
fn add_to_registry_validates_and_registers() {
    let base = load_extension_list(None).unwrap();
    let added = add_extension_to_list(&base, ".C++").unwrap().expect("c++ is new");
    assert!(added.contains(&"c++".to_string()));
    assert!(add_extension_to_list(&added, "C++").unwrap().is_none());
    assert!(add_extension_to_list(&base, "PDF").unwrap().is_none());
    assert!(matches!(add_extension_to_list(&base, "a b"), Err(PlatformError::InvalidSelection(_))));
    assert!(matches!(add_extension_to_list(&base, "."), Err(PlatformError::InvalidSelection(_))));
}

#[test]
fn assignment_keeps_other_top_level_keys() {
    let mut doc = PreferenceDocument {
        root: Some(vec![("LSHandlersVersion".to_string(), DocValue::Other(plist::Value::Boolean(true)))]),
    };
    record_assignment(&mut doc, "txt", "com.example.editor").unwrap();
    let root = doc.root.as_ref().unwrap();
    assert_eq!(root.len(), 2);
    assert_eq!(root[0].0, "LSHandlersVersion");
    assert!(matches!(&root[0].1, DocValue::Other(plist::Value::Boolean(true))));
    assert_eq!(root[1].0, "LSHandlers");
}

#[test]
fn generic_path_status_is_best_effort() {
    assert_eq!(best_effort_status(0), (true, Ok(())));
    assert_eq!(best_effort_status(-10814), (false, Ok(())));
}
