use vlessok::icons::{find_exe_path, icon_script, plan_icon_fetch, record_icons, split_cached, TextMap};

#[test]
fn text_map_basics() {
    let mut m = TextMap::new();
    assert_eq!(m.get("a"), None);
    m.insert("a".to_string(), "1".to_string());
    m.insert("b".to_string(), "2".to_string());
    m.insert("a".to_string(), "3".to_string());
    assert_eq!(m.get("a"), Some("3".to_string()));
    assert_eq!(m.to_pairs().len(), 2);
}

#[test]
fn cached_icons_are_answered_directly() {
    let mut cache = TextMap::new();
    cache.insert("a.exe".to_string(), "icon-a".to_string());
    let names = vec!["a.exe".to_string(), "b.exe".to_string()];
    let (found, missing) = split_cached(&names, &cache);
    assert_eq!(found.get("a.exe"), Some("icon-a".to_string()));
    assert_eq!(found.get("b.exe"), None);
    assert_eq!(missing, vec!["b.exe".to_string()]);
}

#[test]
fn executables_found_by_name_ignoring_case() {
    let procs = vec![
        ("Foo.exe".to_string(), None),
        ("foo.EXE".to_string(), Some("C:\\Apps\\foo.exe".to_string())),
        ("bar.exe".to_string(), Some(String::new())),
    ];
    assert_eq!(find_exe_path("FOO.exe", &procs), Some("C:\\Apps\\foo.exe".to_string()));
    assert_eq!(find_exe_path("bar.exe", &procs), None);
    assert_eq!(find_exe_path("baz.exe", &procs), None);

    let mut cache = TextMap::new();
    let (paths, path_names) = plan_icon_fetch(&vec!["foo.exe".to_string(), "baz.exe".to_string()], &procs, &mut cache);
    assert_eq!(paths, vec!["C:\\Apps\\foo.exe".to_string()]);
    assert_eq!(path_names.get("C:\\Apps\\foo.exe"), Some("foo.exe".to_string()));
    assert_eq!(cache.get("baz.exe"), Some(String::new()));
}

#[test]
fn script_quotes_paths() {
    let s = icon_script(&vec!["C:\\A\\x.exe".to_string(), "C:\\O'Brien\\y.exe".to_string()]);
    assert!(s.contains("$paths = @('C:\\A\\x.exe', 'C:\\O''Brien\\y.exe')"));
    assert!(s.starts_with("\n        Add-Type -AssemblyName System.Drawing\n"));
    assert!(s.ends_with("$res | ConvertTo-Json -Compress\n        "));
}

#[test]
fn printed_icons_are_recorded() {
    let mut path_names = TextMap::new();
    path_names.insert("C:\\a.exe".to_string(), "a.exe".to_string());
    path_names.insert("C:\\b.exe".to_string(), "b.exe".to_string());
    let mut cache = TextMap::new();
    let mut result = TextMap::new();
    let out = b"  {\"C:\\\\a.exe\":\"data:image/png;base64,AAA\",\"C:\\\\z.exe\":\"zzz\"}\r\n".to_vec();
    record_icons(Some(out), &path_names, &mut cache, &mut result);
    assert_eq!(result.get("a.exe"), Some("data:image/png;base64,AAA".to_string()));
    assert_eq!(result.get("b.exe"), None);
    assert_eq!(result.to_pairs().len(), 1);
    assert_eq!(cache.get("a.exe"), Some("data:image/png;base64,AAA".to_string()));
    assert_eq!(cache.get("b.exe"), Some(String::new()));

    let mut cache2 = TextMap::new();
    let mut result2 = TextMap::new();
    record_icons(Some(b"not json".to_vec()), &path_names, &mut cache2, &mut result2);
    assert_eq!(result2.to_pairs().len(), 0);
    assert_eq!(cache2.get("a.exe"), Some(String::new()));
    record_icons(None, &path_names, &mut cache2, &mut result2);
    assert_eq!(cache2.to_pairs().len(), 2);
}

#[test]
fn every_requested_name_ends_up_cached() {
    let procs = vec![
        ("app.exe".to_string(), Some("C:\\app.exe".to_string())),
        ("tool.exe".to_string(), Some("C:\\tool.exe".to_string())),
    ];
    let mut cache = TextMap::new();
    cache.insert("old.exe".to_string(), "icon-old".to_string());
    let names = vec!["old.exe".to_string(), "app.exe".to_string(), "tool.exe".to_string(), "gone.exe".to_string()];
    let (mut result, missing) = split_cached(&names, &cache);
    let (paths, path_names) = plan_icon_fetch(&missing, &procs, &mut cache);
    assert_eq!(paths.len(), 2);
    let out = b"{\"C:\\\\app.exe\":\"icon-app\"}".to_vec();
    record_icons(Some(out), &path_names, &mut cache, &mut result);
    for n in &names {
        assert!(cache.get(n).is_some(), "{} has no cache entry", n);
    }
    assert_eq!(cache.get("app.exe"), Some("icon-app".to_string()));
    assert_eq!(cache.get("tool.exe"), Some(String::new()));
    assert_eq!(cache.get("gone.exe"), Some(String::new()));
    assert_eq!(result.get("old.exe"), Some("icon-old".to_string()));
}
