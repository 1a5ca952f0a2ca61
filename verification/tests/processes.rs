use vlessok::processes::order_running_processes;

#[test]
fn apps_first_then_background_sorted_without_repeats() {
    let procs = vec![
        (10, "Zoom.exe".to_string()),
        (11, "svchost.exe".to_string()),
        (12, "svchost.exe".to_string()),
        (13, "chrome.exe".to_string()),
        (14, "chrome.exe".to_string()),
        (15, "init".to_string()),
        (16, "Audio.EXE".to_string()),
    ];
    let visible = vec![10, 13];
    let r = order_running_processes(&procs, &visible);
    let listed: Vec<(String, bool)> = r.into_iter().map(|p| (p.name, p.is_app)).collect();
    assert_eq!(
        listed,
        vec![
            ("chrome.exe".to_string(), true),
            ("Zoom.exe".to_string(), true),
            ("Audio.EXE".to_string(), false),
            ("svchost.exe".to_string(), false),
        ]
    );
}

#[test]
fn no_processes_no_listing() {
    assert!(order_running_processes(&vec![], &vec![1, 2]).is_empty());
}
