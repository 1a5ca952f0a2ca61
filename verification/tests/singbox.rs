use vlessok::platform::ProcessJob;
use vlessok::singbox::{
    crash_report, decide_status, is_error_line, join_texts, missing_binary_message, missing_wintun_message, ChildStatus,
    RecentLines,
};

#[test]
fn recent_lines_keep_the_last_ten() {
    let mut r = RecentLines::new();
    assert_eq!(r.joined(), "");
    for i in 0..12 {
        r.push(format!("line {}", i));
    }
    assert_eq!(r.len(), 10);
    assert!(r.joined().starts_with("line 2\nline 3"));
    assert!(r.joined().ends_with("line 11"));
}

#[test]
fn error_lines() {
    assert!(is_error_line("FATAL[0000] start service"));
    assert!(is_error_line("dns: error resolving"));
    assert!(is_error_line("ERROR x"));
    assert!(!is_error_line("INFO started"));
    assert!(!is_error_line("Error with capital E only"));
}

#[test]
fn crash_reports() {
    let mut r = RecentLines::new();
    let base = "sing-box неожиданно завершился (crash). Код: exit code: 1\nВозможно, конфликт с другим VPN (порт уже занят) или ошибка в конфигурации. Закройте другие VPN-приложения и попробуйте снова.";
    assert_eq!(crash_report("exit code: 1", &r), base);
    r.push("a".to_string());
    r.push("b".to_string());
    assert_eq!(crash_report("exit code: 1", &r), format!("{}\nПоследние логи:\na\nb", base));
}

#[test]
fn status_decisions() {
    let r = RecentLines::new();
    let d = decide_status(&ChildStatus::Running, true, &r);
    assert!(d.running && !d.forget_process && d.report.is_none());
    let d = decide_status(&ChildStatus::Exited("exit code: 2".to_string()), true, &r);
    assert!(!d.running && d.forget_process);
    assert!(d.report.unwrap().contains("Код: exit code: 2"));
    let d = decide_status(&ChildStatus::Exited("exit code: 2".to_string()), false, &r);
    assert!(d.report.is_none());
    let d = decide_status(&ChildStatus::Unreadable, true, &r);
    assert!(!d.running && !d.forget_process);
    let d = decide_status(&ChildStatus::NotStarted, true, &r);
    assert!(!d.running && !d.forget_process);
}

#[test]
fn process_job_is_created() {
    assert!(ProcessJob::new().is_ok());
}

#[test]
fn missing_files_messages() {
    let checked = vec!["a\\sing-box.exe".to_string(), "b\\sing-box.exe".to_string()];
    assert_eq!(
        missing_binary_message(&checked),
        "Бинарник sing-box не найден. Проверены пути:\n- a\\sing-box.exe\n- b\\sing-box.exe"
    );
    assert_eq!(
        missing_wintun_message("C:\\app\\wintun.dll"),
        "Файл wintun.dll не найден по пути: C:\\app\\wintun.dll. Он необходим для работы VPN. Пожалуйста, переустановите приложение."
    );
    assert_eq!(join_texts(&vec![], ", "), "");
}
