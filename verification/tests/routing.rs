use vlessok::routing::{normalize_domain, routing_mode_from_name, RoutingMode, RoutingRules};

#[test]
fn test_normalize_domain() {
    let cases = vec![
        ("youtube.com", "youtube.com"),
        ("  youtube.com  ", "youtube.com"),
        ("https://youtube.com", "youtube.com"),
        ("http://youtube.com", "youtube.com"),
        ("domain:youtube.com", "youtube.com"),
        ("full:youtube.com", "youtube.com"),
        ("www.youtube.com", "youtube.com"),
        ("WWW.GOOGLE.COM", "google.com"),
        ("https://www.youtube.com/watch?v=abc", "youtube.com"),
        ("youtube.com?utm=foo", "youtube.com"),
        ("youtube.com#section", "youtube.com"),
        ("https://login.microsoft.com:443/auth", "login.microsoft.com"),
        ("api.service.net", "api.service.net"),
    ];

    for (input, expected) in cases {
        assert_eq!(normalize_domain(input).unwrap(), expected, "Failed for input: {}", input);
    }
}

#[test]
fn test_invalid_domains() {
    assert!(normalize_domain("localhost").is_err());
    assert!(normalize_domain("you tube.com").is_err());
}

#[test]
fn normalize_domain_error_messages() {
    assert_eq!(normalize_domain("   ").unwrap_err(), "Домен не может быть пустым");
    assert_eq!(normalize_domain("https://").unwrap_err(), "Домен не может быть пустым");
    assert_eq!(normalize_domain("localhost").unwrap_err(), "Неверный формат домена (нет точки)");
    assert_eq!(
        normalize_domain("you tube.com").unwrap_err(),
        "Домен содержит недопустимый символ: ' '"
    );
    assert_eq!(
        normalize_domain("привет.рф").unwrap_err(),
        "Домен содержит недопустимый символ: 'п'"
    );
}

#[test]
fn normalize_domain_strips_combined_prefixes_once_each() {
    assert_eq!(normalize_domain("full:https://example.org/x").unwrap(), "example.org");
    assert_eq!(normalize_domain("domain:www.example.org").unwrap(), "example.org");
    assert_eq!(normalize_domain("\tExample.ORG:8080").unwrap(), "example.org");
}

#[test]
fn normalize_domain_is_idempotent_on_its_results() {
    for input in ["https://www.Mail.ru/inbox", "full:sub_domain.test-site.org", "youtube.com"] {
        let once = normalize_domain(input).unwrap();
        assert_eq!(normalize_domain(&once).unwrap(), once);
    }
    // A domain that itself starts with `www.` loses it on a second pass.
    let once = normalize_domain("www.www.example.com").unwrap();
    assert_eq!(once, "www.example.com");
    assert_eq!(normalize_domain(&once).unwrap(), "example.com");
}

#[test]
fn default_rules_use_rule_mode_with_russia_pack() {
    let r = RoutingRules::default();
    assert_eq!(r.routing_mode, RoutingMode::Rule);
    assert!(r.domains.is_empty());
    assert_eq!(r.geo_rules, vec!["russia_pack".to_string()]);
    assert!(r.processes.is_empty());
    assert_eq!(vlessok::routing::default_routing_mode(), RoutingMode::Global);
}

#[test]
fn mode_names() {
    assert_eq!(routing_mode_from_name("rule"), RoutingMode::Rule);
    assert_eq!(routing_mode_from_name("global"), RoutingMode::Global);
    assert_eq!(routing_mode_from_name("Rule"), RoutingMode::Global);
    let mut r = RoutingRules::default();
    r.set_mode(RoutingMode::Global);
    assert_eq!(r.routing_mode, RoutingMode::Global);
    assert_eq!(r.geo_rules, vec!["russia_pack".to_string()]);
}

#[test]
fn add_domain_twice_is_refused_and_remove_undoes() {
    let mut r = RoutingRules::default();
    assert_eq!(r.add_domain("https://www.YouTube.com/watch").unwrap(), "youtube.com");
    assert_eq!(r.domains, vec!["youtube.com".to_string()]);
    assert_eq!(r.add_domain("youtube.com").unwrap_err(), "Домен 'youtube.com' уже в списке");
    assert_eq!(r.domains.len(), 1);
    assert!(r.add_domain("nodot").is_err());
    r.remove_domain("youtube.com");
    assert!(r.domains.is_empty());
    r.remove_domain("absent.com");
    assert!(r.domains.is_empty());
}

#[test]
fn add_geo_rule_checks_form_and_duplicates() {
    let mut r = RoutingRules::default();
    assert_eq!(r.add_geo_rule("  GeoSite:Netflix ").unwrap(), "geosite:netflix");
    assert_eq!(r.add_geo_rule("geoip:ru").unwrap(), "geoip:ru");
    assert_eq!(r.add_geo_rule("telegram_combo").unwrap(), "telegram_combo");
    assert_eq!(
        r.add_geo_rule("netflix").unwrap_err(),
        "Правило должно начинаться с 'geosite:' или 'geoip:' или быть известным пресетом"
    );
    assert_eq!(r.add_geo_rule("russia_pack").unwrap_err(), "Правило 'russia_pack' уже в списке");
    r.remove_geo_rule("geosite:netflix");
    assert_eq!(
        r.geo_rules,
        vec!["russia_pack".to_string(), "geoip:ru".to_string(), "telegram_combo".to_string()]
    );
}

#[test]
fn add_process_ignores_ascii_case_for_duplicates() {
    let mut r = RoutingRules::default();
    assert_eq!(r.add_process("  Telegram.EXE ").unwrap(), "Telegram.EXE");
    assert_eq!(r.add_process("telegram.exe").unwrap_err(), "Процесс 'telegram.exe' уже в списке");
    assert_eq!(r.add_process("chrome").unwrap_err(), "Имя процесса должно заканчиваться на '.exe'");
    assert_eq!(r.add_process("chrome.exe").unwrap(), "chrome.exe");
    r.remove_process("TELEGRAM.exe");
    assert_eq!(r.processes, vec!["chrome.exe".to_string()]);
}

#[test]
fn normalize_domain_ignores_case_and_outer_whitespace() {
    let plain = normalize_domain("mail.example.com/inbox");
    assert_eq!(plain, Ok("mail.example.com".to_string()));
    assert_eq!(normalize_domain("MAIL.Example.COM/INBOX"), plain);
    assert_eq!(normalize_domain("\u{3000} mail.example.com/inbox\t\n"), plain);
    assert_eq!(normalize_domain("Example.COM/Путь"), Ok("example.com".to_string()));
    assert_eq!(normalize_domain("LOCALHOST"), normalize_domain("localhost"));
}

#[test]
fn geo_rules_are_stored_lower_case() {
    let mut rules = RoutingRules::default();
    assert_eq!(rules.add_geo_rule("  GeoSite:Netflix "), Ok("geosite:netflix".to_string()));
    assert_eq!(rules.geo_rules, vec!["russia_pack".to_string(), "geosite:netflix".to_string()]);
    rules.remove_geo_rule("geosite:netflix");
    assert_eq!(rules.geo_rules, vec!["russia_pack".to_string()]);
}
