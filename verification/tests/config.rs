use vlessok::config::{singbox_config_from_parts, validate_uuid, vless_url_to_singbox_config, RulePackFiles};
use vlessok::json::JsonValue;
use vlessok::routing::{RoutingMode, RoutingRules};
use vlessok::vless_url::UrlParts;

const TEST_URL: &str = "vless://550e8400-e29b-41d4-a716-446655440000@192.168.1.1:443\
    ?type=tcp&encryption=none&security=reality\
    &pbk=testPublicKey123456789012345678901234567890\
    &fp=chrome&sni=www.google.com&sid=abcdef12\
    &spx=%2F&flow=xtls-rprx-vision#MyServer";

fn to_serde(v: &JsonValue) -> serde_json::Value {
    match v {
        JsonValue::Bool(b) => serde_json::Value::Bool(*b),
        JsonValue::Number(n) => serde_json::Value::from(*n),
        JsonValue::Str(s) => serde_json::Value::String(s.clone()),
        JsonValue::Array(items) => serde_json::Value::Array(items.iter().map(to_serde).collect()),
        JsonValue::Object(members) => {
            let mut m = serde_json::Map::new();
            for (k, v) in members {
                m.insert(k.clone(), to_serde(v));
            }
            serde_json::Value::Object(m)
        }
    }
}

fn no_packs() -> RulePackFiles {
    RulePackFiles { inside: None, outside: None }
}

fn render(url: &str, rules: Option<&RoutingRules>, packs: &RulePackFiles) -> Result<String, String> {
    vless_url_to_singbox_config(url, rules, packs)
        .map(|v| serde_json::to_string_pretty(&to_serde(&v)).unwrap())
}

fn document(url: &str, rules: Option<&RoutingRules>, packs: &RulePackFiles) -> serde_json::Value {
    to_serde(&vless_url_to_singbox_config(url, rules, packs).unwrap())
}

#[test]
fn test_valid_url_parses_ok() {
    let result = render(TEST_URL, None, &no_packs());
    assert!(result.is_ok(), "Парсинг валидного URL должен успешно работать");
}

#[test]
fn test_json_contains_server() {
    let json_str = render(TEST_URL, None, &no_packs()).unwrap();
    assert!(json_str.contains("192.168.1.1"), "JSON должен содержать адрес сервера");
}

#[test]
fn test_json_contains_flow() {
    let json_str = render(TEST_URL, None, &no_packs()).unwrap();
    assert!(json_str.contains("xtls-rprx-vision"), "JSON должен содержать flow");
}

#[test]
fn test_missing_sni_returns_error() {
    let url_without_sni = "vless://550e8400-e29b-41d4-a716-446655440000@1.2.3.4:443\
        ?security=reality&pbk=key123";
    let result = render(url_without_sni, None, &no_packs());
    assert!(result.is_err(), "URL без SNI должен возвращать ошибку");
}

#[test]
fn test_invalid_uuid_returns_error() {
    let bad_url = "vless://not-a-uuid@1.2.3.4:443?sni=x.com&pbk=key";
    let result = render(bad_url, None, &no_packs());
    assert!(result.is_err(), "URL с невалидным UUID должен возвращать ошибку");
}

#[test]
fn outbound_carries_profile_settings() {
    let doc = document(&format!("  {}  ", TEST_URL), None, &no_packs());
    let out = &doc["outbounds"][0];
    assert_eq!(out["type"], "vless");
    assert_eq!(out["server"], "192.168.1.1");
    assert_eq!(out["server_port"], 443);
    assert_eq!(out["uuid"], "550e8400-e29b-41d4-a716-446655440000");
    assert_eq!(out["flow"], "xtls-rprx-vision");
    assert_eq!(out["tls"]["server_name"], "www.google.com");
    assert_eq!(out["tls"]["utls"]["fingerprint"], "chrome");
    assert_eq!(out["tls"]["reality"]["public_key"], "testPublicKey123456789012345678901234567890");
    assert_eq!(out["tls"]["reality"]["short_id"], "abcdef12");
    assert_eq!(doc["outbounds"][1]["tag"], "direct");
    assert_eq!(doc["outbounds"][2]["tag"], "block");
    assert_eq!(doc["inbounds"][0]["route_exclude_address"][0], "192.168.1.1/32");
    assert_eq!(doc["route"]["final"], "proxy");
    assert_eq!(doc["route"]["rules"][2]["ip_cidr"][0], "192.168.1.1/32");
    assert_eq!(doc["route"]["rules"].as_array().unwrap().len(), 4);
    assert!(doc["route"].get("rule_set").is_none());
    assert_eq!(doc["dns"]["rules"].as_array().unwrap().len(), 1);
}

#[test]
fn defaults_and_domain_server() {
    let url = "vless://550e8400-e29b-41d4-a716-446655440000@vpn.example.com:8443?pbk=K&sni=s.com";
    let doc = document(url, None, &no_packs());
    let out = &doc["outbounds"][0];
    assert!(out.get("flow").is_none());
    assert_eq!(out["tls"]["utls"]["fingerprint"], "chrome");
    assert_eq!(out["tls"]["reality"]["short_id"], "");
    assert!(doc["inbounds"][0].get("route_exclude_address").is_none());
    assert_eq!(doc["dns"]["rules"][0]["domain"][0], "vpn.example.com");
    assert_eq!(doc["route"]["rules"][2]["domain"][0], "vpn.example.com");
}

#[test]
fn last_query_value_wins_and_empty_counts_as_missing() {
    let url = "vless://550e8400-e29b-41d4-a716-446655440000@1.2.3.4:443?sni=a.com&pbk=K&sni=b.com&fp=";
    let doc = document(url, None, &no_packs());
    assert_eq!(doc["outbounds"][0]["tls"]["server_name"], "b.com");
    assert_eq!(doc["outbounds"][0]["tls"]["utls"]["fingerprint"], "chrome");
    let url = "vless://550e8400-e29b-41d4-a716-446655440000@1.2.3.4:443?sni=a.com&pbk=K&sni=";
    assert!(render(url, None, &no_packs()).is_err());
}

#[test]
fn url_errors_name_the_problem() {
    let packs = no_packs();
    let err = |u: &str| vless_url_to_singbox_config(u, None, &packs).err().unwrap();
    assert!(err("not a url").starts_with("Не удалось разобрать URL: "));
    assert_eq!(err("trojan://x@1.2.3.4:443"), "Неверная схема URL: 'trojan'. Ожидается 'vless://'");
    assert_eq!(err("vless://1.2.3.4:443?sni=a&pbk=b"), "UUID не найден в URL (ожидается vless://UUID@host:port)");
    assert_eq!(
        err("vless://550e8400-e29b-41d4-a716-446655440000@1.2.3.4?sni=a&pbk=b"),
        "Порт не найден в URL (ожидается vless://UUID@host:PORT)"
    );
    assert_eq!(
        err("vless://550e8400-e29b-41d4-a716-446655440000@1.2.3.4:443?pbk=b"),
        "Параметр 'sni' не найден или пустой. Reality требует SNI (например, sni=www.google.com)"
    );
    assert_eq!(
        err("vless://550e8400-e29b-41d4-a716-446655440000@1.2.3.4:443?sni=a"),
        "Параметр 'pbk' (public key) не найден в URL"
    );
    assert_eq!(err("vless://not-a-uuid@1.2.3.4:443?sni=x.com&pbk=key"), "Неверная длина UUID: 10 символов (ожидается 36)");
}

#[test]
fn uuid_checks() {
    assert!(validate_uuid("550e8400-e29b-41d4-a716-446655440000").is_ok());
    assert!(validate_uuid("550E8400-E29B-41D4-A716-446655440000").is_ok());
    assert_eq!(validate_uuid("").unwrap_err(), "Неверная длина UUID: 0 символов (ожидается 36)");
    assert_eq!(
        validate_uuid("550e8400e-29b-41d4-a716-446655440000").unwrap_err(),
        "Неверный формат UUID. Ожидается: xxxxxxxx-xxxx-xxxx-xxxx-xxxxxxxxxxxx"
    );
    assert_eq!(
        validate_uuid("550e8400-e29b-41d4-a716-44665544000g").unwrap_err(),
        "Неверный символ 'g' в UUID на позиции 35 (допустимы только 0-9, a-f, A-F)"
    );
    // Length is counted in bytes: 35 characters, one of them two bytes long.
    assert_eq!(
        validate_uuid("550e8400-e29b-41d4-a716-4466554400я").unwrap_err(),
        "Неверный символ 'я' в UUID на позиции 34 (допустимы только 0-9, a-f, A-F)"
    );
}

#[test]
fn rule_mode_route() {
    let mut rules = RoutingRules::default();
    rules.add_domain("example.org").unwrap();
    rules.add_geo_rule("geosite:netflix").unwrap();
    rules.add_geo_rule("geoip:ru").unwrap();
    rules.add_geo_rule("telegram_combo").unwrap();
    rules.add_process("steam.exe").unwrap();
    let packs = RulePackFiles {
        inside: Some("C:\\data\\inside.json".to_string()),
        outside: Some("C:\\data\\outside.json".to_string()),
    };
    let doc = document(TEST_URL, Some(&rules), &packs);
    let route = &doc["route"];
    assert_eq!(route["final"], "direct");
    let r = route["rules"].as_array().unwrap();
    assert_eq!(r[4]["process_name"], serde_json::Value::from(vec!["steam.exe", "telegram.exe"]));
    assert_eq!(r[4]["outbound"], "proxy");
    assert_eq!(r[5]["rule_set"], serde_json::Value::from(vec!["outside-pack"]));
    assert_eq!(r[5]["outbound"], "direct");
    assert_eq!(r[6]["domain_suffix"], serde_json::Value::from(vec!["example.org"]));
    assert_eq!(
        r[7]["rule_set"],
        serde_json::Value::from(vec!["inside-pack", "geosite-netflix", "geoip-ru", "geosite-telegram", "geoip-telegram"])
    );
    let sets = route["rule_set"].as_array().unwrap();
    assert_eq!(sets[0]["path"], "C:/data/outside.json");
    assert_eq!(sets[1]["tag"], "inside-pack");
    assert_eq!(sets[1]["path"], "C:/data/inside.json");
    assert_eq!(
        sets[2]["url"],
        "https://raw.githubusercontent.com/SagerNet/sing-geosite/rule-set/geosite-netflix.srs"
    );
    assert_eq!(sets[3]["url"], "https://raw.githubusercontent.com/SagerNet/sing-geoip/rule-set/geoip-ru.srs");
    assert_eq!(sets.len(), 6);

    let mut global = rules.clone();
    global.set_mode(RoutingMode::Global);
    let doc = document(TEST_URL, Some(&global), &packs);
    assert_eq!(doc["route"]["final"], "proxy");
    assert_eq!(doc, document(TEST_URL, None, &packs));
}

#[test]
fn missing_host_is_refused() {
    let parts = UrlParts {
        scheme: "vless".to_string(),
        username: "550e8400-e29b-41d4-a716-446655440000".to_string(),
        host: None,
        port: Some(443),
        query: vec![("sni".to_string(), "a.com".to_string()), ("pbk".to_string(), "K".to_string())],
    };
    let err = singbox_config_from_parts(&parts, None, &no_packs()).err().unwrap();
    assert_eq!(err, "Адрес сервера не найден в URL");
}

#[test]
fn ipv6_server_is_excluded_from_the_tunnel() {
    let url = "vless://550e8400-e29b-41d4-a716-446655440000@[2001:db8::1]:443?pbk=K&sni=s.com";
    let doc = document(url, None, &no_packs());
    assert_eq!(doc["outbounds"][0]["server"], "[2001:db8::1]");
    assert_eq!(doc["inbounds"][0]["route_exclude_address"][0], "[2001:db8::1]/128");
    assert_eq!(doc["route"]["rules"][2]["ip_cidr"][0], "[2001:db8::1]/32");
    assert_eq!(doc["dns"]["rules"].as_array().unwrap().len(), 1);
}

#[test]
fn outside_pack_goes_direct_in_global_mode() {
    let packs = RulePackFiles { inside: Some("in.json".to_string()), outside: Some("out.json".to_string()) };
    let doc = document(TEST_URL, None, &packs);
    let rules = doc["route"]["rules"].as_array().unwrap();
    assert_eq!(rules.len(), 5);
    assert_eq!(rules[4]["rule_set"], serde_json::Value::from(vec!["outside-pack"]));
    assert_eq!(rules[4]["outbound"], "direct");
    let sets = doc["route"]["rule_set"].as_array().unwrap();
    assert_eq!(sets.len(), 1);
    assert_eq!(sets[0]["tag"], "outside-pack");
    assert_eq!(sets[0]["path"], "out.json");
}
