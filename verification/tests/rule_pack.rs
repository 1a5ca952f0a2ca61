use vlessok::json::JsonValue;
use vlessok::rule_pack::{merge_rule_lists, rule_set_json, split_lines};

#[test]
fn lines_split_like_str_lines() {
    let texts = ["", "\n", "a\nb", "a\r\nb\r\n", "a\n\nb\n", "x\r", "\r\n\r\n"];
    for t in texts {
        let ours: Vec<String> = split_lines(t).into_iter().map(|l| l.into_iter().collect()).collect();
        let std_lines: Vec<String> = t.lines().map(|l| l.to_string()).collect();
        assert_eq!(ours, std_lines, "text {:?}", t);
    }
}

#[test]
fn merged_lists_are_sorted_unique_and_filtered() {
    let base = "# comment\nyoutube.com\n  google.com  \nsite.ua\n\nyoutube.com\r\n";
    let remote = "b.org\ngoogle.com\n#x.com\nkyiv.ua\na.org";
    let merged = merge_rule_lists(base, remote);
    assert_eq!(merged, vec!["a.org", "b.org", "google.com", "youtube.com"]);
    assert!(merge_rule_lists("", "").is_empty());
    assert_eq!(merge_rule_lists("Z.com\na.com\n", ""), vec!["Z.com", "a.com"]);
}

#[test]
fn rule_set_document_shape() {
    let v = rule_set_json(&vec!["a.org".to_string(), "b.org".to_string()]);
    match v {
        JsonValue::Object(m) => {
            assert_eq!(m.len(), 2);
            assert_eq!(m[0].0, "version");
            assert!(matches!(m[0].1, JsonValue::Number(1)));
            assert_eq!(m[1].0, "rules");
            match &m[1].1 {
                JsonValue::Array(rules) => match &rules[0] {
                    JsonValue::Object(rule) => {
                        assert_eq!(rule[0].0, "domain_suffix");
                        match &rule[0].1 {
                            JsonValue::Array(items) => {
                                assert_eq!(items.len(), 2);
                                assert!(matches!(&items[1], JsonValue::Str(s) if s == "b.org"));
                            }
                            _ => panic!("domain_suffix is not an array"),
                        }
                    }
                    _ => panic!("rule is not an object"),
                },
                _ => panic!("rules is not an array"),
            }
        }
        _ => panic!("not an object"),
    }
}
