use squeaky::config::{config_from_file, default_true, key_from_lookup, Config, ProviderCfg, SearchCfg};
use squeaky::modes::{agent_mode, pin, run_mode, AgentMode, RunMode};
use squeaky::text::{can_truncate, join_str, parse_i32, parse_u64, same_text, trim, truncate, u64_to_string};

#[test]
fn trim_and_concat() {
    assert_eq!(trim(" \t hi there \n"), "hi there");
    assert_eq!(trim("\u{3000}x\u{a0}"), "x");
    assert_eq!(join_str("ab", "cd"), "abcd");
    assert!(same_text("abc", "abc"));
    assert!(!same_text("abc", "abd"));
    assert!(!same_text("abc", "ab"));
}

#[test]
fn truncate_cuts_at_byte_count_with_ellipsis() {
    assert_eq!(truncate("hello world", 5), "hello…");
    assert_eq!(truncate("abc", 5), "abc");
    assert_eq!(truncate("abcde", 5), "abcde");
    // 'é' takes bytes 1..3: byte 3 is a boundary, byte 2 is not
    assert!(can_truncate("héllo", 3));
    assert_eq!(truncate("héllo", 3), "hé…");
    assert!(!can_truncate("héllo", 2));
    assert!(can_truncate("hé", 10));
}

#[test]
fn decimal_formatting() {
    assert_eq!(u64_to_string(0), "0");
    assert_eq!(u64_to_string(7), "7");
    assert_eq!(u64_to_string(12345), "12345");
    assert_eq!(u64_to_string(u64::MAX), "18446744073709551615");
}

#[test]
fn keyring_output_is_trimmed() {
    assert_eq!(key_from_lookup(b"  sk-123\n"), Some("sk-123".to_string()));
    assert_eq!(key_from_lookup(b"\n"), None);
    assert_eq!(key_from_lookup(b""), None);
    // invalid UTF-8 is replaced, not dropped
    assert_eq!(key_from_lookup(b"\xffab"), Some("\u{FFFD}ab".to_string()));
}

#[test]
fn default_config_is_zen_then_ollama() {
    let c = Config::with_defaults();
    assert_eq!(c.providers.len(), 2);
    assert_eq!(c.providers[0].id, "zen-free");
    assert_eq!(c.providers[0].base_url, "https://opencode.ai/zen/v1");
    assert_eq!(
        c.providers[0].models,
        vec!["big-pickle", "deepseek-v4-flash-free", "mimo-v2.5-free", "nemotron-3-super-free"]
    );
    assert_eq!(c.providers[0].key_account, None);
    assert_eq!(c.providers[1].id, "ollama");
    assert_eq!(c.providers[1].base_url, "http://localhost:11434/v1");
    assert!(c.providers[1].models.is_empty());
    assert_eq!(c.search.search_backend, "auto");
    assert_eq!(c.search.extract_backend, "auto");
    assert_eq!(c.search.searxng_url, "");
    assert_eq!(c.search.count, 5);
    assert!(c.search.keyless_fallback);
    assert!(default_true());
    let d = SearchCfg::default();
    assert_eq!(d.count, 5);
    assert!(Config::default().providers.is_empty());
}

fn search(count: u32) -> SearchCfg {
    SearchCfg {
        search_backend: "brave".into(),
        extract_backend: "auto".into(),
        searxng_url: String::new(),
        count,
        keyless_fallback: false,
    }
}

#[test]
fn file_config_over_defaults() {
    let none = config_from_file(None);
    assert_eq!(none.providers.len(), 2);
    assert_eq!(none.search.count, 5);

    // an empty provider list keeps the default ring; search settings always apply
    let f = Config { providers: vec![], search: search(3) };
    let c = config_from_file(Some(f));
    assert_eq!(c.providers.len(), 2);
    assert_eq!(c.providers[0].id, "zen-free");
    assert_eq!(c.search.count, 3);
    assert_eq!(c.search.search_backend, "brave");

    let p = ProviderCfg {
        id: "openai".into(),
        base_url: "https://api.openai.com/v1".into(),
        models: vec!["gpt".into()],
        key_account: Some("openai".into()),
    };
    let c = config_from_file(Some(Config { providers: vec![p], search: search(9) }));
    assert_eq!(c.providers.len(), 1);
    assert_eq!(c.providers[0].id, "openai");
    assert_eq!(c.search.count, 9);
}

#[test]
fn config_path_under_home() {
    assert_eq!(squeaky::config::config_path("/home/u"), "/home/u/.config/heyclicky/settings.json");
    assert_eq!(squeaky::config::config_path("/home/u/"), "/home/u/.config/heyclicky/settings.json");
}

#[test]
fn integer_text() {
    assert_eq!(parse_u64("42"), Some(42));
    assert_eq!(parse_u64("+7"), Some(7));
    assert_eq!(parse_u64("-7"), None);
    assert_eq!(parse_u64(""), None);
    assert_eq!(parse_u64("+"), None);
    assert_eq!(parse_u64(" 1"), None);
    assert_eq!(parse_u64("18446744073709551615"), Some(u64::MAX));
    assert_eq!(parse_u64("18446744073709551616"), None);
    assert_eq!(parse_u64("99999999999999999999999999999"), None);
    assert_eq!(parse_i32("-2147483648"), Some(i32::MIN));
    assert_eq!(parse_i32("2147483647"), Some(i32::MAX));
    assert_eq!(parse_i32("2147483648"), None);
    assert_eq!(parse_i32("-"), None);
    assert_eq!(parse_i32("-0"), Some(0));
    assert_eq!(parse_i32("12a"), None);
    assert_eq!(parse_i32("+-1"), None);
}

#[test]
fn command_lines() {
    assert_eq!(agent_mode("ask", "q"), AgentMode::Ask("q".into()));
    assert_eq!(agent_mode("ask", ""), AgentMode::Help);
    assert_eq!(agent_mode("llm-test", ""), AgentMode::LlmTest("Say OK".into()));
    assert_eq!(agent_mode("llm-test", "hi"), AgentMode::LlmTest("hi".into()));
    assert_eq!(agent_mode("search-test", "rust"), AgentMode::SearchTest("rust".into()));
    assert_eq!(agent_mode("extract-test", "https://x"), AgentMode::ExtractTest("https://x".into()));
    assert_eq!(agent_mode("help", ""), AgentMode::Help);
    assert_eq!(run_mode(""), RunMode::Hotkey);
    assert_eq!(run_mode("hotkey"), RunMode::Hotkey);
    assert_eq!(run_mode("demo"), RunMode::Demo);
    assert_eq!(run_mode("scribble"), RunMode::Scribble);
    assert_eq!(run_mode("stt-test"), RunMode::SttTest);
    assert_eq!(run_mode("30"), RunMode::Follow { secs: 30 });
    assert_eq!(run_mode("soon"), RunMode::Follow { secs: 0 });
    assert_eq!(pin(" 10 , -20 "), Some((10, -20)));
    assert_eq!(pin("1,2,3"), Some((1, 2)));
    assert_eq!(pin("5"), None);
    assert_eq!(pin("x,1"), None);
}

#[test]
fn json_decoding() {
    let v = squeaky::json::parse_json(r#"{"a": [1, 2.5, "s", null, true], "b": {"c": -7}}"#).unwrap();
    assert_eq!(
        v,
        squeaky::json::Json::Obj(vec![
            (
                "a".to_string(),
                squeaky::json::Json::Arr(vec![
                    squeaky::json::Json::Num(Some(1)),
                    squeaky::json::Json::Num(None),
                    squeaky::json::Json::Str("s".to_string()),
                    squeaky::json::Json::Null,
                    squeaky::json::Json::Bool(true),
                ]),
            ),
            ("b".to_string(), squeaky::json::Json::Obj(vec![("c".to_string(), squeaky::json::Json::Num(Some(-7)))])),
        ])
    );
    let err = squeaky::json::parse_json("[1,").unwrap_err();
    assert_eq!(err, serde_json::from_str::<serde_json::Value>("[1,").unwrap_err().to_string());
    assert_eq!(squeaky::json::parse_json_bytes(b"\"x\""), Some(squeaky::json::Json::Str("x".to_string())));
    assert_eq!(squeaky::json::parse_json_bytes(b"\xff"), None);
}
