use victauri::ranking::{compare_scores, score_lowered, Score};
use victauri::registry::{query_matches, CommandArg, CommandInfo, CommandRegistry};

fn value(s: &Score) -> f64 {
    (s.whole as f64 + s.word_rest as f64 / s.words as f64 + s.name_rest as f64 / s.parts as f64) / 2.0
}

fn chars(s: &str) -> Vec<char> {
    s.chars().collect()
}

fn words(s: &str) -> Vec<Vec<char>> {
    s.split_whitespace().map(chars).collect()
}

#[test]
fn new_command_has_only_a_name() {
    let cmd = CommandInfo::new("greet");
    assert_eq!(cmd.name, "greet");
    assert!(cmd.description.is_none());
    assert!(cmd.intent.is_none() && cmd.category.is_none() && cmd.plugin.is_none());
    assert!(cmd.args.is_empty() && cmd.examples.is_empty() && !cmd.is_async);
}

#[test]
fn builders_set_their_field() {
    let cmd = CommandInfo::new("x")
        .with_description("d")
        .with_intent("i")
        .with_category("c");
    assert_eq!(cmd.description.as_deref(), Some("d"));
    assert_eq!(cmd.intent.as_deref(), Some("i"));
    assert_eq!(cmd.category.as_deref(), Some("c"));
    assert_eq!(cmd.name, "x");
}

#[test]
fn new_registry_is_empty() {
    let registry = CommandRegistry::new();
    assert_eq!(registry.count(), 0);
    assert!(registry.list().is_empty());
}

#[test]
fn register_then_get() {
    let mut registry = CommandRegistry::new();
    registry.register(CommandInfo::new("greet").with_description("Say hello"));
    assert_eq!(registry.count(), 1);
    let got = registry.get("greet").unwrap();
    assert_eq!(got.description.as_deref(), Some("Say hello"));
    assert!(registry.get("other").is_none());
}

#[test]
fn register_replaces_same_name() {
    let mut registry = CommandRegistry::new();
    registry.register(CommandInfo::new("greet").with_description("old"));
    registry.register(CommandInfo::new("greet").with_description("new"));
    assert_eq!(registry.count(), 1);
    assert_eq!(registry.get("greet").unwrap().description.as_deref(), Some("new"));
}

#[test]
fn list_is_alphabetical() {
    let mut registry = CommandRegistry::new();
    for n in ["zeta", "alpha", "mid", "Beta"] {
        registry.register(CommandInfo::new(n));
    }
    let names: Vec<String> = registry.list().into_iter().map(|c| c.name).collect();
    assert_eq!(names, vec!["Beta", "alpha", "mid", "zeta"]);
}

#[test]
fn from_commands_keeps_the_last_of_each_name() {
    let registry = CommandRegistry::from_commands(vec![
        CommandInfo::new("b").with_description("first"),
        CommandInfo::new("a"),
        CommandInfo::new("b").with_description("second"),
    ]);
    assert_eq!(registry.count(), 2);
    assert_eq!(registry.get("b").unwrap().description.as_deref(), Some("second"));
}

#[test]
fn search_by_substring_of_description() {
    let mut registry = CommandRegistry::new();
    registry.register(CommandInfo::new("get_settings").with_description("Retrieve app settings"));
    let results = registry.search("settings");
    assert_eq!(results.len(), 1);
    assert_eq!(results[0].name, "get_settings");
}

#[test]
fn search_is_case_insensitive_and_ordered() {
    let mut registry = CommandRegistry::new();
    registry.register(CommandInfo::new("save_file"));
    registry.register(CommandInfo::new("load").with_description("Load a FILE from disk"));
    registry.register(CommandInfo::new("quit"));
    let names: Vec<String> = registry.search("File").into_iter().map(|c| c.name).collect();
    assert_eq!(names, vec!["load", "save_file"]);
    assert!(registry.search("nothing-like-it").is_empty());
}

#[test]
fn query_matches_name_or_description() {
    assert!(query_matches("get_settings", None, "settings"));
    assert!(query_matches("x", Some("retrieve settings"), "settings"));
    assert!(!query_matches("x", Some("y"), "settings"));
}

#[test]
fn resolve_finds_a_described_command() {
    let mut registry = CommandRegistry::new();
    registry.register(
        CommandInfo::new("get_settings")
            .with_description("Retrieve app settings")
            .with_intent("fetch configuration")
            .with_category("settings"),
    );
    let results = registry.resolve("get settings");
    assert!(!results.is_empty());
    assert!(value(&results[0].score) > 0.0);
}

#[test]
fn exact_intent_outranks_name_substring() {
    let mut registry = CommandRegistry::new();
    registry.register(CommandInfo::new("get_counter"));
    registry.register(CommandInfo::new("increment").with_intent("increase counter"));
    let results = registry.resolve("increase counter");
    assert_eq!(results[0].command.name, "increment");
    assert_eq!(results[1].command.name, "get_counter");
    assert_eq!(value(&results[0].score), 10.5);
    assert_eq!(value(&results[1].score), 3.0);
}

#[test]
fn fuller_name_coverage_breaks_ties() {
    let mut registry = CommandRegistry::new();
    registry.register(CommandInfo::new("get_app_settings_v2"));
    registry.register(CommandInfo::new("settings"));
    let results = registry.resolve("settings");
    let names: Vec<&str> = results.iter().map(|r| r.command.name.as_str()).collect();
    assert_eq!(names, vec!["settings", "get_app_settings_v2"]);
    // settings: exact name 10 + substring 3 + word 2 + coverage 1.
    assert_eq!(value(&results[0].score), 16.0);
    // get_app_settings_v2: substring 3 + word 2 + coverage 1/4.
    assert_eq!(value(&results[1].score), 5.25);
}

#[test]
fn equal_scores_fall_back_to_name_order() {
    let mut registry = CommandRegistry::new();
    registry.register(CommandInfo::new("beta").with_description("a thing"));
    registry.register(CommandInfo::new("alpha").with_description("a thing"));
    let results = registry.resolve("thing");
    let names: Vec<&str> = results.iter().map(|r| r.command.name.as_str()).collect();
    assert_eq!(names, vec!["alpha", "beta"]);
    assert_eq!(value(&results[0].score), 1.5);
}

#[test]
fn blank_or_unmatched_queries_resolve_to_nothing() {
    let mut registry = CommandRegistry::new();
    registry.register(CommandInfo::new("greet"));
    assert!(registry.resolve("   ").is_empty());
    assert!(registry.resolve("unrelated").is_empty());
}

#[test]
fn example_containing_the_query_scores_a_bonus() {
    let mut cmd = CommandInfo::new("open");
    cmd.examples = vec!["please open the door".to_string(), "door".to_string()];
    let mut registry = CommandRegistry::new();
    registry.register(cmd);
    let results = registry.resolve("the door");
    // Full example hit 4; "the" and "door" are not in the name: coverage 0;
    // the scan stops at the first example, so no word points.
    assert_eq!(value(&results[0].score), 4.0);
}

#[test]
fn example_words_score_half_a_point_each() {
    let mut cmd = CommandInfo::new("open");
    cmd.examples = vec!["door wide".to_string()];
    let mut registry = CommandRegistry::new();
    registry.register(cmd);
    let results = registry.resolve("door shut");
    assert_eq!(value(&results[0].score), 0.25);
}

#[test]
fn query_is_lowercased_before_scoring() {
    let mut registry = CommandRegistry::new();
    registry.register(CommandInfo::new("get_settings"));
    let results = registry.resolve("GET SETTINGS");
    // exact name 10 + (3 + 2 + 3 + 2) / 2 + coverage 1.
    assert_eq!(value(&results[0].score), 16.0);
}

#[test]
fn score_lowered_matches_the_weights() {
    let q = "increase counter";
    let s = score_lowered(
        &chars("increment"),
        None,
        Some(&chars("increase counter")),
        None,
        &[],
        &chars(q),
        &words(q),
    );
    assert_eq!(value(&s), 10.5);
    assert_eq!((s.whole, s.word_rest, s.words, s.name_rest, s.parts), (21, 0, 2, 0, 1));
}

#[test]
fn compare_scores_orders_by_value() {
    let a = Score { whole: 3, word_rest: 1, words: 2, name_rest: 1, parts: 3 };
    let b = Score { whole: 3, word_rest: 1, words: 2, name_rest: 2, parts: 6 };
    let c = Score { whole: 4, word_rest: 0, words: 2, name_rest: 0, parts: 1 };
    assert_eq!(compare_scores(&a, &b), 0);
    assert!(compare_scores(&c, &a) > 0);
    assert!(compare_scores(&a, &c) < 0);
}

#[test]
fn lookups_copy_arguments_and_schemas() {
    let schema: serde_json::Value = serde_json::from_str(r#"{"type": "string", "minLength": 1}"#).unwrap();
    let mut cmd = CommandInfo::new("greet");
    cmd.args = vec![CommandArg {
        name: "who".to_string(),
        rust_type: "String".to_string(),
        required: true,
        schema: Some(schema.clone()),
    }];
    cmd.examples = vec!["say hi".to_string()];
    let mut registry = CommandRegistry::new();
    registry.register(cmd);
    let got = registry.get("greet").unwrap();
    assert_eq!(got.args.len(), 1);
    assert_eq!(got.args[0].name, "who");
    assert_eq!(got.args[0].rust_type, "String");
    assert!(got.args[0].required);
    assert_eq!(got.args[0].schema, Some(schema));
    assert_eq!(got.examples, vec!["say hi".to_string()]);
}
