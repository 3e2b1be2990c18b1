use extended_ui::providers::{
    extract_direct_child_tags, parse_provider_attributes, validate_provider_rules,
    ProviderChildPolicy, ProviderRules,
};

fn key(s: &str) -> Vec<char> {
    s.chars().collect()
}

#[test]
fn provider_attributes_in_all_quoting_styles() {
    let attrs = parse_provider_attributes(r#" Theme="dark" data-x='1' size=12 flag name = "a b" "#);
    assert_eq!(attrs.get(&key("theme")), Some(&"dark".to_string()));
    assert_eq!(attrs.get(&key("data-x")), Some(&"1".to_string()));
    assert_eq!(attrs.get(&key("size")), Some(&"12".to_string()));
    assert_eq!(attrs.get(&key("name")), Some(&"a b".to_string()));
    assert_eq!(attrs.get(&key("flag")), None);
    assert_eq!(attrs.len(), 4);
}

#[test]
fn later_provider_attribute_wins() {
    let attrs = parse_provider_attributes("a=1 A=2");
    assert_eq!(attrs.get(&key("a")), Some(&"2".to_string()));
    assert_eq!(attrs.len(), 1);
}

#[test]
fn direct_child_tags_skip_nested_and_void_elements() {
    let tags = extract_direct_child_tags(
        "<BODY class=\"x\"><div><p>a</p></div></body><br><img src=\"a.png\"/><Section></section>",
    );
    assert_eq!(
        tags,
        vec![
            "body".to_string(),
            "br".to_string(),
            "img".to_string(),
            "section".to_string()
        ]
    );
    assert_eq!(extract_direct_child_tags("text only"), Vec::<String>::new());
    assert_eq!(
        extract_direct_child_tags("</x></y><a>"),
        vec!["a".to_string()]
    );
}

#[test]
fn provider_rules() {
    let rules = ProviderRules {
        allow_in_head: false,
        requires_body_child: true,
        child_policy: ProviderChildPolicy::Only(vec!["BODY".to_string(), "style".to_string()]),
    };
    assert_eq!(
        validate_provider_rules(&rules, &vec!["body".to_string()], true),
        Err("<head> placement is not allowed".to_string())
    );
    assert_eq!(
        validate_provider_rules(&rules, &vec!["div".to_string()], false),
        Err("expected a direct <body> child".to_string())
    );
    assert_eq!(
        validate_provider_rules(&rules, &vec!["body".to_string(), "div".to_string()], false),
        Err("child <div> is not allowed".to_string())
    );
    assert_eq!(
        validate_provider_rules(&rules, &vec!["Body".to_string(), "style".to_string()], false),
        Ok(())
    );
    let open = ProviderRules {
        allow_in_head: true,
        requires_body_child: false,
        child_policy: ProviderChildPolicy::Any,
    };
    assert_eq!(validate_provider_rules(&open, &vec!["div".to_string()], true), Ok(()));
}

#[test]
fn direct_child_tag_names_fold_like_case_insensitive_letters() {
    let tags = extract_direct_child_tags("<BODY></BODY><\u{212A}ey/><\u{17F}pan></\u{17F}pan><1x>");
    assert_eq!(tags, vec!["body".to_string(), "\u{212A}ey".to_string(), "\u{17F}pan".to_string()]);
}
