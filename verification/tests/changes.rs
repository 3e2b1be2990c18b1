use extended_ui::context::{UiLangVariables, UiSharedValues};
use extended_ui::html::{
    build_template_binding_profile, source_requires_value_reparse, take_rebuild_keys,
    text_binding_needs_patch, HtmlBindingValueTracker, HtmlDirty, HtmlTemplateBindingProfile,
};
use extended_ui::json::{JsonNumber, JsonValue};
use extended_ui::keyed::KeyedMap;
use extended_ui::registry::HtmlSource;

fn sorted(mut v: Vec<String>) -> Vec<String> {
    v.sort();
    v
}

#[test]
fn tracker_reports_changed_added_and_removed_roots() {
    let mut tracker = HtmlBindingValueTracker::new();
    let mut vars = UiLangVariables::default();
    vars.set("title", "Hello", None);
    vars.set("count", "1", Some(JsonValue::Number(JsonNumber::Int(1))));
    let mut shared = UiSharedValues::default();
    shared
        .values
        .insert("game::Player", JsonValue::String("a".to_string()));

    tracker.track(&vars, &shared);
    assert!(tracker.values_changed);
    assert_eq!(
        sorted(tracker.changed_roots.clone()),
        vec!["count".to_string(), "game".to_string(), "title".to_string()]
    );

    tracker.track(&vars, &shared);
    assert!(!tracker.values_changed);
    assert!(tracker.changed_roots.is_empty());

    let mut vars2 = UiLangVariables::default();
    vars2.set("title", "Bye", None);
    let mut shared2 = UiSharedValues::default();
    shared2
        .values
        .insert("game::Player", JsonValue::String("b".to_string()));
    tracker.track(&vars2, &shared2);
    assert_eq!(
        sorted(tracker.changed_roots.clone()),
        vec!["count".to_string(), "game".to_string(), "title".to_string()]
    );
}

#[test]
fn text_patch_decision() {
    let bindings = vec!["{{ user.name }}".to_string(), "{{ stats }}".to_string()];
    assert!(text_binding_needs_patch(&bindings, &vec!["stats".to_string()]));
    assert!(!text_binding_needs_patch(&bindings, &vec!["other".to_string()]));
}

#[test]
fn reparse_decision() {
    let mut profiles: KeyedMap<HtmlTemplateBindingProfile> = KeyedMap::new();
    profiles.insert(
        "main",
        build_template_binding_profile("<p>{{ user.name }}</p>", &vec![vec!["{{ user.name }}".to_string()]]),
    );
    let mut named = HtmlSource::from_handle(None);
    named.source_id = "main".to_string();
    let unnamed = HtmlSource::from_handle(None);
    let mut other = HtmlSource::from_handle(None);
    other.source_id = "other".to_string();

    assert!(!source_requires_value_reparse(&named, &profiles, &vec![]));
    assert!(source_requires_value_reparse(&unnamed, &profiles, &vec!["x".to_string()]));
    assert!(source_requires_value_reparse(&other, &profiles, &vec!["x".to_string()]));
    assert!(!source_requires_value_reparse(&named, &profiles, &vec!["user".to_string()]));
}

#[test]
fn rebuild_keys_follow_marks() {
    let mut clean = HtmlDirty { dirty: false, keys: vec!["a".to_string()] };
    assert!(take_rebuild_keys(&mut clean, &Some(vec!["a".to_string()])).is_empty());
    assert_eq!(clean.keys, vec!["a".to_string()]);

    let mut all = HtmlDirty { dirty: true, keys: vec![] };
    assert_eq!(
        take_rebuild_keys(&mut all, &Some(vec!["a".to_string(), "b".to_string()])),
        vec!["a".to_string(), "b".to_string()]
    );
    assert!(!all.dirty);

    let mut some = HtmlDirty {
        dirty: true,
        keys: vec!["b".to_string(), "z".to_string()],
    };
    assert_eq!(
        take_rebuild_keys(&mut some, &Some(vec!["a".to_string(), "b".to_string()])),
        vec!["b".to_string()]
    );
    assert_eq!(some.keys, vec!["z".to_string()]);
    assert!(!some.dirty);

    let mut none_active = HtmlDirty { dirty: true, keys: vec!["q".to_string()] };
    assert!(take_rebuild_keys(&mut none_active, &None).is_empty());
    assert!(none_active.keys.is_empty());
    assert!(!none_active.dirty);
}
