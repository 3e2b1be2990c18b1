use extended_ui::keyed::KeyedMap;
use extended_ui::registry::{HtmlSource, IdPool, UiRegistry};

fn key(s: &str) -> Vec<char> {
    s.chars().collect()
}

fn source(path: &str) -> HtmlSource {
    HtmlSource::from_handle(Some(path.to_string()))
}

#[test]
fn id_pool_hands_out_fresh_ids_in_order() {
    let mut pool = IdPool::new();
    assert_eq!(pool.acquire(), 0);
    assert_eq!(pool.acquire(), 1);
    assert_eq!(pool.acquire(), 2);
}

#[test]
fn id_pool_reuses_released_ids_oldest_first() {
    let mut pool = IdPool::new();
    let a = pool.acquire();
    let b = pool.acquire();
    let c = pool.acquire();
    pool.release(b);
    pool.release(a);
    assert_eq!(pool.acquire(), b);
    assert_eq!(pool.acquire(), a);
    assert_eq!(pool.acquire(), c + 1);
}

#[test]
fn keyed_map_insert_replace_get_remove() {
    let mut m: KeyedMap<String> = KeyedMap::new();
    m.insert("b", "2".to_string());
    m.insert("a", "1".to_string());
    m.insert("c", "3".to_string());
    m.insert("b", "two".to_string());
    assert_eq!(m.len(), 3);
    assert_eq!(m.key_at(0), "a");
    assert_eq!(m.key_at(1), "b");
    assert_eq!(m.key_at(2), "c");
    assert_eq!(m.get(&key("b")), Some(&"two".to_string()));
    assert_eq!(m.get(&key("z")), None);
    m.remove(&key("b"));
    assert_eq!(m.get(&key("b")), None);
    assert_eq!(m.len(), 2);
    m.clear();
    assert_eq!(m.len(), 0);
}

#[test]
fn html_source_from_handle_and_path_resolution_work() {
    let src = HtmlSource::from_handle(Some("examples\\test.html".to_string()));
    assert_eq!(src.source_id, "");
    assert_eq!(src.controller, None);
    assert_eq!(src.get_source_path(), "examples/test.html");
    assert_eq!(HtmlSource::from_handle(None).get_source_path(), "");
}

#[test]
fn registry_add_use_and_remove() {
    let mut reg = UiRegistry::new();
    reg.add_and_use("main".to_string(), source("main.html"));
    assert_eq!(reg.current, Some(vec!["main".to_string()]));
    assert!(reg.ui_update);
    assert_eq!(reg.get("main").unwrap().source_id, "main");

    reg.add("menu".to_string(), source("menu.html"));
    reg.use_uis(vec!["menu".to_string(), "missing".to_string(), "main".to_string()]);
    assert_eq!(reg.current, Some(vec!["menu".to_string(), "main".to_string()]));

    reg.remove("menu");
    assert!(reg.get("menu").is_none());
    assert_eq!(reg.current, Some(vec!["main".to_string()]));

    reg.remove("main");
    assert_eq!(reg.current, None);
}

#[test]
fn registry_use_unknown_clears_current() {
    let mut reg = UiRegistry::new();
    reg.add("a".to_string(), source("a.html"));
    reg.use_ui("a");
    reg.ui_update = false;
    reg.use_ui("b");
    assert_eq!(reg.current, None);
    assert!(!reg.ui_update);
}

#[test]
fn registry_multiple_and_switch() {
    let mut reg = UiRegistry::new();
    reg.add_and_use_multiple(vec![
        ("x".to_string(), source("x.html")),
        ("y".to_string(), source("y.html")),
    ]);
    assert_eq!(reg.current, Some(vec!["x".to_string(), "y".to_string()]));
    assert_eq!(reg.get("y").unwrap().source_id, "y");
    reg.remove_and_use("x", "y");
    assert!(reg.get("x").is_none());
    assert_eq!(reg.current, Some(vec!["y".to_string()]));
    reg.remove_all();
    assert!(reg.get("y").is_none());
    assert_eq!(reg.current, None);
}

fn names(list: &[&str]) -> Vec<String> {
    list.iter().map(|s| s.to_string()).collect()
}

#[test]
fn queue_rebuilds_sources_in_use_and_drops_the_others() {
    let mut reg = UiRegistry::new();
    reg.add("a".to_string(), source("ui/a.html"));
    reg.add("b".to_string(), source("ui/b.html"));
    reg.current = Some(names(&["a", "c", "b"]));
    reg.ui_update = true;
    let plan = reg.update_que(
        &names(&["a", "x"]),
        &vec![Some("a".to_string()), Some("x".to_string()), None],
    );
    assert_eq!(plan.despawn_sources, vec![true, true]);
    assert_eq!(plan.despawn_bodies, vec![true, false, false]);
    assert_eq!(plan.hide_bodies, vec![false, true, false]);
    assert_eq!(plan.spawn, names(&["a", "b"]));
    assert!(!reg.ui_update);
}

#[test]
fn queue_spawns_only_what_is_missing() {
    let mut reg = UiRegistry::new();
    reg.add("a".to_string(), source("ui/a.html"));
    reg.add("b".to_string(), source("ui/b.html"));
    reg.current = Some(names(&["a", "b"]));
    let plan = reg.update_que(&names(&["a"]), &vec![Some("a".to_string())]);
    assert_eq!(plan.despawn_sources, vec![false]);
    assert_eq!(plan.despawn_bodies, vec![false]);
    assert_eq!(plan.hide_bodies, vec![false]);
    assert_eq!(plan.spawn, names(&["b"]));
}

#[test]
fn queue_without_sources_in_use_clears_the_screen() {
    let mut reg = UiRegistry::new();
    reg.add("a".to_string(), source("ui/a.html"));
    reg.ui_update = true;
    let plan = reg.update_que(&names(&["a"]), &vec![Some("a".to_string()), Some("z".to_string())]);
    assert_eq!(plan.despawn_sources, vec![true]);
    assert_eq!(plan.despawn_bodies, vec![false, false]);
    assert_eq!(plan.hide_bodies, vec![true, false]);
    assert!(plan.spawn.is_empty());
    assert!(!reg.ui_update);
}
