use extended_ui::attrs::{HtmlID, HtmlIdCounter};
use extended_ui::reload::{insert_sorted, sources_to_reload, SourceEntry};

fn entry(entity: u64, asset: u64, value_reparse: bool) -> SourceEntry {
    SourceEntry { entity, asset, value_reparse }
}

#[test]
fn reload_list_is_sorted_and_holds_each_entity_once() {
    let sources = vec![entry(1, 100, false), entry(2, 200, true), entry(7, 300, false), entry(5, 300, false)];
    let r = sources_to_reload(&vec![5, 3, 5], &vec![3, 9], &vec![100], &sources, false, true);
    assert_eq!(r, vec![1, 2, 3, 5, 9]);
}

#[test]
fn locale_change_reloads_every_registered_source() {
    let sources = vec![entry(4, 1, false), entry(2, 2, false), entry(8, 3, true)];
    let r = sources_to_reload(&vec![], &vec![], &vec![], &sources, true, false);
    assert_eq!(r, vec![2, 4, 8]);
}

#[test]
fn value_change_reloads_only_sources_that_need_it() {
    let sources = vec![entry(4, 1, false), entry(2, 2, true), entry(8, 3, true)];
    assert_eq!(sources_to_reload(&vec![], &vec![], &vec![], &sources, false, true), vec![2, 8]);
    assert_eq!(sources_to_reload(&vec![], &vec![], &vec![], &sources, false, false), Vec::<u64>::new());
}

#[test]
fn asset_event_reloads_every_source_reading_the_asset() {
    let sources = vec![entry(4, 7, false), entry(2, 8, false), entry(6, 7, false)];
    assert_eq!(sources_to_reload(&vec![], &vec![], &vec![7, 7], &sources, false, false), vec![4, 6]);
}

#[test]
fn insert_sorted_keeps_order_and_skips_duplicates() {
    let mut v = vec![1, 4];
    insert_sorted(&mut v, 3);
    assert_eq!(v, vec![1, 3, 4]);
    insert_sorted(&mut v, 4);
    assert_eq!(v, vec![1, 3, 4]);
    insert_sorted(&mut v, 0);
    insert_sorted(&mut v, 9);
    assert_eq!(v, vec![0, 1, 3, 4, 9]);
}

#[test]
fn counted_identifiers_start_at_one_and_wrap() {
    let mut c = HtmlIdCounter::new();
    assert_eq!(c.next_id(), HtmlID(1));
    assert_eq!(c.next_id(), HtmlID(2));
    let mut top = HtmlIdCounter { next: usize::MAX };
    assert_eq!(top.next_id(), HtmlID(usize::MAX));
    assert_eq!(top.next_id(), HtmlID(0));
}
