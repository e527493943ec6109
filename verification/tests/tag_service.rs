use spinshare::services::tag_service::{
    dedupe_tags, rebuild_step, sanitize_tags, TagBuffer, REBUILD_PAGE_SIZE,
};

fn strings(v: &[&str]) -> Vec<String> {
    v.iter().map(|s| s.to_string()).collect()
}

fn sorted(mut v: Vec<String>) -> Vec<String> {
    v.sort();
    v
}

#[test]
fn tags_are_split_and_lowercased() {
    assert_eq!(sanitize_tags("Spinner/Foo  TYPE/Video\tbar"), strings(&["spinner/foo", "type/video", "bar"]));
    assert_eq!(sanitize_tags("ÄÖÜ Σ"), strings(&["äöü", "σ"]));
    assert_eq!(sanitize_tags("   "), Vec::<String>::new());
    assert_eq!(sanitize_tags(""), Vec::<String>::new());
}

#[test]
fn tag_buffer_holds_each_tag_once() {
    let mut b = TagBuffer::new();
    assert!(!b.contains(&"a".to_string()));
    b.insert("a".to_string());
    b.insert("b".to_string());
    b.insert("a".to_string());
    assert!(b.contains(&"a".to_string()));
    assert!(b.contains(&"b".to_string()));
    assert!(!b.contains(&"c".to_string()));
    assert_eq!(sorted(b.to_vec()), strings(&["a", "b"]));
}

#[test]
fn dedupe_collects_distinct_tags() {
    let mut b = TagBuffer::new();
    b.insert("old".to_string());
    dedupe_tags(&strings(&["A b", "B c", "", "OLD a"]), &mut b);
    assert_eq!(sorted(b.to_vec()), strings(&["a", "b", "c", "old"]));
}

#[test]
fn dedupe_twice_changes_nothing() {
    let input = strings(&["x Y", "y z"]);
    let mut b = TagBuffer::new();
    dedupe_tags(&input, &mut b);
    let once = sorted(b.to_vec());
    dedupe_tags(&input, &mut b);
    assert_eq!(sorted(b.to_vec()), once);
    assert_eq!(once, strings(&["x", "y", "z"]));
}

#[test]
fn pages_collect_the_same_tags_as_one_pass() {
    let first = strings(&["a B", "c"]);
    let second = strings(&["b d"]);
    let mut paged = TagBuffer::new();
    dedupe_tags(&first, &mut paged);
    dedupe_tags(&second, &mut paged);
    let mut whole = TagBuffer::new();
    let mut all = first.clone();
    all.extend(second);
    dedupe_tags(&all, &mut whole);
    assert_eq!(sorted(paged.to_vec()), sorted(whole.to_vec()));
}

#[test]
fn rebuild_round_continues_on_full_page() {
    let page: Vec<String> = (0..REBUILD_PAGE_SIZE).map(|i| format!("Tag{} common", i % 3)).collect();
    let step = rebuild_step(500, &page);
    assert_eq!(step.next_offset, 750);
    assert!(!step.finished);
    assert_eq!(sorted(step.tags.to_vec()), strings(&["common", "tag0", "tag1", "tag2"]));
}

#[test]
fn rebuild_round_finishes_on_short_page() {
    let page = strings(&["x", "y"]);
    let step = rebuild_step(0, &page);
    assert_eq!(step.next_offset, 2);
    assert!(step.finished);
    let empty = rebuild_step(250, &Vec::new());
    assert_eq!(empty.next_offset, 250);
    assert!(empty.finished);
    assert!(empty.tags.to_vec().is_empty());
}
