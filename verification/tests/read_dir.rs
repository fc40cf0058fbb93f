use dugout::read_dir::{cache_key, key_bytes, Entries, Entry, Rank};

fn entry(name: &str, len: u64, modified: u128) -> Entry {
    Entry { file_name: name.as_bytes().to_vec(), len, modified }
}

fn names(entries: &Entries) -> Vec<(String, u64, u128)> {
    let mut all = Vec::new();
    let mut i = 0;
    while i < entries.len() {
        let entry = entries.at(i);
        all.push((String::from_utf8(entry.file_name.clone()).unwrap(), entry.len, entry.modified));
        i += 1;
    }
    all
}

fn of(list: &[Entry]) -> Entries {
    let mut entries = Entries::new();
    for entry in list {
        entries.insert(entry.clone());
    }
    entries
}

#[test]
fn rank_orders_by_name_then_length_then_time() {
    assert_eq!(entry("a", 9, 9).rank(&entry("b", 0, 0)), Rank::Before);
    assert_eq!(entry("b", 0, 0).rank(&entry("a", 9, 9)), Rank::After);
    assert_eq!(entry("a", 1, 9).rank(&entry("a", 2, 0)), Rank::Before);
    assert_eq!(entry("a", 2, 0).rank(&entry("a", 1, 9)), Rank::After);
    assert_eq!(entry("a", 1, 1).rank(&entry("a", 1, 2)), Rank::Before);
    assert_eq!(entry("a", 1, 2).rank(&entry("a", 1, 1)), Rank::After);
    assert_eq!(entry("a", 1, 1).rank(&entry("a", 1, 1)), Rank::Same);
}

#[test]
fn rank_puts_a_name_before_the_longer_names_that_start_with_it() {
    assert_eq!(entry("", 0, 0).rank(&entry("a", 0, 0)), Rank::Before);
    assert_eq!(entry("ab", 5, 5).rank(&entry("abc", 0, 0)), Rank::Before);
    assert_eq!(entry("abc", 0, 0).rank(&entry("ab", 5, 5)), Rank::After);
    assert_eq!(entry("abd", 0, 0).rank(&entry("abc", 0, 0)), Rank::After);
    assert_eq!(entry("b", 0, 0).rank(&entry("abc", 0, 0)), Rank::After);
    assert_eq!(entry("", 0, 0).rank(&entry("", 0, 0)), Rank::Same);
}

#[test]
fn entries_are_kept_in_order_each_once() {
    let mut entries = Entries::new();
    assert_eq!(entries.len(), 0);
    assert!(entries.insert(entry("m.gz", 10, 7)));
    assert!(entries.insert(entry("a.gz", 30, 7)));
    assert!(entries.insert(entry("z.gz", 20, 7)));
    assert!(!entries.insert(entry("m.gz", 10, 7)));
    assert!(entries.insert(entry("m.gz", 10, 6)));
    assert!(entries.insert(entry("m.gz", 9, 8)));
    assert_eq!(
        names(&entries),
        vec![
            ("a.gz".to_string(), 30, 7),
            ("m.gz".to_string(), 9, 8),
            ("m.gz".to_string(), 10, 6),
            ("m.gz".to_string(), 10, 7),
            ("z.gz".to_string(), 20, 7),
        ]
    );
}

#[test]
fn key_bytes_lists_the_version_and_the_entries() {
    assert_eq!(key_bytes(1, &Entries::new()), vec![1, 0, 0, 0, 0, 0, 0, 0]);
    let entries = of(&[entry("ab", 3, 5)]);
    let mut expected = vec![0x02, 0x01, 0, 0, 0, 0, 0, 0];
    expected.extend_from_slice(&[2, 0, 0, 0, 0, 0, 0, 0]);
    expected.extend_from_slice(&[97, 98]);
    expected.extend_from_slice(&[3, 0, 0, 0, 0, 0, 0, 0]);
    expected.extend_from_slice(&[5, 0, 0, 0, 0, 0, 0, 0, 0, 0, 0, 0, 0, 0, 0, 0]);
    assert_eq!(key_bytes(0x0102, &entries), expected);
}

#[test]
fn the_key_does_not_depend_on_the_order_of_finding() {
    let a = entry("2020-08-24.json.gz", 1000, 1_598_284_800_000_000_000);
    let b = entry("2020-08-25.json.gz", 2000, 1_598_371_200_000_000_000);
    let c = entry("2020-08-26.json.gz", 3000, 1_598_457_600_000_000_000);
    let one = of(&[a.clone(), b.clone(), c.clone()]);
    let two = of(&[c.clone(), a.clone(), b.clone(), a.clone()]);
    assert_eq!(key_bytes(1, &one), key_bytes(1, &two));
    assert_eq!(cache_key(1, &one), cache_key(1, &two));
    assert_eq!(cache_key(1, &one), cache_key(1, &one));
}

#[test]
fn the_key_changes_with_the_version_and_with_the_entries() {
    let a = entry("2020-08-24.json.gz", 1000, 1_598_284_800_000_000_000);
    let b = entry("2020-08-25.json.gz", 2000, 1_598_371_200_000_000_000);
    let both = of(&[a.clone(), b.clone()]);
    assert_ne!(cache_key(1, &both), cache_key(2, &both));
    assert_ne!(cache_key(1, &both), cache_key(1, &of(&[a.clone()])));
    assert_ne!(cache_key(1, &both), cache_key(1, &Entries::new()));
    let longer = entry("2020-08-25.json.gz", 2001, 1_598_371_200_000_000_000);
    assert_ne!(cache_key(1, &both), cache_key(1, &of(&[a.clone(), longer])));
    let later = entry("2020-08-25.json.gz", 2000, 1_598_371_200_000_000_001);
    assert_ne!(cache_key(1, &both), cache_key(1, &of(&[a, later])));
}
