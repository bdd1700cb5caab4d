use redis_lite::storage::{now_stamp, TimeKeyValueStorage, NEVER_EXPIRES};

const MS: u64 = 1_000_000;
const T: u64 = 1_700_000_000_000 * MS;

fn key(s: &str) -> String {
    s.to_string()
}

#[test]
fn never_expiring_entry_stays() {
    let mut s: TimeKeyValueStorage<String> = TimeKeyValueStorage::new();
    s.insert_at(key("k"), "v".to_string(), NEVER_EXPIRES, T);
    assert_eq!(s.get_at(&key("k"), T).map(|v| v.as_str()), Some("v"));
    assert_eq!(s.get_at(&key("k"), u64::MAX).map(|v| v.as_str()), Some("v"));
}

#[test]
fn clock_driven_insert_then_get() {
    let mut s: TimeKeyValueStorage<String> = TimeKeyValueStorage::new();
    s.insert(key("k"), "v".to_string(), NEVER_EXPIRES);
    assert_eq!(s.get(&key("k")).map(|v| v.as_str()), Some("v"));
    assert_eq!(s.get(&key("other")), None);
    let stamp = s.get_last_modified(&key("k")).unwrap();
    assert!(stamp <= now_stamp());
    assert!(stamp > 0);
}

#[test]
fn entry_expires_after_its_milliseconds() {
    let mut s: TimeKeyValueStorage<u32> = TimeKeyValueStorage::new();
    s.insert_at(key("k"), 7, 100, T);
    assert_eq!(s.get_at(&key("k"), T + 50 * MS), Some(&7));
    assert_eq!(s.get_at(&key("k"), T + 100 * MS), Some(&7));
    assert_eq!(s.get_at(&key("k"), T + 100 * MS + MS - 1), Some(&7));
    assert_eq!(s.get_at(&key("k"), T + 101 * MS), None);
    assert_eq!(s.get_at(&key("k"), T + 150 * MS), None);
}

#[test]
fn expired_entry_is_still_held() {
    let mut s: TimeKeyValueStorage<u32> = TimeKeyValueStorage::new();
    s.insert_at(key("k"), 7, 0, T);
    assert_eq!(s.get_at(&key("k"), T + MS), None);
    assert_eq!(s.get_by_time(T), Some(&(0, 7)));
    assert_eq!(s.get_last_modified(&key("k")), Some(T));
}

#[test]
fn update_supersedes_insert() {
    let mut s: TimeKeyValueStorage<&str> = TimeKeyValueStorage::new();
    s.insert_at(key("k"), "v1", 5, T);
    s.update_at(key("k"), "v2", NEVER_EXPIRES, T + 10);
    assert_eq!(s.get_at(&key("k"), T + 20), Some(&"v2"));
    assert_eq!(s.get_by_time(T), None);
    assert_eq!(s.get_by_time(T + 10), Some(&(NEVER_EXPIRES, "v2")));
    assert_eq!(s.get_last_modified(&key("k")), Some(T + 10));
}

#[test]
fn clock_driven_update() {
    let mut s: TimeKeyValueStorage<&str> = TimeKeyValueStorage::new();
    s.insert(key("k"), "v1", NEVER_EXPIRES);
    let first = s.get_last_modified(&key("k")).unwrap();
    s.update(key("k"), "v2", NEVER_EXPIRES);
    assert_eq!(s.get(&key("k")), Some(&"v2"));
    if s.get_last_modified(&key("k")) != Some(first) {
        assert_eq!(s.get_by_time(first), None);
    }
}

#[test]
fn plain_insert_leaves_old_entry_behind() {
    let mut s: TimeKeyValueStorage<&str> = TimeKeyValueStorage::new();
    s.insert_at(key("k"), "v1", NEVER_EXPIRES, T);
    s.insert_at(key("k"), "v2", NEVER_EXPIRES, T + 1);
    assert_eq!(s.get_at(&key("k"), T + 2), Some(&"v2"));
    assert_eq!(s.get_by_time(T), Some(&(NEVER_EXPIRES, "v1")));
}

#[test]
fn disjoint_keys_do_not_see_each_other() {
    let mut s: TimeKeyValueStorage<String> = TimeKeyValueStorage::new();
    for i in 0..20u64 {
        let k = format!("key{}", i % 4);
        s.update_at(k, format!("value{}", i), NEVER_EXPIRES, T + i);
        for j in 0..4u64 {
            let got = s.get_at(&format!("key{}", j), T + i);
            if j <= i {
                let last = (0..=i).filter(|n| n % 4 == j).max().unwrap();
                assert_eq!(got.map(|v| v.as_str()), Some(format!("value{}", last).as_str()));
            } else {
                assert_eq!(got, None);
            }
        }
    }
}

#[test]
fn writes_at_the_same_instant_stay_apart() {
    let mut s: TimeKeyValueStorage<u32> = TimeKeyValueStorage::new();
    s.insert_at(key("b"), 1, NEVER_EXPIRES, 5);
    s.insert_at(key("a"), 2, NEVER_EXPIRES, 5);
    assert_eq!(s.get_at(&key("b"), 5), Some(&1));
    assert_eq!(s.get_at(&key("a"), 5), Some(&2));
    assert_eq!(s.get_last_modified(&key("b")), Some(5));
    assert_eq!(s.get_last_modified(&key("a")), Some(6));
    s.update_at(key("a"), 3, NEVER_EXPIRES, 5);
    assert_eq!(s.get_at(&key("b"), 5), Some(&1));
    assert_eq!(s.get_at(&key("a"), 5), Some(&3));
    assert_eq!(s.get_by_time(6), None);
    assert_eq!(s.get_by_time(7), Some(&(NEVER_EXPIRES, 3)));
}

#[test]
fn clock_stepping_back_still_gets_fresh_stamps() {
    let mut s: TimeKeyValueStorage<u32> = TimeKeyValueStorage::new();
    s.insert_at(key("a"), 1, NEVER_EXPIRES, T + 10);
    s.update_at(key("b"), 2, NEVER_EXPIRES, T);
    assert_eq!(s.get_last_modified(&key("b")), Some(T + 11));
    s.update_at(key("b"), 4, NEVER_EXPIRES, T);
    assert_eq!(s.get_at(&key("a"), T), Some(&1));
    assert_eq!(s.get_at(&key("b"), T), Some(&4));
    assert_eq!(s.get_last_modified(&key("a")), Some(T + 10));
}
