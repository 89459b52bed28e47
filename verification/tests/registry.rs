use site_watch::registry::{bootstrap, is_link_exists, LinkRecord, WatchRegistry};
use site_watch::registry::record_link;

fn record(owner_id: u64, url: &str) -> LinkRecord {
    LinkRecord { owner_id, url: url.to_string() }
}

#[test]
fn test_insert_into_database() {
    let mut reg = WatchRegistry::new();
    reg.add_link(654352, "Hello world!".to_string());
    reg.add_link(654352, "No".to_string());
    reg.add_link(654352, "Yes".to_string());
    reg.add_link(654352, "Ggg".to_string());
    reg.add_link(3552, "Lol".to_string());
    reg.add_link(3552, "Go".to_string());

    assert_eq!(reg.links_vec(654352).len(), 4);
    assert_eq!(reg.links_vec(3552).len(), 2);
}

#[test]
fn test_is_link_exists() {
    let mut reg = WatchRegistry::new();
    reg.add_link(654352, "Hello world!".to_string());
    reg.add_link(654352, "No".to_string());
    reg.add_link(654352, "Yes".to_string());
    reg.add_link(654352, "Ggg".to_string());

    let bool1 = is_link_exists(&reg, 654352, "Ggg");
    let bool2 = is_link_exists(&reg, 654352, "Gg");

    println!("Is exist: {}", bool1);
    println!("Is exist: {}", bool2);

    assert!(bool1);
    assert!(!bool2);
}

#[test]
fn test_get_histories() {
    let mut reg = WatchRegistry::new();
    reg.add_link(654352, "Hello world!".to_string());
    reg.add_link(654352, "No".to_string());
    reg.add_link(654352, "Yes".to_string());

    let links = reg.links_vec(654352);
    for one_link in &links {
        println!("User ID: {} | Link: {}", 654352u64, one_link);
    }

    assert_eq!(links, vec!["Hello world!".to_string(), "No".to_string(), "Yes".to_string()]);
}

#[test]
fn test_clear_all_links() {
    let mut reg = WatchRegistry::new();
    reg.add_link(654352, "Hello world!".to_string());
    reg.add_link(3552, "Lol".to_string());

    reg.remove_owner(654352);
    reg.remove_owner(3552);

    println!("Histories for {} is cleared!", 654352u64);
    println!("Histories for {} is cleared!", 3552u64);

    assert!(reg.links_vec(654352).is_empty());
    assert!(reg.links_vec(3552).is_empty());
}

// Two distinct links added for one owner are both listed, in insertion
// order, and the existence check rejects the repeated one.
#[test]
fn two_adds_listed_in_order() {
    let mut reg = WatchRegistry::new();
    let u1 = "https://a.test";
    let u2 = "https://b.test";

    let exists1 = is_link_exists(&reg, 7, u1);
    assert!(!exists1);
    let added1 = record_link(&mut reg, 7, u1.to_string(), exists1);
    assert!(added1);

    // the same link a second time: the pre-check reports it and the
    // command path must not record it again
    let exists_dup = is_link_exists(&reg, 7, u1);
    assert!(exists_dup);
    let added_dup = record_link(&mut reg, 7, u1.to_string(), exists_dup);
    assert!(!added_dup);

    let exists2 = is_link_exists(&reg, 7, u2);
    assert!(!exists2);
    let added2 = record_link(&mut reg, 7, u2.to_string(), exists2);
    assert!(added2);

    assert_eq!(reg.links_vec(7), vec![u1.to_string(), u2.to_string()]);
}

// Bootstrapping twice from the same store snapshot yields an identical
// registry state.
#[test]
fn bootstrap_is_deterministic() {
    let records = vec![
        record(42, "https://a.test"),
        record(42, "https://b.test"),
        record(9, "https://c.test"),
        record(42, "https://d.test"),
    ];
    let records_again = vec![
        record(42, "https://a.test"),
        record(42, "https://b.test"),
        record(9, "https://c.test"),
        record(42, "https://d.test"),
    ];

    let r1 = bootstrap(&records);
    let r2 = bootstrap(&records_again);

    assert_eq!(r1.links_vec(42), r2.links_vec(42));
    assert_eq!(r1.links_vec(9), r2.links_vec(9));
    assert_eq!(
        r1.links_vec(42),
        vec![
            "https://a.test".to_string(),
            "https://b.test".to_string(),
            "https://d.test".to_string()
        ]
    );
    assert_eq!(r1.links_vec(9), vec!["https://c.test".to_string()]);

    let s1 = r1.snapshot();
    let s2 = r2.snapshot();
    assert_eq!(s1.len(), 2);
    assert_eq!(s1.len(), s2.len());
    for (a, b) in s1.iter().zip(s2.iter()) {
        assert_eq!(a.user_id, b.user_id);
        assert_eq!(a.links, b.links);
    }
}

// Grouping at bootstrap keeps owners in first-appearance order.
#[test]
fn bootstrap_groups_by_owner() {
    let records = vec![
        record(1, "https://one.test"),
        record(2, "https://two.test"),
        record(1, "https://three.test"),
    ];
    let reg = bootstrap(&records);
    let snap = reg.snapshot();
    assert_eq!(snap.len(), 2);
    assert_eq!(snap[0].user_id, 1);
    assert_eq!(snap[1].user_id, 2);
    assert_eq!(
        snap[0].links,
        vec!["https://one.test".to_string(), "https://three.test".to_string()]
    );
    assert_eq!(snap[1].links, vec!["https://two.test".to_string()]);
}
