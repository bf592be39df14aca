use ngs_chat_bots::registry::{
    Bot, extract_bot_name_from_message, find_bot_by_name, get_filtered_bots,
};

fn named_bots() -> Vec<Bot> {
    vec![
        Bot::new(b"Alice".to_vec(), b"t0".to_vec()),
        Bot::new(b"bob".to_vec(), b"t1".to_vec()),
        Bot::new(b"ALICE2".to_vec(), b"t2".to_vec()),
        Bot::new(b"carol".to_vec(), b"t3".to_vec()),
    ]
}

#[test]
fn bot_state_setters_work() {
    let mut b = Bot::new(b"x".to_vec(), b"t".to_vec());
    assert!(!b.available);
    assert!(b.enable);
    b.set_available(true);
    assert!(b.available);
    b.set_enabled(false);
    assert!(!b.enable);
    b.add_to_history(b"one".to_vec());
    b.add_to_history(b"two".to_vec());
    assert_eq!(b.chat_history, vec![b"one".to_vec(), b"two".to_vec()]);
    b.clear_history();
    assert!(b.chat_history.is_empty());
}

#[test]
fn filter_is_case_insensitive_substring_on_names() {
    let bots = named_bots();
    assert_eq!(get_filtered_bots(&bots, b"alice"), vec![0, 2]);
    assert_eq!(get_filtered_bots(&bots, b"O"), vec![1, 3]);
    assert_eq!(get_filtered_bots(&bots, b"zzz"), Vec::<usize>::new());
}

#[test]
fn blank_query_keeps_every_bot() {
    let bots = named_bots();
    assert_eq!(get_filtered_bots(&bots, b""), vec![0, 1, 2, 3]);
}

#[test]
fn lookup_by_name_takes_first_match() {
    let mut bots = named_bots();
    bots.push(Bot::new(b"bob".to_vec(), b"t4".to_vec()));
    assert_eq!(find_bot_by_name(&bots, b"bob"), Some(1));
    assert_eq!(find_bot_by_name(&bots, b"carol"), Some(3));
    assert_eq!(find_bot_by_name(&bots, b"nobody"), None);
    assert_eq!(find_bot_by_name(&bots, b"BOB"), None);
}

#[test]
fn extract_name_from_direct_entry() {
    assert_eq!(
        extract_bot_name_from_message(b"[Alice] hi there"),
        Some(b"Alice".to_vec())
    );
}

#[test]
fn extract_name_strips_machine_marker() {
    assert_eq!(
        extract_bot_name_from_message(b"[* Alice] hi there"),
        Some(b"Alice".to_vec())
    );
}

#[test]
fn extract_name_handles_malformed_entries() {
    assert_eq!(extract_bot_name_from_message(b"no brackets"), None);
    assert_eq!(extract_bot_name_from_message(b"]before[ after"), None);
    assert_eq!(extract_bot_name_from_message(b"[]"), Some(b"".to_vec()));
    assert_eq!(extract_bot_name_from_message(b"! Error: write failed"), None);
}
