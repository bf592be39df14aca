use ngs_chat_bots::dispatch::{
    DelayPolicy, DispatchIntent, compute_delays, format_entry, format_error_entry,
    select_targets,
};
use ngs_chat_bots::registry::{Bot, eligible_indices};

fn four_bots() -> Vec<Bot> {
    // index: 0 eligible, 1 disabled, 2 unavailable, 3 eligible
    let mut bots = vec![
        Bot::new(b"a".to_vec(), b"t0".to_vec()),
        Bot::new(b"b".to_vec(), b"t1".to_vec()),
        Bot::new(b"c".to_vec(), b"t2".to_vec()),
        Bot::new(b"d".to_vec(), b"t3".to_vec()),
    ];
    bots[0].set_available(true);
    bots[1].set_available(true);
    bots[1].set_enabled(false);
    bots[3].set_available(true);
    bots
}

#[test]
fn eligible_indices_are_available_and_enabled() {
    let bots = four_bots();
    assert_eq!(eligible_indices(&bots), vec![0, 3]);
}

#[test]
fn single_bot_targets_only_eligible() {
    let bots = four_bots();
    assert_eq!(select_targets(&bots, &DispatchIntent::SingleBot(0)), vec![0]);
    assert!(select_targets(&bots, &DispatchIntent::SingleBot(1)).is_empty());
    assert!(select_targets(&bots, &DispatchIntent::SingleBot(2)).is_empty());
    assert!(select_targets(&bots, &DispatchIntent::SingleBot(9)).is_empty());
}

#[test]
fn random_bot_picks_one_eligible() {
    let bots = four_bots();
    for _ in 0..20 {
        let t = select_targets(&bots, &DispatchIntent::RandomBot);
        assert_eq!(t.len(), 1);
        assert!(t[0] == 0 || t[0] == 3);
    }
}

#[test]
fn random_bot_with_no_eligible_is_empty() {
    let bots = vec![Bot::new(b"a".to_vec(), b"t".to_vec())];
    assert!(select_targets(&bots, &DispatchIntent::RandomBot).is_empty());
}

#[test]
fn all_bots_targets_whole_eligible_set_in_order() {
    let bots = four_bots();
    assert_eq!(select_targets(&bots, &DispatchIntent::AllBots), vec![0, 3]);
}

#[test]
fn subset_larger_than_eligible_takes_them_all() {
    let bots = four_bots();
    let t = select_targets(&bots, &DispatchIntent::SubsetBots(10));
    assert_eq!(t.len(), 2);
    assert!(t.contains(&0) && t.contains(&3));
}

#[test]
fn subset_smaller_than_eligible_is_distinct_and_eligible() {
    let mut bots = four_bots();
    bots[2].set_available(true);
    for _ in 0..20 {
        let t = select_targets(&bots, &DispatchIntent::SubsetBots(2));
        assert_eq!(t.len(), 2);
        assert_ne!(t[0], t[1]);
        for &i in &t {
            assert!(bots[i].available && bots[i].enable);
        }
    }
}

#[test]
fn simultaneous_delays_are_zero() {
    let policy = DelayPolicy { simultaneous: true, min_delay: 1, max_delay: 3 };
    assert_eq!(compute_delays(&policy, 4), vec![0, 0, 0, 0]);
}

#[test]
fn staggered_delays_grow_linearly_within_bounds() {
    let policy = DelayPolicy { simultaneous: false, min_delay: 2, max_delay: 5 };
    for _ in 0..20 {
        let d = compute_delays(&policy, 6);
        assert_eq!(d.len(), 6);
        assert_eq!(d[0], 0);
        for k in 0..6u64 {
            assert!(k * 2 <= d[k as usize] && d[k as usize] <= k * 5);
        }
    }
}

#[test]
fn staggered_delay_with_equal_bounds_is_exact() {
    let policy = DelayPolicy { simultaneous: false, min_delay: 3, max_delay: 3 };
    assert_eq!(compute_delays(&policy, 4), vec![0, 3, 6, 9]);
}

#[test]
fn swapped_delay_bounds_are_clamped_not_refused() {
    let policy = DelayPolicy { simultaneous: false, min_delay: 5, max_delay: 2 };
    let d = compute_delays(&policy, 3);
    for k in 0..3u64 {
        assert!(k * 2 <= d[k as usize] && d[k as usize] <= k * 5);
    }
}

#[test]
fn entry_formats_are_exact() {
    assert_eq!(format_entry(false, b"Alice", b"hi"), b"[Alice] hi".to_vec());
    assert_eq!(format_entry(true, b"Alice", b"hi"), b"[* Alice] hi".to_vec());
    assert_eq!(
        format_error_entry(b"could not join channel"),
        b"! Error: could not join channel".to_vec()
    );
}
