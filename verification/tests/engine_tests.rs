use ngs_chat_bots::dispatch::DispatchIntent;
use ngs_chat_bots::engine::Core;
use ngs_chat_bots::session::{SendError, classify_probe_response};

fn core_with_two_bots() -> Core {
    let mut core = Core::new();
    core.load_credentials(b"abc123|Alice\nxyz789");
    core.set_channel(b"chan".to_vec());
    core.set_bot_available(0, true);
    core.set_bot_available(1, true);
    core
}

#[test]
fn new_core_has_original_defaults() {
    let core = Core::new();
    assert!(core.bots.is_empty());
    assert_eq!(core.next_bot_id, 1);
    assert!(core.chat_history.is_empty());
    assert!(core.messages.is_empty());
    assert!(core.channel.is_empty());
    assert!(!core.schedule.enabled);
    assert_eq!(core.schedule.min_interval, 30);
    assert_eq!(core.schedule.max_interval, 120);
    assert_eq!(core.schedule.next_fire_at, None);
    assert!(core.delay_policy.simultaneous);
    assert_eq!(core.delay_policy.min_delay, 1);
    assert_eq!(core.delay_policy.max_delay, 3);
    assert!(!core.all_bots_mode);
    assert!(!core.multiple_bots_mode);
    assert_eq!(core.multiple_bots_count, 3);
}

#[test]
fn end_to_end_two_bots_all_dispatch() {
    // Credential text parses to Alice and bot_1; a mock welcome marks both
    // available; an all-bots dispatch appends two entries to the global log
    // before any network call would run.
    let mut core = Core::new();
    core.load_credentials(b"abc123|Alice\nxyz789");
    assert_eq!(core.bots.len(), 2);
    assert_eq!(core.bots[0].name, b"Alice".to_vec());
    assert_eq!(core.bots[1].name, b"bot_1".to_vec());

    let mock_response = b":tmi.twitch.tv 001 x :Welcome, GLHF!";
    for i in 0..2 {
        let ok = classify_probe_response(mock_response);
        core.set_bot_available(i, ok);
    }
    assert!(core.bots[0].available && core.bots[1].available);

    core.set_channel(b"chan".to_vec());
    let plan = core.send(&DispatchIntent::AllBots, b"hi");
    assert_eq!(plan.len(), 2);
    assert_eq!(core.chat_history.len(), 2);
    assert_eq!(core.chat_history[0], b"[Alice] hi".to_vec());
    assert_eq!(core.chat_history[1], b"[bot_1] hi".to_vec());
    assert_eq!(core.bots[0].chat_history, vec![b"[Alice] hi".to_vec()]);
    assert_eq!(core.bots[1].chat_history, vec![b"[bot_1] hi".to_vec()]);
    assert_eq!(plan[0].bot, 0);
    assert_eq!(plan[1].bot, 1);
    assert_eq!(plan[0].message, b"hi".to_vec());
    assert_eq!(plan[0].delay_secs, 0);
    assert_eq!(plan[1].delay_secs, 0);
}

#[test]
fn send_skips_ineligible_bots() {
    let mut core = core_with_two_bots();
    core.set_bot_enabled(1, false);
    let plan = core.send(&DispatchIntent::AllBots, b"hi");
    assert_eq!(plan.len(), 1);
    assert_eq!(plan[0].bot, 0);
    assert!(core.bots[1].chat_history.is_empty());

    core.set_bot_enabled(1, true);
    core.set_bot_available(0, false);
    let plan2 = core.send(&DispatchIntent::AllBots, b"again");
    assert_eq!(plan2.len(), 1);
    assert_eq!(plan2[0].bot, 1);
}

#[test]
fn blank_message_or_channel_blocks_untargeted_sends() {
    let mut core = core_with_two_bots();
    assert!(core.send(&DispatchIntent::AllBots, b"").is_empty());
    assert!(core.send(&DispatchIntent::RandomBot, b"").is_empty());
    core.set_channel(Vec::new());
    assert!(core.send(&DispatchIntent::AllBots, b"hi").is_empty());
    assert!(core.chat_history.is_empty());
}

#[test]
fn random_send_is_marked_machine_originated() {
    let mut core = core_with_two_bots();
    core.set_bot_enabled(1, false);
    let plan = core.send(&DispatchIntent::RandomBot, b"yo");
    assert_eq!(plan.len(), 1);
    assert_eq!(core.chat_history[0], b"[* Alice] yo".to_vec());
}

#[test]
fn failed_send_appends_error_tagged_entries() {
    let mut core = core_with_two_bots();
    let plan = core.send(&DispatchIntent::SingleBot(0), b"hi");
    assert_eq!(plan.len(), 1);
    core.on_send_result(0, Err(SendError::JoinTimeout));
    assert_eq!(core.chat_history.len(), 2);
    assert_eq!(core.chat_history[1], b"! Error: could not join channel".to_vec());
    assert_eq!(core.bots[0].chat_history.len(), 2);
    assert_eq!(core.bots[0].chat_history[1], b"! Error: could not join channel".to_vec());

    core.on_send_result(0, Ok(()));
    assert_eq!(core.chat_history.len(), 2);
}

#[test]
fn each_failure_kind_is_logged_with_its_cause() {
    let mut core = core_with_two_bots();
    core.on_send_result(0, Err(SendError::ConnectFailed));
    core.on_send_result(1, Err(SendError::WriteFailed));
    assert_eq!(core.chat_history[0], b"! Error: connection failed".to_vec());
    assert_eq!(core.chat_history[1], b"! Error: write failed".to_vec());
    assert_eq!(core.bots[0].chat_history[0], b"! Error: connection failed".to_vec());
    assert_eq!(core.bots[1].chat_history[0], b"! Error: write failed".to_vec());
    core.on_send_result(99, Err(SendError::WriteFailed));
    assert_eq!(core.chat_history.len(), 3);
}

#[test]
fn mode_toggles_exclude_each_other() {
    let mut core = Core::new();
    core.set_all_bots_mode(true);
    core.set_multiple_bots_mode(true);
    assert!(core.multiple_bots_mode && !core.all_bots_mode);
    core.set_all_bots_mode(true);
    assert!(core.all_bots_mode && !core.multiple_bots_mode);
    core.set_all_bots_mode(false);
    assert!(!core.all_bots_mode && !core.multiple_bots_mode);
}

#[test]
fn subset_count_rejects_zero() {
    let mut core = Core::new();
    core.set_multiple_bots_count(5);
    assert_eq!(core.multiple_bots_count, 5);
    core.set_multiple_bots_count(0);
    assert_eq!(core.multiple_bots_count, 5);
}

#[test]
fn load_messages_keeps_non_blank_lines() {
    let mut core = Core::new();
    core.load_messages(b"one\n\n  \ntwo two\r\nthree\n");
    assert_eq!(
        core.messages,
        vec![b"one".to_vec(), b"two two".to_vec(), b"three".to_vec()]
    );
}

#[test]
fn scheduler_fires_exactly_once_at_or_after_deadline() {
    let mut core = core_with_two_bots();
    core.load_messages(b"msg");
    core.set_schedule_intervals(10, 10);
    core.set_schedule_enabled(0, true);
    assert_eq!(core.schedule.next_fire_at, Some(10));

    for now in 1..10u64 {
        let plan = core.tick(now);
        assert!(plan.is_empty());
        assert_eq!(core.schedule.next_fire_at, Some(10));
        assert!(core.chat_history.is_empty());
    }

    let plan = core.tick(10);
    assert_eq!(plan.len(), 1);
    assert_eq!(core.chat_history.len(), 1);
    assert_eq!(core.schedule.last_fire_at, Some(10));
    assert_eq!(core.schedule.next_fire_at, Some(20));

    let plan2 = core.tick(11);
    assert!(plan2.is_empty());
    assert_eq!(core.chat_history.len(), 1);
}

#[test]
fn disabling_scheduler_abandons_pending_fire() {
    let mut core = core_with_two_bots();
    core.load_messages(b"msg");
    core.set_schedule_intervals(5, 5);
    core.set_schedule_enabled(0, true);
    assert_eq!(core.schedule.next_fire_at, Some(5));
    core.set_schedule_enabled(3, false);
    assert_eq!(core.schedule.next_fire_at, None);
    let plan = core.tick(100);
    assert!(plan.is_empty());
    assert!(core.chat_history.is_empty());
}

#[test]
fn scheduled_fire_with_empty_pool_still_reschedules() {
    let mut core = core_with_two_bots();
    core.set_schedule_intervals(5, 5);
    core.set_schedule_enabled(0, true);
    let plan = core.tick(5);
    assert!(plan.is_empty());
    assert!(core.chat_history.is_empty());
    assert_eq!(core.schedule.last_fire_at, Some(5));
    assert_eq!(core.schedule.next_fire_at, Some(10));
}

#[test]
fn fire_now_dispatches_and_reschedules() {
    let mut core = core_with_two_bots();
    core.load_messages(b"hello");
    core.set_schedule_intervals(7, 7);
    core.set_schedule_enabled(0, true);
    let plan = core.fire_now(2);
    assert_eq!(plan.len(), 1);
    assert_eq!(plan[0].message, b"hello".to_vec());
    assert_eq!(core.schedule.last_fire_at, Some(2));
    assert_eq!(core.schedule.next_fire_at, Some(9));
    assert_eq!(core.chat_history.len(), 1);
    let name = if plan[0].bot == 0 { "Alice" } else { "bot_1" };
    let expected = format!("[* {}] hello", name).into_bytes();
    assert_eq!(core.chat_history[0], expected);
}

#[test]
fn fire_now_while_disabled_does_not_arm() {
    let mut core = core_with_two_bots();
    core.load_messages(b"hello");
    let plan = core.fire_now(4);
    assert_eq!(plan.len(), 1);
    assert_eq!(core.schedule.last_fire_at, Some(4));
    assert_eq!(core.schedule.next_fire_at, None);
    assert!(!core.schedule.enabled);
}

#[test]
fn scheduled_subset_assigns_messages_from_pool() {
    let mut core = core_with_two_bots();
    core.load_messages(b"m1\nm2\nm3");
    core.set_multiple_bots_mode(true);
    core.set_multiple_bots_count(2);
    let plan = core.fire_now(0);
    assert_eq!(plan.len(), 2);
    let pool = vec![b"m1".to_vec(), b"m2".to_vec(), b"m3".to_vec()];
    for p in &plan {
        assert!(pool.contains(&p.message));
    }
    assert_ne!(plan[0].bot, plan[1].bot);
    assert_eq!(core.chat_history.len(), 2);
}

#[test]
fn scheduled_all_bots_shares_one_message() {
    let mut core = core_with_two_bots();
    core.load_messages(b"only");
    core.set_all_bots_mode(true);
    let plan = core.fire_now(0);
    assert_eq!(plan.len(), 2);
    assert_eq!(plan[0].message, b"only".to_vec());
    assert_eq!(plan[1].message, b"only".to_vec());
}

#[test]
fn clear_operations_reset_histories() {
    let mut core = core_with_two_bots();
    let _ = core.send(&DispatchIntent::AllBots, b"hi");
    assert!(!core.chat_history.is_empty());
    core.clear_bot_history(0);
    assert!(core.bots[0].chat_history.is_empty());
    assert!(!core.bots[1].chat_history.is_empty());
    core.clear_global_history();
    assert!(core.chat_history.is_empty());
    let _ = core.send(&DispatchIntent::AllBots, b"again");
    core.clear_all_history();
    assert!(core.chat_history.is_empty());
    assert!(core.bots[0].chat_history.is_empty());
    assert!(core.bots[1].chat_history.is_empty());
}

#[test]
fn reload_replaces_registry_but_not_counter() {
    let mut core = Core::new();
    core.load_credentials(b"t1\nt2");
    assert_eq!(core.bots[0].name, b"bot_1".to_vec());
    assert_eq!(core.bots[1].name, b"bot_2".to_vec());
    core.load_credentials(b"t3");
    assert_eq!(core.bots.len(), 1);
    assert_eq!(core.bots[0].name, b"bot_3".to_vec());
    assert_eq!(core.next_bot_id, 4);
}
