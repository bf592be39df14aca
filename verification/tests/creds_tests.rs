use ngs_chat_bots::creds::parse_credentials;
use ngs_chat_bots::registry::create_bots;

#[test]
fn parse_named_and_unnamed() {
    let mut counter: u64 = 1;
    let text = b"abc123|Alice\nxyz789".to_vec();
    let idents = parse_credentials(&text, &mut counter);
    assert_eq!(idents.len(), 2);
    assert_eq!(idents[0].name, b"Alice".to_vec());
    assert_eq!(idents[0].token, b"abc123".to_vec());
    assert_eq!(idents[1].name, b"bot_1".to_vec());
    assert_eq!(idents[1].token, b"xyz789".to_vec());
    assert_eq!(counter, 2);
}

#[test]
fn synthesized_names_distinct_within_one_parse() {
    let mut counter: u64 = 1;
    let text = b"tok1\ntok2\ntok3|\ntok4|   ".to_vec();
    let idents = parse_credentials(&text, &mut counter);
    assert_eq!(idents.len(), 4);
    for i in 0..idents.len() {
        for j in 0..idents.len() {
            if i != j {
                assert_ne!(idents[i].name, idents[j].name);
            }
        }
    }
    assert_eq!(idents[0].name, b"bot_1".to_vec());
    assert_eq!(idents[1].name, b"bot_2".to_vec());
    assert_eq!(idents[2].name, b"bot_3".to_vec());
    assert_eq!(idents[3].name, b"bot_4".to_vec());
    assert_eq!(counter, 5);
}

#[test]
fn synthesized_names_distinct_across_reloads() {
    let mut counter: u64 = 1;
    let first = parse_credentials(&b"tokA\ntokB".to_vec(), &mut counter);
    let second = parse_credentials(&b"tokC\ntokD".to_vec(), &mut counter);
    for a in &first {
        for b in &second {
            assert_ne!(a.name, b.name);
        }
    }
    assert_eq!(second[0].name, b"bot_3".to_vec());
    assert_eq!(second[1].name, b"bot_4".to_vec());
}

#[test]
fn blank_and_malformed_lines_are_skipped() {
    let mut counter: u64 = 7;
    let text = b"\n   \n\t\ntok|Bob\n\n".to_vec();
    let idents = parse_credentials(&text, &mut counter);
    assert_eq!(idents.len(), 1);
    assert_eq!(idents[0].name, b"Bob".to_vec());
    assert_eq!(counter, 7);
}

#[test]
fn whitespace_is_trimmed_around_token_and_name() {
    let mut counter: u64 = 1;
    let text = b"  tok1  |  Carol  \r\n  tok2  \r\n".to_vec();
    let idents = parse_credentials(&text, &mut counter);
    assert_eq!(idents.len(), 2);
    assert_eq!(idents[0].name, b"Carol".to_vec());
    assert_eq!(idents[0].token, b"tok1".to_vec());
    assert_eq!(idents[1].name, b"bot_1".to_vec());
    assert_eq!(idents[1].token, b"tok2".to_vec());
}

#[test]
fn pipe_with_blank_name_synthesizes() {
    let mut counter: u64 = 3;
    let idents = parse_credentials(&b"tok|   ".to_vec(), &mut counter);
    assert_eq!(idents.len(), 1);
    assert_eq!(idents[0].name, b"bot_3".to_vec());
    assert_eq!(idents[0].token, b"tok".to_vec());
    assert_eq!(counter, 4);
}

#[test]
fn empty_token_with_name_is_kept() {
    let mut counter: u64 = 1;
    let idents = parse_credentials(&b"|Dana".to_vec(), &mut counter);
    assert_eq!(idents.len(), 1);
    assert_eq!(idents[0].name, b"Dana".to_vec());
    assert_eq!(idents[0].token, b"".to_vec());
}

#[test]
fn duplicate_display_names_are_permitted() {
    let mut counter: u64 = 1;
    let idents = parse_credentials(&b"t1|Sam\nt2|Sam".to_vec(), &mut counter);
    assert_eq!(idents.len(), 2);
    assert_eq!(idents[0].name, idents[1].name);
    assert_ne!(idents[0].token, idents[1].token);
}

#[test]
fn create_bots_sets_fresh_runtime_state() {
    let mut counter: u64 = 1;
    let bots = create_bots(&b"abc|Eve\nxyz".to_vec(), &mut counter);
    assert_eq!(bots.len(), 2);
    assert_eq!(bots[0].name, b"Eve".to_vec());
    assert_eq!(bots[1].name, b"bot_1".to_vec());
    for b in &bots {
        assert!(!b.available);
        assert!(b.enable);
        assert!(b.chat_history.is_empty());
    }
}

#[test]
fn large_counter_renders_in_decimal() {
    let mut counter: u64 = 1234567890;
    let idents = parse_credentials(&b"tok".to_vec(), &mut counter);
    assert_eq!(idents[0].name, b"bot_1234567890".to_vec());
    assert_eq!(counter, 1234567891);
}
