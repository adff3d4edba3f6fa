use infused_modbus::client_trust::{CONNECTION_ATTEMPTS_LOG_CAPACITY, ClientTrustState};
use infused_modbus::inode::INodeNo;

#[test]
fn insert_assigns_increasing_inodes_starting_from_next_ino() {
    let mut state = ClientTrustState::new();
    state.set_next_ino(100);

    let first = state.insert_approved("aa:bb");
    let second = state.insert_approved("cc:dd");

    assert_eq!(first, INodeNo(100));
    assert_eq!(second, INodeNo(101));
}

#[test]
fn inserting_the_same_fingerprint_twice_returns_the_same_inode() {
    let mut state = ClientTrustState::new();
    state.set_next_ino(100);

    let first = state.insert_approved("aa:bb");
    let second = state.insert_approved("aa:bb");

    assert_eq!(first, second);
}

#[test]
fn remove_makes_a_fingerprint_no_longer_resolvable() {
    let mut state = ClientTrustState::new();
    state.set_next_ino(100);
    let ino = state.insert_approved("aa:bb");

    assert!(state.remove_approved("aa:bb"));
    assert_eq!(state.ino_by_fingerprint("aa:bb"), None);
    assert_eq!(state.fingerprint_by_ino(ino), None);
}

#[test]
fn remove_of_an_absent_fingerprint_returns_false() {
    let mut state = ClientTrustState::new();
    assert!(!state.remove_approved("never-approved"));
}

#[test]
fn approved_entries_lists_everything_inserted() {
    let mut state = ClientTrustState::new();
    state.set_next_ino(100);
    state.insert_approved("aa:bb");
    state.insert_approved("cc:dd");

    let entries = state.approved_entries();
    let mut names: Vec<&str> = entries.iter().map(|(name, _ino)| name.as_str()).collect();
    names.sort_unstable();
    assert_eq!(names, vec!["aa:bb", "cc:dd"]);
}

#[test]
fn logs_start_empty() {
    let state = ClientTrustState::new();
    assert_eq!(state.approved_log_content(), "");
    assert_eq!(state.pending_log_content(), "");
    assert_eq!(state.rejected_log_content(), "");
}

#[test]
fn each_log_is_independent_of_the_others() {
    let mut state = ClientTrustState::new();
    state.log_approved("aa:bb");
    state.log_pending("cc:dd");
    state.log_rejected("ee:ff");

    assert_eq!(state.approved_log_content(), "aa:bb\n");
    assert_eq!(state.pending_log_content(), "cc:dd\n");
    assert_eq!(state.rejected_log_content(), "ee:ff\n");
}

#[test]
fn log_entries_appear_in_the_order_they_were_logged() {
    let mut state = ClientTrustState::new();
    state.log_approved("first");
    state.log_approved("second");

    assert_eq!(state.approved_log_content(), "first\nsecond\n");
}

#[test]
fn log_drops_the_oldest_entry_once_over_capacity() {
    let mut state = ClientTrustState::new();
    for index in 0..(CONNECTION_ATTEMPTS_LOG_CAPACITY + 1) {
        state.log_approved(&format!("entry-{index}"));
    }

    let content = state.approved_log_content();
    assert!(!content.contains("entry-0\n"));
    assert!(content.contains(&format!("entry-{CONNECTION_ATTEMPTS_LOG_CAPACITY}\n")));
    assert_eq!(content.lines().count(), CONNECTION_ATTEMPTS_LOG_CAPACITY);
}

#[test]
fn approving_again_after_a_withdrawal_gives_a_new_inode() {
    let mut state = ClientTrustState::new();
    state.set_next_ino(100);
    assert_eq!(state.insert_approved("aa:bb"), INodeNo(100));
    assert!(state.remove_approved("aa:bb"));
    assert!(!state.remove_approved("aa:bb"));
    assert_eq!(state.insert_approved("aa:bb"), INodeNo(101));
}
