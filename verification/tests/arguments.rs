use infused_modbus::arguments::{
    extract_expected_server_fingerprint, find_option, FINGERPRINT_OPTION,
};

fn arguments(list: &[&str]) -> Vec<String> {
    list.iter().map(|argument| argument.to_string()).collect()
}

#[test]
fn the_option_is_taken_out_wherever_it_stands() {
    let mut args = arguments(&["mnt", "--expect-server-fingerprint", "aa:bb", "desc.toml"]);
    assert_eq!(
        extract_expected_server_fingerprint(&mut args),
        Some("aa:bb".to_string())
    );
    assert_eq!(args, arguments(&["mnt", "desc.toml"]));
}

#[test]
fn without_the_option_nothing_changes() {
    let mut args = arguments(&["mnt", "desc.toml"]);
    assert_eq!(extract_expected_server_fingerprint(&mut args), None);
    assert_eq!(args, arguments(&["mnt", "desc.toml"]));
}

#[test]
fn the_first_of_two_options_counts() {
    let mut args = arguments(&[
        "--expect-server-fingerprint",
        "aa",
        "--expect-server-fingerprint",
        "bb",
    ]);
    assert_eq!(find_option(&args, FINGERPRINT_OPTION), 0);
    assert_eq!(
        extract_expected_server_fingerprint(&mut args),
        Some("aa".to_string())
    );
    assert_eq!(args, arguments(&["--expect-server-fingerprint", "bb"]));
}
