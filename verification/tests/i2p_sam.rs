use simple_network::transport::i2p::{sam_check_ok, sam_kv, sam_tokens, split_dest_port};

#[test]
fn parses_hello_reply_ok() {
    let kv = sam_check_ok("HELLO REPLY RESULT=OK VERSION=3.3\n").unwrap();
    assert_eq!(kv.get("VERSION").unwrap(), "3.3");
}

#[test]
fn extracts_naming_lookup_destination() {
    let kv = sam_check_ok("NAMING REPLY RESULT=OK NAME=ME VALUE=abcDEST123\n").unwrap();
    assert_eq!(kv.get("VALUE").unwrap(), "abcDEST123");
}

#[test]
fn surfaces_result_code_and_message() {
    let err = sam_check_ok("STREAM STATUS RESULT=CANT_REACH_PEER MESSAGE=\"no route\"\n")
        .unwrap_err()
        .to_string();
    assert!(err.contains("CANT_REACH_PEER"), "got: {err}");
    assert!(err.contains("no route"), "got: {err}");
}

#[test]
fn result_without_message_still_errors() {
    let err = sam_check_ok("SESSION STATUS RESULT=DUPLICATED_ID\n")
        .unwrap_err()
        .to_string();
    assert!(err.contains("DUPLICATED_ID"), "got: {err}");
}

#[test]
fn missing_result_is_malformed() {
    assert!(sam_check_ok("HELLO REPLY VERSION=3.3\n").is_err());
}

#[test]
fn splits_optional_stream_port() {
    assert_eq!(
        split_dest_port("peer.b32.i2p:7777"),
        ("peer.b32.i2p", Some(7777))
    );
    // a bare destination / hostname is untouched
    assert_eq!(split_dest_port("peer.b32.i2p"), ("peer.b32.i2p", None));
    // base64 dest with no port
    assert_eq!(split_dest_port("AAAABBBBcccc"), ("AAAABBBBcccc", None));
    // non-numeric suffix is not a port → leave the whole string as dest
    assert_eq!(split_dest_port("host:notaport"), ("host:notaport", None));
}

#[test]
fn kv_ignores_bare_words_and_strips_quotes() {
    let kv = sam_kv("STREAM STATUS RESULT=OK MESSAGE=\"hi there\"");
    assert_eq!(kv.get("RESULT").unwrap(), "OK");
    assert_eq!(kv.get("MESSAGE").unwrap(), "hi there");
    assert!(!kv.contains_key("STREAM"));
}

#[test]
fn exact_error_texts() {
    let e = sam_check_ok("STREAM STATUS RESULT=CANT_REACH_PEER MESSAGE=\"no route\"\n").unwrap_err();
    assert_eq!(e.to_string(), "SAM error CANT_REACH_PEER: no route");
    let e = sam_check_ok("SESSION STATUS RESULT=DUPLICATED_ID\n").unwrap_err();
    assert_eq!(e.to_string(), "SAM error DUPLICATED_ID");
    let e = sam_check_ok("HELLO REPLY VERSION=3.3 \n").unwrap_err();
    assert_eq!(e.to_string(), "malformed SAM reply: \"HELLO REPLY VERSION=3.3\"");
}

#[test]
fn tokens_keep_quoted_spaces_and_drop_quotes() {
    let t = sam_tokens("  A  B=\"x y\"\tC\u{3000}D ");
    assert_eq!(t, vec!["A".to_string(), "B=x y".to_string(), "C".to_string(), "D".to_string()]);
    assert!(sam_tokens(" \n ").is_empty());
}

#[test]
fn later_duplicate_key_wins_and_value_keeps_equals() {
    let kv = sam_kv("X=1 X=2 Y=a=b Z=");
    assert_eq!(kv.get("X").unwrap(), "2");
    assert_eq!(kv.get("Y").unwrap(), "a=b");
    assert_eq!(kv.get("Z").unwrap(), "");
    assert_eq!(kv.len(), 3);
}

#[test]
fn port_parsing_edges() {
    assert_eq!(split_dest_port("h:65535"), ("h", Some(65535)));
    assert_eq!(split_dest_port("h:65536"), ("h:65536", None));
    assert_eq!(split_dest_port("h:+80"), ("h", Some(80)));
    assert_eq!(split_dest_port("h:"), ("h:", None));
    assert_eq!(split_dest_port("a:b:0080"), ("a:b", Some(80)));
    assert_eq!(split_dest_port("h:-1"), ("h:-1", None));
}
