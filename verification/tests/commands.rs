use miniredis::resp::RespDecoder;
use miniredis::server::{ServerConfig, ServerInfo, ServerRole};
use miniredis::session::handle_frame;
use miniredis::store::Store;

fn leader_config() -> ServerConfig {
    ServerConfig {
        dir: None,
        dbfilename: None,
        role: ServerRole::Master,
    }
}

fn leader_info() -> ServerInfo {
    ServerInfo {
        role: ServerRole::Master,
        id: b"8371b4fb1155b71f4a04d3e1bc3e18c4a990aeeb".to_vec(),
        offset: 0,
    }
}

/// Feeds one request's wire bytes through decode and dispatch at the given
/// wall-time, returning the reply's wire bytes.
fn roundtrip(store: &mut Store, request: &[u8], now_ms: u64) -> Vec<u8> {
    let data = request.to_vec();
    let (frame, used) = RespDecoder::decode(&data).expect("request frame must decode");
    assert_eq!(used, data.len());
    handle_frame(&frame, store, &leader_config(), &leader_info(), now_ms)
        .expect("command must yield a reply")
}

#[test]
fn ping_replies_pong() {
    let mut store = Store::new();
    let reply = roundtrip(&mut store, b"*1\r\n$4\r\nPING\r\n", 0);
    assert_eq!(reply, b"+PONG\r\n".to_vec());
}

#[test]
fn echo_replies_argument() {
    let mut store = Store::new();
    let reply = roundtrip(&mut store, b"*2\r\n$4\r\nECHO\r\n$5\r\nhello\r\n", 0);
    assert_eq!(reply, b"$5\r\nhello\r\n".to_vec());
}

#[test]
fn set_then_get_returns_value() {
    let mut store = Store::new();
    let reply = roundtrip(&mut store, b"*3\r\n$3\r\nSET\r\n$3\r\nfoo\r\n$3\r\nbar\r\n", 0);
    assert_eq!(reply, b"+OK\r\n".to_vec());
    let reply = roundtrip(&mut store, b"*2\r\n$3\r\nGET\r\n$3\r\nfoo\r\n", 0);
    assert_eq!(reply, b"$3\r\nbar\r\n".to_vec());
}

#[test]
fn get_of_absent_key_is_null() {
    let mut store = Store::new();
    let reply = roundtrip(&mut store, b"*2\r\n$3\r\nGET\r\n$7\r\nmissing\r\n", 0);
    assert_eq!(reply, b"$-1\r\n".to_vec());
}

#[test]
fn set_with_px_expires_after_deadline() {
    let mut store = Store::new();
    let reply = roundtrip(
        &mut store,
        b"*5\r\n$3\r\nSET\r\n$1\r\nk\r\n$1\r\nv\r\n$2\r\nPX\r\n$3\r\n100\r\n",
        1_000,
    );
    assert_eq!(reply, b"+OK\r\n".to_vec());
    let reply = roundtrip(&mut store, b"*2\r\n$3\r\nGET\r\n$1\r\nk\r\n", 1_050);
    assert_eq!(reply, b"$1\r\nv\r\n".to_vec());
    let reply = roundtrip(&mut store, b"*2\r\n$3\r\nGET\r\n$1\r\nk\r\n", 1_150);
    assert_eq!(reply, b"$-1\r\n".to_vec());
}

#[test]
fn expiration_exactly_at_now_counts_as_expired() {
    let mut store = Store::new();
    roundtrip(
        &mut store,
        b"*5\r\n$3\r\nSET\r\n$1\r\nk\r\n$1\r\nv\r\n$2\r\nPX\r\n$3\r\n100\r\n",
        1_000,
    );
    let reply = roundtrip(&mut store, b"*2\r\n$3\r\nGET\r\n$1\r\nk\r\n", 1_100);
    assert_eq!(reply, b"$-1\r\n".to_vec());
    let reply = roundtrip(&mut store, b"*2\r\n$3\r\nGET\r\n$1\r\nk\r\n", 1_099);
    assert_eq!(reply, b"$1\r\nv\r\n".to_vec());
}

#[test]
fn overwriting_set_resets_expiration() {
    let mut store = Store::new();
    roundtrip(
        &mut store,
        b"*5\r\n$3\r\nSET\r\n$1\r\nk\r\n$1\r\na\r\n$2\r\nPX\r\n$2\r\n50\r\n",
        0,
    );
    roundtrip(&mut store, b"*3\r\n$3\r\nSET\r\n$1\r\nk\r\n$1\r\nb\r\n", 10);
    let reply = roundtrip(&mut store, b"*2\r\n$3\r\nGET\r\n$1\r\nk\r\n", 10_000);
    assert_eq!(reply, b"$1\r\nb\r\n".to_vec());
}

#[test]
fn later_px_option_overrides_earlier() {
    let mut store = Store::new();
    let reply = roundtrip(
        &mut store,
        b"*7\r\n$3\r\nSET\r\n$1\r\nk\r\n$1\r\nv\r\n$2\r\nPX\r\n$2\r\n10\r\n$2\r\npx\r\n$4\r\n5000\r\n",
        0,
    );
    assert_eq!(reply, b"+OK\r\n".to_vec());
    let reply = roundtrip(&mut store, b"*2\r\n$3\r\nGET\r\n$1\r\nk\r\n", 1_000);
    assert_eq!(reply, b"$1\r\nv\r\n".to_vec());
}

#[test]
fn keys_star_lists_both_keys() {
    let mut store = Store::new();
    roundtrip(&mut store, b"*3\r\n$3\r\nSET\r\n$1\r\na\r\n$1\r\n1\r\n", 0);
    roundtrip(&mut store, b"*3\r\n$3\r\nSET\r\n$1\r\nb\r\n$1\r\n2\r\n", 0);
    let reply = roundtrip(&mut store, b"*2\r\n$4\r\nKEYS\r\n$1\r\n*\r\n", 0);
    let a_first = b"*2\r\n$1\r\na\r\n$1\r\nb\r\n".to_vec();
    let b_first = b"*2\r\n$1\r\nb\r\n$1\r\na\r\n".to_vec();
    assert!(reply == a_first || reply == b_first);
}

#[test]
fn keys_star_skips_expired_keys() {
    let mut store = Store::new();
    roundtrip(&mut store, b"*3\r\n$3\r\nSET\r\n$4\r\nlive\r\n$1\r\n1\r\n", 0);
    roundtrip(
        &mut store,
        b"*5\r\n$3\r\nSET\r\n$4\r\ngone\r\n$1\r\n2\r\n$2\r\nPX\r\n$1\r\n5\r\n",
        0,
    );
    let reply = roundtrip(&mut store, b"*2\r\n$4\r\nKEYS\r\n$1\r\n*\r\n", 100);
    assert_eq!(reply, b"*1\r\n$4\r\nlive\r\n".to_vec());
}

#[test]
fn keys_other_pattern_is_unimplemented() {
    let mut store = Store::new();
    let reply = roundtrip(&mut store, b"*2\r\n$4\r\nKEYS\r\n$2\r\na*\r\n", 0);
    assert_eq!(reply, b"-ERR unimplemented\r\n".to_vec());
}

#[test]
fn info_replication_reports_leader() {
    let mut store = Store::new();
    let reply = roundtrip(&mut store, b"*2\r\n$4\r\nINFO\r\n$11\r\nreplication\r\n", 0);
    let text = String::from_utf8(reply).unwrap();
    assert!(text.starts_with('$'));
    let payload = text.split("\r\n").nth(1).unwrap();
    let lines: Vec<&str> = payload.split('\n').filter(|l| !l.is_empty()).collect();
    assert!(lines[0].starts_with("role:master"));
    assert!(lines[1].starts_with("master_replid:"));
    assert!(lines[2].starts_with("master_repl_offset:0"));
}

#[test]
fn info_unknown_section_is_error_reply() {
    let mut store = Store::new();
    let reply = roundtrip(&mut store, b"*2\r\n$4\r\nINFO\r\n$6\r\nmemory\r\n", 0);
    assert_eq!(reply, b"-ERR unsupported info section\r\n".to_vec());
}

#[test]
fn config_get_reports_configured_dir() {
    let mut store = Store::new();
    let config = ServerConfig {
        dir: Some(b"/tmp/data".to_vec()),
        dbfilename: Some(b"dump.rdb".to_vec()),
        role: ServerRole::Master,
    };
    let data = b"*3\r\n$6\r\nCONFIG\r\n$3\r\nGET\r\n$3\r\ndir\r\n".to_vec();
    let (frame, _) = RespDecoder::decode(&data).unwrap();
    let reply = handle_frame(&frame, &mut store, &config, &leader_info(), 0).unwrap();
    assert_eq!(reply, b"*2\r\n$3\r\ndir\r\n$9\r\n/tmp/data\r\n".to_vec());
}

#[test]
fn config_get_unknown_parameter_is_null() {
    let mut store = Store::new();
    let reply = roundtrip(
        &mut store,
        b"*3\r\n$6\r\nCONFIG\r\n$3\r\nGET\r\n$4\r\nsave\r\n",
        0,
    );
    assert_eq!(reply, b"$-1\r\n".to_vec());
}

#[test]
fn lower_case_command_names_fold() {
    let mut store = Store::new();
    let reply = roundtrip(&mut store, b"*1\r\n$4\r\nping\r\n", 0);
    assert_eq!(reply, b"+PONG\r\n".to_vec());
    let reply = roundtrip(&mut store, b"*3\r\n$3\r\nset\r\n$1\r\nx\r\n$1\r\ny\r\n", 0);
    assert_eq!(reply, b"+OK\r\n".to_vec());
}

#[test]
fn unknown_command_is_error_reply() {
    let mut store = Store::new();
    let reply = roundtrip(&mut store, b"*1\r\n$5\r\nHELLO\r\n", 0);
    assert_eq!(reply, b"-ERR unknown command\r\n".to_vec());
}

#[test]
fn echo_without_argument_is_format_error() {
    let mut store = Store::new();
    let reply = roundtrip(&mut store, b"*1\r\n$4\r\nECHO\r\n", 0);
    assert_eq!(reply, b"-ERR wrong number of arguments\r\n".to_vec());
}

#[test]
fn set_with_unknown_option_is_error_reply() {
    let mut store = Store::new();
    let reply = roundtrip(
        &mut store,
        b"*5\r\n$3\r\nSET\r\n$1\r\nk\r\n$1\r\nv\r\n$2\r\nEX\r\n$2\r\n10\r\n",
        0,
    );
    assert_eq!(reply, b"-ERR unknown option\r\n".to_vec());
    let reply = roundtrip(&mut store, b"*2\r\n$3\r\nGET\r\n$1\r\nk\r\n", 0);
    assert_eq!(reply, b"$-1\r\n".to_vec());
}

#[test]
fn set_with_bad_px_value_is_error_reply() {
    let mut store = Store::new();
    let reply = roundtrip(
        &mut store,
        b"*5\r\n$3\r\nSET\r\n$1\r\nk\r\n$1\r\nv\r\n$2\r\nPX\r\n$3\r\nabc\r\n",
        0,
    );
    assert_eq!(reply, b"-ERR bad option value\r\n".to_vec());
    let reply = roundtrip(
        &mut store,
        b"*5\r\n$3\r\nSET\r\n$1\r\nk\r\n$1\r\nv\r\n$2\r\nPX\r\n$3\r\n-10\r\n",
        0,
    );
    assert_eq!(reply, b"-ERR bad option value\r\n".to_vec());
}

#[test]
fn set_missing_value_is_format_error() {
    let mut store = Store::new();
    let reply = roundtrip(&mut store, b"*2\r\n$3\r\nSET\r\n$1\r\nk\r\n", 0);
    assert_eq!(reply, b"-ERR wrong number of arguments\r\n".to_vec());
}

#[test]
fn empty_command_closes_connection() {
    let mut store = Store::new();
    let data = b"*0\r\n".to_vec();
    let (frame, _) = RespDecoder::decode(&data).unwrap();
    let result = handle_frame(&frame, &mut store, &leader_config(), &leader_info(), 0);
    assert!(result.is_err());
}

#[test]
fn non_array_request_is_error_reply() {
    let mut store = Store::new();
    let data = b"+PING\r\n".to_vec();
    let (frame, _) = RespDecoder::decode(&data).unwrap();
    let reply = handle_frame(&frame, &mut store, &leader_config(), &leader_info(), 0).unwrap();
    assert_eq!(reply, b"-ERR unknown command\r\n".to_vec());
}
