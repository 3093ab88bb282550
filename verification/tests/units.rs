use miniredis::command::{PingCommand, ReplconfCommand, ReplconfCommandArg};
use miniredis::resp::RespEncoder;
use miniredis::response::PingResponse;
use miniredis::server::{
    FollowerHandshake, Server, ServerConfig, ServerInfo, ServerInfoFormatter, ServerRole,
};
use miniredis::store::{Store, StoreValue, StoreValueBuilder};

#[test]
fn store_set_get_delete() {
    let mut store = Store::new();
    assert!(store.get(&b"k".to_vec()).is_none());
    store.set(
        &b"k".to_vec(),
        StoreValue {
            value: b"v1".to_vec(),
            exp: None,
        },
    );
    let entry = store.get(&b"k".to_vec()).unwrap();
    assert_eq!(entry.value, b"v1".to_vec());
    assert_eq!(entry.exp, None);
    store.set(
        &b"k".to_vec(),
        StoreValue {
            value: b"v2".to_vec(),
            exp: Some(17),
        },
    );
    let entry = store.get(&b"k".to_vec()).unwrap();
    assert_eq!(entry.value, b"v2".to_vec());
    assert_eq!(entry.exp, Some(17));
    store.delete(&b"k".to_vec());
    assert!(store.get(&b"k".to_vec()).is_none());
}

#[test]
fn store_keys_are_unique() {
    let mut store = Store::new();
    for _ in 0..3 {
        store.set(
            &b"same".to_vec(),
            StoreValue {
                value: b"v".to_vec(),
                exp: None,
            },
        );
    }
    store.set(
        &b"other".to_vec(),
        StoreValue {
            value: b"w".to_vec(),
            exp: None,
        },
    );
    let mut keys = store.get_all_keys();
    keys.sort();
    assert_eq!(keys, vec![b"other".to_vec(), b"same".to_vec()]);
}

#[test]
fn store_value_builder_combines_parts() {
    let mut builder = StoreValueBuilder::new();
    builder.with_value(&b"payload".to_vec());
    builder.with_exp(99);
    let value = builder.build();
    assert_eq!(value.value, b"payload".to_vec());
    assert_eq!(value.exp, Some(99));
}

#[test]
fn ping_response_bytes() {
    assert_eq!(PingResponse.reply_bytes(), b"+PONG\r\n".to_vec());
}

#[test]
fn ping_command_frames() {
    assert_eq!(
        RespEncoder::encode(PingCommand.generate_reply()),
        b"+PONG\r\n".to_vec()
    );
    assert_eq!(
        RespEncoder::encode(PingCommand.generate_request()),
        b"*1\r\n$4\r\nPING\r\n".to_vec()
    );
}

#[test]
fn replconf_command_frames() {
    let listening = ReplconfCommand::new(ReplconfCommandArg::ListeningPort(6380));
    assert_eq!(
        RespEncoder::encode(listening.generate_request()),
        b"*3\r\n$8\r\nREPLCONF\r\n$14\r\nlistening-port\r\n$4\r\n6380\r\n".to_vec()
    );
    let capa = ReplconfCommand::new(ReplconfCommandArg::Capa(b"psync2".to_vec()));
    assert_eq!(
        RespEncoder::encode(capa.generate_request()),
        b"*3\r\n$8\r\nREPLCONF\r\n$4\r\ncapa\r\n$6\r\npsync2\r\n".to_vec()
    );
    assert_eq!(
        RespEncoder::encode(capa.generate_reply()),
        b"+OK\r\n".to_vec()
    );
}

#[test]
fn follower_handshake_sends_four_requests_in_order() {
    let mut handshake = FollowerHandshake::new(6380);
    let expected: [&[u8]; 4] = [
        b"*1\r\n$4\r\nPING\r\n",
        b"*3\r\n$8\r\nREPLCONF\r\n$14\r\nlistening-port\r\n$4\r\n6380\r\n",
        b"*3\r\n$8\r\nREPLCONF\r\n$4\r\ncapa\r\n$6\r\npsync2\r\n",
        b"*3\r\n$5\r\nPSYNC\r\n$1\r\n?\r\n$2\r\n-1\r\n",
    ];
    for want in expected {
        let frame = handshake.next_request().expect("another request is due");
        assert_eq!(RespEncoder::encode(frame), want.to_vec());
    }
    assert!(handshake.next_request().is_none());
}

#[test]
fn info_formatter_renders_lines() {
    let info = ServerInfo {
        role: ServerRole::Slave(b"127.0.0.1:6379".to_vec()),
        id: b"abc123".to_vec(),
        offset: 42,
    };
    let formatter = ServerInfoFormatter::new(&info);
    assert_eq!(
        formatter.format(),
        b"role:slave\nmaster_replid:abc123\nmaster_repl_offset:42\n".to_vec()
    );
}

#[test]
fn rdb_path_joins_dir_and_filename() {
    let config = ServerConfig {
        dir: Some(b"/tmp/redis-data".to_vec()),
        dbfilename: Some(b"dump.rdb".to_vec()),
        role: ServerRole::Master,
    };
    assert_eq!(
        config.get_rdb_path(),
        Some(b"/tmp/redis-data/dump.rdb".to_vec())
    );
    let bare = ServerConfig {
        dir: Some(b"/tmp".to_vec()),
        dbfilename: None,
        role: ServerRole::Master,
    };
    assert_eq!(bare.get_rdb_path(), None);
}

#[test]
fn server_builder_sets_paths() {
    let mut server = Server::new(ServerRole::Master);
    assert!(server.config.dir.is_none());
    server.with_dir(&b"/data".to_vec()).unwrap();
    server.with_dbfilename(&b"x.rdb".to_vec()).unwrap();
    assert_eq!(server.config.dir, Some(b"/data".to_vec()));
    assert_eq!(server.config.dbfilename, Some(b"x.rdb".to_vec()));
    assert_eq!(
        server.config.get_rdb_path(),
        Some(b"/data/x.rdb".to_vec())
    );
}
