use redis_lite::resp::{handle_resp_request, Command, Content, ContentType, RespRequest};
use redis_lite::server::{handle_request, respond_at, RedisReplicationState, Role};
use redis_lite::storage::TimeKeyValueStorage;

const MS: u64 = 1_000_000;
const T0: u64 = 1_700_000_000_000 * MS;

fn run(
    input: &str,
    store: &mut TimeKeyValueStorage<String>,
    state: &mut RedisReplicationState,
    now: u64,
) -> Option<String> {
    let req = handle_resp_request(input.to_string());
    respond_at(&req, store, state, now)
}

fn fresh() -> (TimeKeyValueStorage<String>, RedisReplicationState) {
    (TimeKeyValueStorage::new(), RedisReplicationState::new())
}

#[test]
fn ping_gets_pong() {
    let (mut store, mut state) = fresh();
    let r = run("*1\r\n$4\r\nPING\r\n", &mut store, &mut state, T0);
    assert_eq!(r.as_deref(), Some("+PONG\r\n"));
}

#[test]
fn echo_one_operand() {
    let (mut store, mut state) = fresh();
    let r = run("*2\r\n$4\r\nECHO\r\n$5\r\nhello\r\n", &mut store, &mut state, T0);
    assert_eq!(r.as_deref(), Some("$5\r\nhello\r\n"));
}

#[test]
fn echo_no_operand_and_several() {
    let (mut store, mut state) = fresh();
    let r = run("*1\r\n$4\r\nECHO\r\n", &mut store, &mut state, T0);
    assert_eq!(r.as_deref(), Some(""));
    let r = run("*3\r\n$4\r\nECHO\r\n$1\r\na\r\n$2\r\nbc\r\n", &mut store, &mut state, T0);
    assert_eq!(r.as_deref(), Some("*2\r\n$1\r\na\r\n$2\r\nbc\r\n"));
    let r = run("*3\r\n$4\r\nECHO\r\n$1\r\na\r\n:5\r\n", &mut store, &mut state, T0);
    assert_eq!(r.as_deref(), Some("*2\r\n$1\r\na\r\n"));
}

#[test]
fn set_then_get() {
    let (mut store, mut state) = fresh();
    let r = run("*3\r\n$3\r\nSET\r\n$3\r\nfoo\r\n$3\r\nbar\r\n", &mut store, &mut state, T0);
    assert_eq!(r.as_deref(), Some("+OK\r\n"));
    let r = run("*2\r\n$3\r\nGET\r\n$3\r\nfoo\r\n", &mut store, &mut state, T0 + 1);
    assert_eq!(r.as_deref(), Some("$3\r\nbar\r\n"));
}

#[test]
fn get_missing_is_null() {
    let (mut store, mut state) = fresh();
    let r = run("*2\r\n$3\r\nGET\r\n$7\r\nmissing\r\n", &mut store, &mut state, T0);
    assert_eq!(r.as_deref(), Some("$-1\r\n"));
}

#[test]
fn set_with_px_expires() {
    let (mut store, mut state) = fresh();
    let r = run(
        "*5\r\n$3\r\nSET\r\n$3\r\nfoo\r\n$3\r\nbar\r\n$2\r\nPX\r\n$2\r\n10\r\n",
        &mut store,
        &mut state,
        T0,
    );
    assert_eq!(r.as_deref(), Some("+OK\r\n"));
    let get = "*2\r\n$3\r\nGET\r\n$3\r\nfoo\r\n";
    assert_eq!(run(get, &mut store, &mut state, T0 + 5 * MS).as_deref(), Some("$3\r\nbar\r\n"));
    assert_eq!(run(get, &mut store, &mut state, T0 + 50 * MS).as_deref(), Some("$-1\r\n"));
}

#[test]
fn set_overwrites_previous_value() {
    let (mut store, mut state) = fresh();
    run("*3\r\n$3\r\nSET\r\n$1\r\nk\r\n$1\r\na\r\n", &mut store, &mut state, T0);
    run("*3\r\n$3\r\nSET\r\n$1\r\nk\r\n$1\r\nb\r\n", &mut store, &mut state, T0 + 1);
    let r = run("*2\r\n$3\r\nGET\r\n$1\r\nk\r\n", &mut store, &mut state, T0 + 2);
    assert_eq!(r.as_deref(), Some("$1\r\nb\r\n"));
    assert_eq!(store.get_by_time(T0), None);
}

#[test]
fn set_with_too_few_operands_is_an_error() {
    let (mut store, mut state) = fresh();
    let r = run("*2\r\n$3\r\nSET\r\n$3\r\nfoo\r\n", &mut store, &mut state, T0);
    assert_eq!(r.as_deref(), Some("-ERR wrong number of arguments for 'get' command\r\n"));
}

#[test]
fn set_with_unreadable_expiry_drops_connection() {
    let (mut store, mut state) = fresh();
    let bulk = |s: &str| Content { content: s.to_string(), content_type: ContentType::BulkString };
    let req = RespRequest {
        command: Command::SetKey,
        arguments: vec![bulk("k"), bulk("v"), bulk("soon")],
        single_content_type: ContentType::Null,
    };
    assert_eq!(respond_at(&req, &mut store, &mut state, T0), None);
    assert_eq!(store.get_last_modified(&"k".to_string()), None);
    let req = RespRequest {
        command: Command::SetKey,
        arguments: vec![bulk("k"), bulk("v")],
        single_content_type: ContentType::Null,
    };
    assert_eq!(respond_at(&req, &mut store, &mut state, T0).as_deref(), Some("+OK\r\n"));
    assert_eq!(store.get_at(&"k".to_string(), u64::MAX).map(|s| s.as_str()), Some("v"));
}

#[test]
fn unknown_command_names_first_word() {
    let (mut store, mut state) = fresh();
    let r = run("*1\r\n$5\r\nHELLO\r\n", &mut store, &mut state, T0);
    assert_eq!(r.as_deref(), Some("-ERR Unknown command 'HELLO'\r\n"));
}

#[test]
fn requests_unfit_for_a_reply() {
    let (mut store, mut state) = fresh();
    assert_eq!(run("", &mut store, &mut state, T0), None);
    assert_eq!(run("*1\r\n$3\r\nGET\r\n", &mut store, &mut state, T0), None);
}

#[test]
fn replconf_is_acknowledged() {
    let (mut store, mut state) = fresh();
    let r = run(
        "*3\r\n$8\r\nREPLCONF\r\n$14\r\nlistening-port\r\n$4\r\n6380\r\n",
        &mut store,
        &mut state,
        T0,
    );
    assert_eq!(r.as_deref(), Some("+OK\r\n"));
}

#[test]
fn info_replication_reports_role() {
    let (mut store, mut state) = fresh();
    let r = run("*2\r\n$4\r\nINFO\r\n$11\r\nreplication\r\n", &mut store, &mut state, T0);
    let body = "role:master\nmaster_replid:8371b4fb1155b71f4a04d3e1bc3e18c4a990aeeb\nmaster_repl_offset:0\n";
    assert_eq!(r, Some(format!("${}\r\n{}\r\n", body.len(), body)));
    assert_eq!(state.connected_slaves, 1);
    let r = run("*2\r\n$4\r\nINFO\r\n$6\r\nserver\r\n", &mut store, &mut state, T0);
    assert_eq!(r.as_deref(), Some("$-1\r\n"));
    assert_eq!(state.connected_slaves, 2);
    state.role = Role::Slave;
    let r = run("*2\r\n$4\r\nINFO\r\n$11\r\nreplication\r\n", &mut store, &mut state, T0);
    assert!(r.unwrap().contains("role:slave\n"));
}

#[test]
fn handle_request_uses_the_clock() {
    let (mut store, mut state) = fresh();
    let set = handle_resp_request("*3\r\n$3\r\nSET\r\n$1\r\nk\r\n$1\r\nv\r\n".to_string());
    assert_eq!(handle_request(&set, &mut store, &mut state).as_deref(), Some("+OK\r\n"));
    let get = handle_resp_request("*2\r\n$3\r\nGET\r\n$1\r\nk\r\n".to_string());
    assert_eq!(handle_request(&get, &mut store, &mut state).as_deref(), Some("$1\r\nv\r\n"));
}

#[test]
fn replication_state_lines() {
    let state = RedisReplicationState::new();
    assert_eq!(state.role.name(), "master");
    assert_eq!(Role::Slave.name(), "slave");
    let lines = state.to_string_vec();
    assert_eq!(
        lines,
        vec![
            "#Replication",
            "role:Master",
            "connected_slaves:0",
            "master_replid:8371b4fb1155b71f4a04d3e1bc3e18c4a990aeeb",
            "second_repl_offset:0",
            "repl_backlog_size:0",
            "repl_backlog_first_byte_offset:0",
            "repl_backlog_histlen:0",
        ]
    );
    let mut s = RedisReplicationState::new();
    s.second_repl_offset = -5;
    s.connected_slaves = 12;
    let lines = s.to_string_vec();
    assert_eq!(lines[2], "connected_slaves:12");
    assert_eq!(lines[4], "second_repl_offset:-5");
}
