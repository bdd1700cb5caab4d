use redis_lite::resp::{
    decode, handle_resp_request, string_to_simple_resp, to_bulk_array, to_bulk_string, Command,
    Content, ContentType, RespRequest,
};

fn texts(r: &RespRequest) -> Vec<String> {
    r.arguments.iter().map(|c| c.content.clone()).collect()
}

#[test]
fn bulk_string_counts_bytes() {
    assert_eq!(to_bulk_string("hello".to_string()), "$5\r\nhello\r\n");
    assert_eq!(to_bulk_string(String::new()), "$0\r\n\r\n");
    assert_eq!(to_bulk_string("h\u{e9}llo".to_string()), "$6\r\nh\u{e9}llo\r\n");
    assert_eq!(to_bulk_string("\u{1F600}".to_string()), "$4\r\n\u{1F600}\r\n");
}

#[test]
fn simple_reply_has_prefix_and_terminator() {
    assert_eq!(string_to_simple_resp("OK", '+'), "+OK\r\n");
    assert_eq!(string_to_simple_resp("-1", '$'), "$-1\r\n");
    assert_eq!(string_to_simple_resp("ERR boom", '-'), "-ERR boom\r\n");
}

#[test]
fn bulk_array_encodes_each_item() {
    let items = vec!["PING".to_string()];
    assert_eq!(to_bulk_array(&items), "*1\r\n$4\r\nPING\r\n");
    let items = vec!["a".to_string(), "bc".to_string()];
    assert_eq!(to_bulk_array(&items), "*2\r\n$1\r\na\r\n$2\r\nbc\r\n");
}

#[test]
fn bulk_round_trip_keeps_text() {
    for v in ["", "hello", "h\u{e9}llo w\u{f6}rld", "ping", "SET", "a\rb"] {
        let r = decode(&to_bulk_string(v.to_string()));
        assert_eq!(r.arguments.len(), 1);
        assert_eq!(r.arguments[0].content, v);
        assert_eq!(r.arguments[0].content_type, ContentType::BulkString);
        assert_eq!(r.single_content_type, ContentType::BulkString);
    }
}

#[test]
fn ping_array_is_recognised() {
    let r = handle_resp_request("*1\r\n$4\r\nPING\r\n".to_string());
    assert_eq!(r.command, Command::Ping);
    assert!(r.arguments.is_empty());
    assert_eq!(r.single_content_type, ContentType::Null);
}

#[test]
fn keywords_ignore_ascii_case() {
    let r = handle_resp_request("*2\r\n$4\r\neChO\r\n$5\r\nhello\r\n".to_string());
    assert_eq!(r.command, Command::Echo);
    assert_eq!(texts(&r), vec!["hello"]);
    let r = handle_resp_request("*2\r\n$4\r\ninfo\r\n$11\r\nreplication\r\n".to_string());
    assert_eq!(r.command, Command::Info);
    let r = handle_resp_request("*3\r\n$8\r\nreplconf\r\n$4\r\ncapa\r\n$6\r\npsync2\r\n".to_string());
    assert_eq!(r.command, Command::Replconf);
    assert_eq!(texts(&r), vec!["capa", "psync2"]);
}

#[test]
fn set_without_px_never_expires() {
    let r = handle_resp_request("*3\r\n$3\r\nSET\r\n$3\r\nfoo\r\n$3\r\nbar\r\n".to_string());
    assert_eq!(r.command, Command::SetKey);
    assert_eq!(texts(&r), vec!["foo", "bar", "MAX_VALUE"]);
}

#[test]
fn set_with_px_keeps_canonical_milliseconds() {
    let r = handle_resp_request(
        "*5\r\n$3\r\nset\r\n$3\r\nfoo\r\n$3\r\nbar\r\n$2\r\npX\r\n$3\r\n+07\r\n".to_string(),
    );
    assert_eq!(r.command, Command::SetKey);
    assert_eq!(texts(&r), vec!["foo", "bar", "7"]);
    let r = handle_resp_request(
        "*5\r\n$3\r\nSET\r\n$1\r\nk\r\n$1\r\nv\r\n$2\r\nPX\r\n$3\r\nabc\r\n".to_string(),
    );
    assert_eq!(texts(&r), vec!["k", "v", "MAX_VALUE"]);
    let r = handle_resp_request(
        "*5\r\n$3\r\nSET\r\n$1\r\nk\r\n$1\r\nv\r\n$2\r\nPX\r\n$3\r\n-10\r\n".to_string(),
    );
    assert_eq!(texts(&r), vec!["k", "v", "-10"]);
}

#[test]
fn set_with_one_operand_is_left_alone() {
    let r = handle_resp_request("*2\r\n$3\r\nSET\r\n$3\r\nfoo\r\n".to_string());
    assert_eq!(r.command, Command::SetKey);
    assert_eq!(texts(&r), vec!["foo"]);
}

#[test]
fn unknown_word_keeps_first_element() {
    let r = handle_resp_request("*1\r\n$5\r\nHELLO\r\n".to_string());
    assert_eq!(r.command, Command::Unknown);
    assert_eq!(texts(&r), vec!["HELLO"]);
}

#[test]
fn simple_values_record_their_type() {
    let r = handle_resp_request("+OK\r\n".to_string());
    assert_eq!(r.command, Command::Unknown);
    assert_eq!(texts(&r), vec!["OK"]);
    assert_eq!(r.single_content_type, ContentType::String);

    let r = decode(":42\r\n");
    assert_eq!(texts(&r), vec!["42"]);
    assert_eq!(r.arguments[0].content_type, ContentType::Integer);
    assert_eq!(r.single_content_type, ContentType::Integer);

    let r = decode("-ERR bad\r\n");
    assert_eq!(r.arguments[0].content_type, ContentType::Error);
    assert_eq!(texts(&r), vec!["ERR bad"]);

    let r = decode("#1.5\r\n");
    assert_eq!(r.arguments[0].content_type, ContentType::Double);

    let r = decode("_\r\n");
    assert!(r.arguments.is_empty());
    assert_eq!(r.single_content_type, ContentType::Null);
}

#[test]
fn bulk_payload_is_clamped_to_declared_length() {
    assert_eq!(texts(&decode("$3\r\nhello\r\n")), vec!["hel"]);
    assert_eq!(texts(&decode("$10\r\nhi\r\n")), vec!["hi"]);
    assert_eq!(texts(&decode("$1\r\n\u{e9}\r\n")), vec![""]);
    assert_eq!(texts(&decode("$x\r\nhi\r\n")), vec![""]);
}

#[test]
fn array_consumes_one_more_element_than_declared() {
    let r = decode("*1\r\n+a\r\n+b\r\n+c\r\n");
    assert_eq!(texts(&r), vec!["a", "b"]);
    assert_eq!(r.single_content_type, ContentType::Null);
    let r = decode("*0\r\n+a\r\n+b\r\n");
    assert_eq!(texts(&r), vec!["a"]);
}

#[test]
fn nested_arrays_flatten_into_one_request() {
    let r = decode("*1\r\n*1\r\n+a\r\n+b\r\n+c\r\n");
    assert_eq!(texts(&r), vec!["a", "b", "c"]);
}

#[test]
fn lf_only_lines_are_accepted() {
    let r = handle_resp_request("*2\n$4\nECHO\n$2\nhi\n".to_string());
    assert_eq!(r.command, Command::Echo);
    assert_eq!(texts(&r), vec!["hi"]);
}

#[test]
fn decode_faults_give_the_empty_request() {
    for input in ["", "$5", "*1\r\n$3", ",1.5\r\n", "*2\r\n+a\r\n%3\r\n"] {
        let r = handle_resp_request(input.to_string());
        assert_eq!(r.command, Command::Unknown);
        assert!(r.arguments.is_empty());
        assert_eq!(r.single_content_type, ContentType::Null);
    }
}

#[test]
fn untagged_lines_are_skipped() {
    let r = decode("*2\r\nhello\r\n+a\r\n");
    assert_eq!(texts(&r), vec!["a"]);
}

#[test]
fn new_request_is_empty() {
    let r = RespRequest::new();
    assert_eq!(r.command, Command::Unknown);
    assert!(r.arguments.is_empty());
    let c = Content { content: "x".to_string(), content_type: ContentType::Array };
    assert_eq!(c.content_type, ContentType::Array);
}

#[test]
fn parse_command_on_built_request() {
    let req = RespRequest {
        command: Command::Unknown,
        arguments: vec![
            Content { content: "get".to_string(), content_type: ContentType::String },
            Content { content: "k".to_string(), content_type: ContentType::BulkString },
        ],
        single_content_type: ContentType::Null,
    };
    let r = RespRequest::parse_command(req);
    assert_eq!(r.command, Command::Get);
    assert_eq!(texts(&r), vec!["k"]);
    let req = RespRequest {
        command: Command::Unknown,
        arguments: vec![Content { content: "GET".to_string(), content_type: ContentType::Integer }],
        single_content_type: ContentType::Null,
    };
    let r = RespRequest::parse_command(req);
    assert_eq!(r.command, Command::Unknown);
    assert_eq!(texts(&r), vec!["GET"]);
}
