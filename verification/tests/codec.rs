use kvs::{Command, ServerResponse};

fn put(key: &str, value: &str) -> Command {
    Command::Put { key: key.to_string(), value: value.to_string() }
}

fn get(key: &str) -> Command {
    Command::Get { key: key.to_string() }
}

fn remove(key: &str) -> Command {
    Command::Remove { key: key.to_string() }
}

fn text(bytes: Vec<u8>) -> String {
    String::from_utf8(bytes).unwrap()
}

/// The same command as a JSON value with one field, the variant's tag.
fn as_json(command: &Command) -> serde_json::Value {
    let mut fields = serde_json::Map::new();
    let tag = match command {
        Command::Put { key, value } => {
            fields.insert("key".to_string(), serde_json::Value::String(key.clone()));
            fields.insert("value".to_string(), serde_json::Value::String(value.clone()));
            "Set"
        }
        Command::Get { key } => {
            fields.insert("key".to_string(), serde_json::Value::String(key.clone()));
            "Get"
        }
        Command::Remove { key } => {
            fields.insert("key".to_string(), serde_json::Value::String(key.clone()));
            "Remove"
        }
    };
    let mut whole = serde_json::Map::new();
    whole.insert(tag.to_string(), serde_json::Value::Object(fields));
    serde_json::Value::Object(whole)
}

fn samples() -> Vec<Command> {
    let texts = [
        "",
        "a",
        "key with spaces",
        "\"",
        "\\",
        "\\\"",
        "\\n",
        "\n",
        "\r\n",
        "\t\u{8}\u{c}",
        "\u{0}\u{1}\u{1f}\u{7f}",
        "\u{b}\u{e}\u{10}\u{1a}",
        "\u{e9}t\u{e9}",
        "\u{4e2d}\u{6587}",
        "\u{1f600}",
        "{\"Set\":{\"key\":\"a\",\"value\":\"1\"}}",
        "\\u0041",
        "/",
    ];
    let mut all = Vec::new();
    for key in texts.iter() {
        all.push(get(key));
        all.push(remove(key));
        for value in texts.iter() {
            all.push(put(key, value));
        }
    }
    all
}

#[test]
fn commands_are_written_as_tagged_objects() {
    assert_eq!(text(put("a", "1").encode()), "{\"Set\":{\"key\":\"a\",\"value\":\"1\"}}");
    assert_eq!(text(get("a").encode()), "{\"Get\":{\"key\":\"a\"}}");
    assert_eq!(text(remove("a").encode()), "{\"Remove\":{\"key\":\"a\"}}");
    assert_eq!(text(put("", "").encode()), "{\"Set\":{\"key\":\"\",\"value\":\"\"}}");
}

#[test]
fn special_bytes_are_escaped() {
    assert_eq!(text(get("\"").encode()), "{\"Get\":{\"key\":\"\\\"\"}}");
    assert_eq!(text(get("\\").encode()), "{\"Get\":{\"key\":\"\\\\\"}}");
    assert_eq!(text(get("\n").encode()), "{\"Get\":{\"key\":\"\\n\"}}");
    assert_eq!(text(get("\r").encode()), "{\"Get\":{\"key\":\"\\r\"}}");
    assert_eq!(text(get("\t").encode()), "{\"Get\":{\"key\":\"\\t\"}}");
    assert_eq!(text(get("\u{8}").encode()), "{\"Get\":{\"key\":\"\\b\"}}");
    assert_eq!(text(get("\u{c}").encode()), "{\"Get\":{\"key\":\"\\f\"}}");
    assert_eq!(text(get("\u{0}").encode()), "{\"Get\":{\"key\":\"\\u0000\"}}");
    assert_eq!(text(get("\u{b}").encode()), "{\"Get\":{\"key\":\"\\u000b\"}}");
    assert_eq!(text(get("\u{1f}").encode()), "{\"Get\":{\"key\":\"\\u001f\"}}");
    assert_eq!(text(get("\u{7f}").encode()), "{\"Get\":{\"key\":\"\u{7f}\"}}");
    assert_eq!(text(get("\u{e9}").encode()), "{\"Get\":{\"key\":\"\u{e9}\"}}");
    assert_eq!(text(get("/").encode()), "{\"Get\":{\"key\":\"/\"}}");
}

#[test]
fn decode_of_encode_is_the_command() {
    for command in samples() {
        let written = command.encode();
        assert!(!written.contains(&b'\n'));
        assert_eq!(Command::decode(&written), Some(command));
    }
}

#[test]
fn encode_of_decode_is_the_bytes() {
    let lines: [&[u8]; 4] = [
        b"{\"Set\":{\"key\":\"a\\nb\",\"value\":\"\\u0001\"}}",
        b"{\"Get\":{\"key\":\"\xc3\xa9\"}}",
        b"{\"Remove\":{\"key\":\"\\\\\"}}",
        b"{\"Set\":{\"key\":\"\",\"value\":\"\"}}",
    ];
    for line in lines.iter() {
        let command = Command::decode(line).expect("a written command");
        assert_eq!(&command.encode()[..], *line);
    }
}

#[test]
fn the_written_form_is_what_serde_json_writes() {
    for command in samples() {
        let expected = serde_json::to_string(&as_json(&command)).unwrap();
        assert_eq!(text(command.encode()), expected);
    }
}

#[test]
fn what_serde_json_reads_back_is_the_command() {
    for command in samples() {
        let read: serde_json::Value = serde_json::from_slice(&command.encode()).unwrap();
        assert_eq!(read, as_json(&command));
    }
}

#[test]
fn decode_reads_fields() {
    assert_eq!(
        Command::decode(b"{\"Set\":{\"key\":\"k\",\"value\":\"v\"}}"),
        Some(put("k", "v"))
    );
    assert_eq!(Command::decode(b"{\"Get\":{\"key\":\"k\"}}"), Some(get("k")));
    assert_eq!(Command::decode(b"{\"Remove\":{\"key\":\"k\"}}"), Some(remove("k")));
    assert_eq!(
        Command::decode(b"{\"Set\":{\"key\":\"\\u0000\\t\",\"value\":\"\\\"\\\\\"}}"),
        Some(put("\u{0}\t", "\"\\"))
    );
}

#[test]
fn decode_rejects_what_encode_does_not_write() {
    let bad: [&[u8]; 24] = [
        b"",
        b"{",
        b"{}",
        b"null",
        b"{\"Set\":{\"key\":\"k\"}}",
        b"{\"Set\":{\"key\":\"k\",\"value\":\"v\"}",
        b"{\"Set\":{\"key\":\"k\",\"value\":\"v\"}}}",
        b"{\"Set\":{\"key\":\"k\",\"value\":\"v\"}}\n",
        b" {\"Set\":{\"key\":\"k\",\"value\":\"v\"}}",
        b"{\"Set\": {\"key\":\"k\",\"value\":\"v\"}}",
        b"{\"Set\":{\"value\":\"v\",\"key\":\"k\"}}",
        b"{\"set\":{\"key\":\"k\",\"value\":\"v\"}}",
        b"{\"Get\":{\"key\":\"k\",\"value\":\"v\"}}",
        b"{\"Get\":{\"key\":\"k}}",
        b"{\"Get\":{\"key\":\"a\"b\"}}",
        b"{\"Get\":{\"key\":\"a\nb\"}}",
        b"{\"Get\":{\"key\":\"a\\\"}}",
        b"{\"Get\":{\"key\":\"\\u0041\"}}",
        b"{\"Get\":{\"key\":\"\\u000A\"}}",
        b"{\"Get\":{\"key\":\"\\u000a\"}}",
        b"{\"Get\":{\"key\":\"\\u00\"}}",
        b"{\"Get\":{\"key\":\"\\/\"}}",
        b"{\"Get\":{\"key\":\"\\x\"}}",
        b"{\"Remove\":{\"key\":\"\x01\"}}",
    ];
    for line in bad.iter() {
        assert_eq!(Command::decode(line), None, "{:?}", String::from_utf8_lossy(line));
    }
}

#[test]
fn decode_rejects_bytes_that_are_not_utf8() {
    assert_eq!(Command::decode(b"{\"Get\":{\"key\":\"\xff\"}}"), None);
    assert_eq!(Command::decode(b"{\"Get\":{\"key\":\"\xc3\"}}"), None);
    assert_eq!(Command::decode(b"{\"Get\":{\"key\":\"\xed\xa0\x80\"}}"), None);
    assert_eq!(Command::decode(b"{\"Set\":{\"key\":\"k\",\"value\":\"\xc0\xaf\"}}"), None);
    assert_eq!(
        Command::decode(b"{\"Get\":{\"key\":\"\xf0\x9f\x98\x80\"}}"),
        Some(get("\u{1f600}"))
    );
}

#[test]
fn different_commands_are_written_differently() {
    let all = samples();
    let mut seen = std::collections::HashMap::new();
    for (i, command) in all.iter().enumerate() {
        if let Some(j) = seen.insert(command.encode(), i) {
            assert_eq!(all[j], *command);
        }
    }
}

#[test]
fn responses_are_written_as_serde_json_writes_them() {
    assert_eq!(
        text(ServerResponse::GetResponse(Some("v".to_string())).encode()),
        "{\"GetResponse\":\"v\"}"
    );
    assert_eq!(text(ServerResponse::GetResponse(None).encode()), "{\"GetResponse\":null}");
    assert_eq!(text(ServerResponse::RemoveSuccess.encode()), "\"RemoveSuccess\"");
    assert_eq!(text(ServerResponse::RemoveFailure.encode()), "\"RemoveFailure\"");
    assert_eq!(text(ServerResponse::SetSuccess.encode()), "\"SetSuccess\"");
    assert_eq!(text(ServerResponse::SetFailure.encode()), "\"SetFailure\"");
    let mut with_value = serde_json::Map::new();
    with_value.insert("GetResponse".to_string(), serde_json::Value::String("a\"\n\u{1}".to_string()));
    assert_eq!(
        text(ServerResponse::GetResponse(Some("a\"\n\u{1}".to_string())).encode()),
        serde_json::to_string(&serde_json::Value::Object(with_value)).unwrap()
    );
}

#[test]
fn decode_of_encode_is_the_response() {
    let all = vec![
        ServerResponse::GetResponse(Some("v".to_string())),
        ServerResponse::GetResponse(Some("".to_string())),
        ServerResponse::GetResponse(Some("null".to_string())),
        ServerResponse::GetResponse(Some("\"}\n\\".to_string())),
        ServerResponse::GetResponse(None),
        ServerResponse::RemoveSuccess,
        ServerResponse::RemoveFailure,
        ServerResponse::SetSuccess,
        ServerResponse::SetFailure,
    ];
    for response in all {
        let written = response.encode();
        assert!(!written.contains(&b'\n'));
        assert_eq!(ServerResponse::decode(&written), Some(response));
    }
}

#[test]
fn decode_rejects_what_is_no_response() {
    let bad: [&[u8]; 10] = [
        b"",
        b"SetSuccess",
        b"\"SetSuccess",
        b"\"SetSuccess\" ",
        b"\"Success\"",
        b"{\"GetResponse\":\"v\"",
        b"{\"GetResponse\":\"v\"}}",
        b"{\"GetResponse\":nul}",
        b"{\"GetResponse\":null} ",
        b"{\"GetResponse\":\"\xff\"}",
    ];
    for line in bad.iter() {
        assert_eq!(ServerResponse::decode(line), None, "{:?}", String::from_utf8_lossy(line));
    }
}
