use filewall::proto::{
    read_msg, read_msg_capped, write_msg, write_msg_capped, ControlRequest, Decision, DumpResponse,
    FrameError, ObjKind, PromptRequest, PromptResponse, Reader, WatchedObject, MAX_CONTROL_MSG_LEN,
    MAX_MSG_LEN,
};
use serde_json::Value;

fn sample_request() -> PromptRequest {
    PromptRequest {
        pid: 84321,
        exe: "/usr/bin/node".into(),
        cmdline: "node /home/user/evil.js".into(),
        cwd: "/home/user/projects/foo".into(),
        path: "/home/user/.ssh/id_ed25519".into(),
        always_object: "/home/user/.ssh".into(),
        always_tree: true,
        always_cwd_pinned: false,
        ui_timeout_ms: 25_000,
    }
}

fn body(v: &Value) -> Vec<u8> {
    serde_json::to_vec(v).unwrap()
}

fn text(v: &Value, key: &str) -> String {
    v.get(key).unwrap().as_str().unwrap().to_string()
}

fn request_value(r: &PromptRequest) -> Value {
    let mut m = serde_json::Map::new();
    m.insert("pid".into(), Value::from(r.pid));
    m.insert("exe".into(), Value::from(r.exe.clone()));
    m.insert("cmdline".into(), Value::from(r.cmdline.clone()));
    m.insert("cwd".into(), Value::from(r.cwd.clone()));
    m.insert("path".into(), Value::from(r.path.clone()));
    m.insert("always_object".into(), Value::from(r.always_object.clone()));
    m.insert("always_tree".into(), Value::from(r.always_tree));
    m.insert("always_cwd_pinned".into(), Value::from(r.always_cwd_pinned));
    m.insert("ui_timeout_ms".into(), Value::from(r.ui_timeout_ms));
    Value::Object(m)
}

fn request_from(bytes: &[u8]) -> PromptRequest {
    let v: Value = serde_json::from_slice(bytes).unwrap();
    PromptRequest {
        pid: v.get("pid").unwrap().as_u64().unwrap() as u32,
        exe: text(&v, "exe"),
        cmdline: text(&v, "cmdline"),
        cwd: text(&v, "cwd"),
        path: text(&v, "path"),
        always_object: text(&v, "always_object"),
        always_tree: v.get("always_tree").unwrap().as_bool().unwrap(),
        always_cwd_pinned: v.get("always_cwd_pinned").unwrap().as_bool().unwrap(),
        ui_timeout_ms: v.get("ui_timeout_ms").unwrap().as_u64().unwrap() as u32,
    }
}

fn response_value(r: &PromptResponse) -> Value {
    let name = match r.decision {
        Decision::AllowOnce => "allow-once",
        Decision::DenyOnce => "deny-once",
        Decision::AllowAlways => "allow-always",
        Decision::DenyAlways => "deny-always",
    };
    let mut m = serde_json::Map::new();
    m.insert("decision".into(), Value::from(name));
    Value::Object(m)
}

fn response_from(bytes: &[u8]) -> PromptResponse {
    let v: Value = serde_json::from_slice(bytes).unwrap();
    let decision = match text(&v, "decision").as_str() {
        "allow-once" => Decision::AllowOnce,
        "deny-once" => Decision::DenyOnce,
        "allow-always" => Decision::AllowAlways,
        "deny-always" => Decision::DenyAlways,
        other => panic!("unexpected decision {other}"),
    };
    PromptResponse { decision }
}

fn object_value(o: &WatchedObject) -> Value {
    let mut m = serde_json::Map::new();
    m.insert("path".into(), Value::from(o.path.clone()));
    let kind = match o.kind {
        ObjKind::File => "file",
        ObjKind::Dir => "dir",
    };
    m.insert("kind".into(), Value::from(kind));
    m.insert("recursive".into(), Value::from(o.recursive));
    m.insert("watch".into(), Value::from(o.watch.clone()));
    m.insert("fanotify".into(), Value::from(o.fanotify));
    m.insert("live_marked".into(), o.live_marked.map_or(Value::Null, Value::from));
    Value::Object(m)
}

fn dump_value(d: &DumpResponse) -> Value {
    let mut m = serde_json::Map::new();
    m.insert("pid".into(), Value::from(d.pid));
    m.insert("generated_unix".into(), Value::from(d.generated_unix));
    m.insert("objects".into(), Value::Array(d.objects.iter().map(object_value).collect()));
    Value::Object(m)
}

fn dump_from(bytes: &[u8]) -> DumpResponse {
    let v: Value = serde_json::from_slice(bytes).unwrap();
    let objects = v
        .get("objects")
        .unwrap()
        .as_array()
        .unwrap()
        .iter()
        .map(|o| WatchedObject {
            path: text(o, "path"),
            kind: if text(o, "kind") == "dir" { ObjKind::Dir } else { ObjKind::File },
            recursive: o.get("recursive").unwrap().as_bool().unwrap(),
            watch: text(o, "watch"),
            fanotify: o.get("fanotify").unwrap().as_bool().unwrap(),
            live_marked: o.get("live_marked").unwrap().as_bool(),
        })
        .collect();
    DumpResponse {
        pid: v.get("pid").unwrap().as_u64().unwrap() as u32,
        generated_unix: v.get("generated_unix").unwrap().as_u64().unwrap(),
        objects,
    }
}

#[test]
fn decision_allows_predicate() {
    assert!(Decision::AllowOnce.allows());
    assert!(Decision::AllowAlways.allows());
    assert!(!Decision::DenyOnce.allows());
    assert!(!Decision::DenyAlways.allows());
}

#[test]
fn framing_roundtrip_request() {
    let req = sample_request();
    let mut buf = Vec::new();
    write_msg(&mut buf, &body(&request_value(&req))).unwrap();
    let mut cur = Reader::new(buf);
    let back = request_from(&read_msg(&mut cur).unwrap());
    assert_eq!(req, back);
}

#[test]
fn framing_roundtrip_response() {
    let resp = PromptResponse { decision: Decision::DenyOnce };
    let mut buf = Vec::new();
    write_msg(&mut buf, &body(&response_value(&resp))).unwrap();
    let mut cur = Reader::new(buf);
    let back = response_from(&read_msg(&mut cur).unwrap());
    assert_eq!(resp, back);
}

#[test]
fn two_messages_back_to_back() {
    let a = sample_request();
    let b = PromptResponse { decision: Decision::AllowOnce };
    let mut buf = Vec::new();
    write_msg(&mut buf, &body(&request_value(&a))).unwrap();
    write_msg(&mut buf, &body(&response_value(&b))).unwrap();
    let mut cur = Reader::new(buf);
    let ra = request_from(&read_msg(&mut cur).unwrap());
    let rb = response_from(&read_msg(&mut cur).unwrap());
    assert_eq!(a, ra);
    assert_eq!(b, rb);
    assert_eq!(cur.left(), 0);
}

#[test]
fn truncated_stream_is_eof() {
    // Length prefix says 100 bytes, but body is short.
    let mut buf = Vec::new();
    buf.extend_from_slice(&100u32.to_be_bytes());
    buf.extend_from_slice(b"{}");
    let mut cur = Reader::new(buf);
    let err = read_msg(&mut cur).unwrap_err();
    assert_eq!(err, FrameError::UnexpectedEof);
}

#[test]
fn control_request_roundtrip() {
    let req = ControlRequest::Dump;
    let mut buf = Vec::new();
    write_msg(&mut buf, &body(&Value::from("dump"))).unwrap();
    let mut cur = Reader::new(buf);
    let back: Value = serde_json::from_slice(&read_msg(&mut cur).unwrap()).unwrap();
    let back = match back.as_str() {
        Some("dump") => ControlRequest::Dump,
        other => panic!("unexpected request {other:?}"),
    };
    assert_eq!(req, back);
}

#[test]
fn capped_framing_allows_payload_above_prompt_limit() {
    // A payload larger than MAX_MSG_LEN must go through the control-capped path.
    let big = DumpResponse {
        pid: 1,
        generated_unix: 0,
        objects: (0..2000)
            .map(|i| WatchedObject {
                path: format!("/very/long/path/number/{i}/with/some/padding"),
                kind: ObjKind::Dir,
                recursive: true,
                watch: "/very/long/path".into(),
                fanotify: true,
                live_marked: Some(true),
            })
            .collect(),
    };
    let mut buf = Vec::new();
    write_msg_capped(&mut buf, &body(&dump_value(&big)), MAX_CONTROL_MSG_LEN).unwrap();
    assert!(buf.len() as u32 > MAX_MSG_LEN, "test payload must exceed prompt cap");
    let mut cur = Reader::new(buf);
    let back = dump_from(&read_msg_capped(&mut cur, MAX_CONTROL_MSG_LEN).unwrap());
    assert_eq!(big, back);
}

#[test]
fn capped_framing_rejects_payload_over_its_own_cap() {
    let mut buf = Vec::new();
    buf.extend_from_slice(&(MAX_CONTROL_MSG_LEN + 1).to_be_bytes());
    let mut cur = Reader::new(buf);
    let err = read_msg_capped(&mut cur, MAX_CONTROL_MSG_LEN).unwrap_err();
    assert_eq!(err, FrameError::TooLarge);
}

#[test]
fn oversized_length_is_rejected() {
    let mut buf = Vec::new();
    buf.extend_from_slice(&(MAX_MSG_LEN + 1).to_be_bytes());
    let mut cur = Reader::new(buf);
    let err = read_msg(&mut cur).unwrap_err();
    assert_eq!(err, FrameError::TooLarge);
}

#[test]
fn frame_is_length_then_body() {
    let mut buf = vec![9u8];
    write_msg(&mut buf, &vec![1, 2, 3]).unwrap();
    assert_eq!(buf, vec![9, 0, 0, 0, 3, 1, 2, 3]);
    let long = vec![7u8; 0x0102];
    let mut out = Vec::new();
    write_msg(&mut out, &long).unwrap();
    assert_eq!(&out[..4], &[0, 0, 1, 2]);
}

#[test]
fn oversized_body_is_not_written() {
    let mut buf = vec![1u8];
    let err = write_msg(&mut buf, &vec![0; MAX_MSG_LEN as usize + 1]).unwrap_err();
    assert_eq!(err, FrameError::TooLarge);
    assert_eq!(buf, vec![1]);
    assert!(write_msg(&mut buf, &vec![0; MAX_MSG_LEN as usize]).is_ok());
}

#[test]
fn empty_stream_is_eof() {
    let mut cur = Reader::new(Vec::new());
    assert_eq!(read_msg(&mut cur), Err(FrameError::UnexpectedEof));
    let mut short = Reader::new(vec![0, 0]);
    assert_eq!(read_msg(&mut short), Err(FrameError::UnexpectedEof));
}

#[test]
fn empty_body_is_a_message() {
    let mut buf = Vec::new();
    write_msg(&mut buf, &Vec::new()).unwrap();
    let mut cur = Reader::new(buf);
    assert_eq!(read_msg(&mut cur), Ok(Vec::new()));
    assert_eq!(cur.left(), 0);
}
