use kvs::engine::KvError;
use kvs::proto::{decode_req, decode_resp, encode_req, encode_resp, ReqProto, RespProto};
use kvs::server::{client_action, response_for_get, response_for_remove, ClientAction};
use kvs::store::Store;

fn chars(s: &str) -> Vec<char> {
    s.chars().collect()
}

#[test]
fn request_frames_are_as_documented() {
    assert_eq!(encode_req(&ReqProto::Get("x".to_string())), chars("G1,x\n"));
    assert_eq!(encode_req(&ReqProto::Remove("xy".to_string())), chars("R2,xy\n"));
    assert_eq!(
        encode_req(&ReqProto::Put("k".to_string(), "val".to_string())),
        chars("S1,k3,val\n")
    );
}

#[test]
fn response_frames_are_as_documented() {
    assert_eq!(encode_resp(&RespProto::OK(Some("v".to_string()))), chars("V1,v"));
    assert_eq!(encode_resp(&RespProto::OK(None)), chars("N"));
    assert_eq!(encode_resp(&RespProto::Error("bad".to_string())), chars("E3,bad"));
}

#[test]
fn request_round_trips() {
    for req in [
        ReqProto::Get("some key".to_string()),
        ReqProto::Remove("".to_string()),
        ReqProto::Put("k,ey\n".to_string(), "va\\lue".to_string()),
    ] {
        assert_eq!(decode_req(&encode_req(&req)), Some(req));
    }
}

#[test]
fn response_round_trips() {
    for resp in [
        RespProto::OK(Some("a value".to_string())),
        RespProto::OK(None),
        RespProto::Error("Key not found".to_string()),
    ] {
        assert_eq!(decode_resp(&encode_resp(&resp)), Some(resp));
    }
}

#[test]
fn an_unterminated_request_line_is_no_request() {
    assert_eq!(decode_req(&chars("")), None);
    assert_eq!(decode_req(&chars("G1,x")), None);
    let mut frame = encode_req(&ReqProto::Get("x".to_string()));
    frame.pop();
    assert_eq!(decode_req(&frame), None);
}

#[test]
fn a_request_with_trailing_bytes_is_no_request() {
    let mut frame = encode_req(&ReqProto::Get("x".to_string()));
    frame.extend(chars("more"));
    assert_eq!(decode_req(&frame), None);
}

#[test]
fn a_response_with_trailing_bytes_is_no_response() {
    let mut frame = encode_resp(&RespProto::OK(None));
    frame.push('!');
    assert_eq!(decode_resp(&frame), None);
}

#[test]
fn get_outcomes_map_to_responses() {
    assert_eq!(
        response_for_get(Ok(Some("v".to_string()))),
        Some(RespProto::OK(Some("v".to_string())))
    );
    assert_eq!(response_for_get(Ok(None)), Some(RespProto::OK(None)));
    assert_eq!(response_for_get(Err(KvError::Codec)), None);
}

#[test]
fn remove_outcomes_map_to_responses() {
    assert_eq!(response_for_remove(Ok(())), None);
    assert_eq!(
        response_for_remove(Err(KvError::KeyNotFound)),
        Some(RespProto::Error("Key not found".to_string()))
    );
    assert_eq!(response_for_remove(Err(KvError::Io)), None);
}

#[test]
fn client_actions_follow_the_response() {
    assert_eq!(client_action(None), ClientAction::Accepted);
    assert_eq!(
        client_action(Some(RespProto::OK(Some("y".to_string())))),
        ClientAction::PrintValue("y".to_string())
    );
    assert_eq!(client_action(Some(RespProto::OK(None))), ClientAction::PrintMissing);
    assert_eq!(
        client_action(Some(RespProto::Error("Key not found".to_string()))),
        ClientAction::Fail("Key not found".to_string())
    );
}

#[test]
fn key_not_found_renders_its_well_known_message() {
    assert_eq!(KvError::KeyNotFound.message(), "Key not found".to_string());
}

/// One request per connection against a fresh engine, at the frame level:
/// what the server would read, do, and answer over four connections.
#[test]
fn four_connections_set_get_remove_get() {
    let mut engine = Store::open(Vec::new()).unwrap();

    // Connection 1: Put("x", "y"); the server answers nothing.
    let line = encode_req(&ReqProto::Put("x".to_string(), "y".to_string()));
    let req = decode_req(&line).unwrap();
    let resp = match req {
        ReqProto::Put(k, v) => {
            engine.set(k, v).unwrap();
            None
        },
        _ => panic!("wrong request decoded"),
    };
    assert_eq!(client_action(resp), ClientAction::Accepted);

    // Connection 2: Get("x"); the client prints `y`.
    let line = encode_req(&ReqProto::Get("x".to_string()));
    let req = decode_req(&line).unwrap();
    let resp = match req {
        ReqProto::Get(k) => response_for_get(engine.get(k)),
        _ => panic!("wrong request decoded"),
    };
    let wire = encode_resp(&resp.unwrap());
    let action = client_action(decode_resp(&wire));
    assert_eq!(action, ClientAction::PrintValue("y".to_string()));

    // Connection 3: Remove("x"); success answers nothing.
    let line = encode_req(&ReqProto::Remove("x".to_string()));
    let req = decode_req(&line).unwrap();
    let resp = match req {
        ReqProto::Remove(k) => response_for_remove(engine.remove(k)),
        _ => panic!("wrong request decoded"),
    };
    assert_eq!(client_action(resp), ClientAction::Accepted);

    // Connection 4: Get("x"); the client prints `Key not found`.
    let line = encode_req(&ReqProto::Get("x".to_string()));
    let req = decode_req(&line).unwrap();
    let resp = match req {
        ReqProto::Get(k) => response_for_get(engine.get(k)),
        _ => panic!("wrong request decoded"),
    };
    let wire = encode_resp(&resp.unwrap());
    let action = client_action(decode_resp(&wire));
    assert_eq!(action, ClientAction::PrintMissing);

    // A removal of the now-absent key surfaces the well-known message.
    let resp = response_for_remove(engine.remove("x".to_string()));
    assert_eq!(
        client_action(resp),
        ClientAction::Fail("Key not found".to_string())
    );
}
