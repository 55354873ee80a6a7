use browser_ext::command::{parse_args, Plan};
use browser_ext::json::value::Json;
use browser_ext::frame::{read_body, write_frame};
use browser_ext::protocol::{read_reply, read_request};
use browser_ext::relay::{Accepted, Relay, REPLY_TIMEOUT_SECONDS};

fn forwarded(accepted: Accepted) -> (u64, String) {
    match accepted {
        Accepted::Forwarded(id, message) => (id, message.into_text()),
        Accepted::Rejected(line) => panic!("rejected: {}", line),
        Accepted::Ignored => panic!("ignored"),
    }
}

fn reply(text: &str) -> Json {
    Json::parse(text).unwrap()
}

#[test]
fn relay_forwards_requests() {
    let mut relay: Relay<&str> = Relay::new();
    let line = "{\"method\": \"tabs.content\", \"params\": {\"id\": 4}}\n";
    assert_eq!(
        forwarded(relay.accept(line, "a")),
        (1, "{\"id\":1,\"method\":\"tabs.content\",\"params\":{\"id\":4}}".to_string())
    );
    assert_eq!(
        forwarded(relay.accept("{}", "b")),
        (2, "{\"id\":2,\"method\":\"\",\"params\":{}}".to_string())
    );
}

#[test]
fn relay_ignores_blank_lines() {
    let mut relay: Relay<u8> = Relay::new();
    assert!(matches!(relay.accept("", 1), Accepted::Ignored));
    assert!(matches!(relay.accept(" \t\r\n", 1), Accepted::Ignored));
    assert_eq!(relay.route(&reply("{\"id\": 1}")), None);
    assert_eq!(forwarded(relay.accept("{}", 1)).0, 1);
}

#[test]
fn relay_rejects_what_is_no_json() {
    let mut relay: Relay<u8> = Relay::new();
    match relay.accept("{]\n", 1) {
        Accepted::Rejected(line) => {
            assert_eq!(line, "{\"error\":\"bad request: key must be a string at line 1 column 2\"}\n");
            assert_eq!(
                read_reply(&line),
                Err("bad request: key must be a string at line 1 column 2".to_string())
            );
        }
        _ => panic!("accepted"),
    }
    assert_eq!(forwarded(relay.accept("{}", 1)).0, 1);
}

#[test]
fn relay_takes_what_was_parsed() {
    let mut relay: Relay<u8> = Relay::new();
    let request = Ok(reply("{\"method\": \"m\", \"params\": [1]}"));
    assert_eq!(
        forwarded(relay.accept_parsed(request, 1)),
        (1, "{\"id\":1,\"method\":\"m\",\"params\":[1]}".to_string())
    );
    match relay.accept_parsed(Err("why".to_string()), 2) {
        Accepted::Rejected(line) => assert_eq!(line, "{\"error\":\"bad request: why\"}\n"),
        _ => panic!("accepted"),
    }
}

#[test]
fn relay_routes_replies_in_any_order() {
    let mut relay: Relay<&str> = Relay::new();
    let (a, _) = forwarded(relay.accept("{}", "a"));
    let (b, _) = forwarded(relay.accept("{}", "b"));
    let (c, _) = forwarded(relay.accept("{}", "c"));
    assert_eq!((a, b, c), (1, 2, 3));
    assert_eq!(relay.route(&reply("{\"id\": 3, \"result\": 0}")), Some("c"));
    assert_eq!(relay.route(&reply("{\"id\": 1, \"error\": \"x\"}")), Some("a"));
    assert_eq!(relay.route(&reply("{\"id\": 2}")), Some("b"));
}

#[test]
fn relay_hands_a_reply_over_once() {
    let mut relay: Relay<u8> = Relay::new();
    forwarded(relay.accept("{}", 1));
    assert_eq!(relay.route(&reply("{\"id\": 1}")), Some(1));
    assert_eq!(relay.route(&reply("{\"id\": 1}")), None);
}

#[test]
fn relay_drops_messages_for_nobody() {
    let mut relay: Relay<u8> = Relay::new();
    forwarded(relay.accept("{}", 1));
    for text in ["{}", "[]", "{\"id\": 2}", "{\"id\": \"1\"}", "{\"id\": -1}", "{\"id\": 1.0}", "{\"id\": null}"] {
        assert_eq!(relay.route(&reply(text)), None, "{}", text);
    }
    assert_eq!(relay.route(&reply("{\"id\": 1}")), Some(1));
}

#[test]
fn relay_forgets_clients_that_timed_out() {
    let mut relay: Relay<u8> = Relay::new();
    let (id, _) = forwarded(relay.accept("{}", 1));
    forwarded(relay.accept("{}", 2));
    let line = relay.timed_out(id);
    assert_eq!(line, "{\"error\":\"timed out waiting for extension\"}\n");
    assert_eq!(read_reply(&line), Err("timed out waiting for extension".to_string()));
    assert_eq!(relay.route(&reply("{\"id\": 1}")), None);
    assert_eq!(relay.route(&reply("{\"id\": 2}")), Some(2));
    assert_eq!(REPLY_TIMEOUT_SECONDS, 30);
}

#[test]
fn relay_forgets_clients_without_extension() {
    let mut relay: Relay<u8> = Relay::new();
    let (id, _) = forwarded(relay.accept("{}", 1));
    let line = relay.not_connected(id);
    assert_eq!(line, "{\"error\":\"extension not connected\"}\n");
    assert_eq!(read_reply(&line), Err("extension not connected".to_string()));
    assert_eq!(relay.route(&reply("{\"id\": 1}")), None);
}

#[test]
fn relay_understands_every_command() {
    let lines = [
        ("tabs list", "{\"id\":1,\"method\":\"tabs.list\",\"params\":{}}"),
        ("tabs open http://x", "{\"id\":1,\"method\":\"tabs.open\",\"params\":{\"url\":\"http://x\"}}"),
        ("tabs close 1 2", "{\"id\":1,\"method\":\"tabs.close\",\"params\":{\"ids\":[1,2]}}"),
    ];
    for (words, expected) in lines {
        let args: Vec<String> = words.split(' ').map(|w| w.to_string()).collect();
        let line = match parse_args(&args) {
            Plan::Run { command, .. } => command.request(),
            _ => panic!("no command"),
        };
        let mut relay: Relay<u8> = Relay::new();
        assert_eq!(forwarded(relay.accept(&line, 1)).1, expected);
    }
}

#[test]
fn relay_takes_a_line_that_was_read_before() {
    assert_eq!(read_request(" \r\n"), None);
    assert_eq!(
        read_request("[\n"),
        Some(Err("EOF while parsing a list at line 1 column 1".to_string()))
    );
    let mut relay: Relay<u8> = Relay::new();
    let request = read_request("{\"method\": \"m\"}\n").unwrap();
    assert_eq!(
        forwarded(relay.accept_parsed(request, 1)),
        (1, "{\"id\":1,\"method\":\"m\",\"params\":{}}".to_string())
    );
}

#[test]
fn relay_messages_are_read_from_their_frames() {
    let params = "[".repeat(126) + &"]".repeat(126);
    let line = format!("{{\"method\": \"m\", \"params\": {}}}\n", params);
    let mut relay: Relay<u8> = Relay::new();
    let message = match relay.accept(&line, 1) {
        Accepted::Forwarded(_, message) => message,
        _ => panic!("not forwarded"),
    };
    let frame = write_frame(message).unwrap();
    let read = read_body(&frame[4..]).unwrap();
    assert_eq!(read.get("id"), Some(&Json::Unsigned(1)));
    assert_eq!(read.get("method").unwrap().as_str(), Some("m"));
    assert_eq!(read.take("params").into_text(), params);
}
