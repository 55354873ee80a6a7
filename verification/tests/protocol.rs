use browser_ext::json::value::Json;
use browser_ext::protocol::{
    answer_line, error_line, message, read_reply, reply_outcome, request_line, request_parts,
};

fn parsed(text: &str) -> Json {
    Json::parse(text).unwrap()
}

#[test]
fn request_is_one_line() {
    assert_eq!(
        request_line("tabs.list", Json::Object(vec![])),
        "{\"method\":\"tabs.list\",\"params\":{}}\n"
    );
    let params = Json::Object(vec![("code".to_string(), Json::String("a\nb".to_string()))]);
    assert_eq!(
        request_line("tabs.eval", params),
        "{\"method\":\"tabs.eval\",\"params\":{\"code\":\"a\\nb\"}}\n"
    );
}

#[test]
fn request_is_understood() {
    let line = request_line("tabs.content", parsed("{\"id\": 5}"));
    assert_eq!(
        request_parts(parsed(line.trim())),
        ("tabs.content".to_string(), parsed("{\"id\": 5}"))
    );
}

#[test]
fn request_parts_may_be_missing() {
    assert_eq!(request_parts(parsed("{}")), ("".to_string(), Json::Object(vec![])));
    assert_eq!(request_parts(parsed("[1]")), ("".to_string(), Json::Object(vec![])));
    assert_eq!(
        request_parts(parsed("{\"method\": 1, \"params\": null}")),
        ("".to_string(), Json::Null)
    );
}

#[test]
fn message_repeats_the_request() {
    assert_eq!(
        message(12, "tabs.list".to_string(), Json::Object(vec![])).into_text(),
        "{\"id\":12,\"method\":\"tabs.list\",\"params\":{}}"
    );
}

#[test]
fn reply_is_a_result_or_an_error() {
    assert_eq!(reply_outcome(parsed("{\"id\": 1, \"result\": [2]}")), Ok(parsed("[2]")));
    assert_eq!(reply_outcome(parsed("{\"id\": 1, \"error\": \"no\"}")), Err("no".to_string()));
    assert_eq!(
        reply_outcome(parsed("{\"error\": \"no\", \"result\": 1}")),
        Err("no".to_string())
    );
}

#[test]
fn reply_without_result_is_null() {
    assert_eq!(reply_outcome(parsed("{\"id\": 1}")), Ok(Json::Null));
    assert_eq!(reply_outcome(parsed("[1]")), Ok(Json::Null));
}

#[test]
fn reply_error_counts_only_as_text() {
    assert_eq!(reply_outcome(parsed("{\"error\": 5, \"result\": 1}")), Ok(Json::Unsigned(1)));
    assert_eq!(reply_outcome(parsed("{\"error\": null}")), Ok(Json::Null));
}

#[test]
fn reply_line_is_read() {
    assert_eq!(read_reply(" {\"result\": true}\r\n"), Ok(Json::Bool(true)));
    assert_eq!(
        read_reply("\n"),
        Err("bad reply from host: EOF while parsing a value at line 1 column 0".to_string())
    );
    assert_eq!(
        read_reply("no\n"),
        Err("bad reply from host: expected ident at line 1 column 2".to_string())
    );
}

#[test]
fn answer_is_understood() {
    let line = answer_line(parsed("{\"id\": 3, \"result\": {\"text\": \"a\\nb\"}}"));
    assert_eq!(line, "{\"id\":3,\"result\":{\"text\":\"a\\nb\"}}\n");
    assert_eq!(read_reply(&line), Ok(parsed("{\"text\": \"a\\nb\"}")));
}

#[test]
fn error_line_is_understood() {
    let line = error_line("went \"wrong\"\n");
    assert_eq!(line, "{\"error\":\"went \\\"wrong\\\"\\n\"}\n");
    assert_eq!(read_reply(&line), Err("went \"wrong\"\n".to_string()));
}
