use browser_ext::command::{parse_command, Command};
use browser_ext::json::value::Json;
use browser_ext::output::{render, respond, write_json, Output};

fn command(text: &str) -> Command {
    let words: Vec<String> = text.split_whitespace().map(|w| w.to_string()).collect();
    parse_command(&words).unwrap()
}

fn shown(text: &str, plain: bool, result: &str) -> String {
    match render(command(text), plain, Json::parse(result).unwrap()) {
        Ok(Output::Text(text)) => text,
        other => panic!("{:?}", other),
    }
}

#[test]
fn plain_tabs_are_lines() {
    let result = "[{\"id\": 1, \"title\": \"A\", \"url\": \"http://a\"}, {\"id\": 2, \"title\": null}, 3]";
    assert_eq!(shown("tabs list", true, result), "1\tA\thttp://a\n2\t\t\nnull\t\t\n");
    assert_eq!(shown("tabs list", true, "[]"), "");
    assert_eq!(shown("tabs list", true, "{\"id\": 1}"), "");
}

#[test]
fn plain_windows_are_lines() {
    let result = "[{\"id\": 1, \"focused\": true, \"tabCount\": 4}, {\"focused\": false}]";
    assert_eq!(
        shown("windows list", true, result),
        "1\tfocused=true\ttabs=4\nnull\tfocused=false\ttabs=null\n"
    );
}

#[test]
fn plain_content_is_text() {
    assert_eq!(shown("tabs content 1", true, "{\"text\": \"a\\nb\"}"), "a\nb\n");
    assert_eq!(shown("tabs content 1", true, "{\"text\": 5}"), "\n");
    assert_eq!(shown("tabs content 1", true, "null"), "\n");
}

#[test]
fn plain_tab_commands_show_the_tab() {
    for text in ["tabs open", "tabs navigate 5 u", "tabs activate 5"] {
        assert_eq!(shown(text, true, "{\"id\": 5, \"x\": 1}"), "5\n");
        assert_eq!(shown(text, true, "{}"), "null\n");
        assert_eq!(shown(text, true, "{\"id\": \"five\"}"), "\"five\"\n");
    }
}

#[test]
fn plain_eval_shows_the_value() {
    assert_eq!(shown("tabs eval 1 x", true, "{\"result\": \"a\\\"b\"}"), "a\"b\n");
    assert_eq!(shown("tabs eval 1 x", true, "{\"result\": [1, {\"a\": 2.5}]}"), "[1,{\"a\":2.5}]\n");
    assert_eq!(shown("tabs eval 1 x", true, "{}"), "null\n");
}

#[test]
fn plain_move_shows_window_and_position() {
    assert_eq!(
        shown("tabs move 1 --index 2", true, "{\"index\": 2, \"windowId\": 9}"),
        "9\t2\n"
    );
}

#[test]
fn plain_close_shows_the_closed_tabs() {
    assert_eq!(shown("tabs close 1 2", true, "{\"closed\": [1, 2]}"), "1\n2\n");
    assert_eq!(shown("tabs close 1", true, "{}"), "");
}

#[test]
fn json_output_is_the_result() {
    for text in ["tabs list", "tabs content 1", "tabs open", "tabs eval 1 x", "tabs close 1", "windows list"] {
        let result = "{\"b\": [1], \"a\": \"x\"}";
        let output = shown(text, false, result);
        assert_eq!(output, "{\n  \"a\": \"x\",\n  \"b\": [\n    1\n  ]\n}\n");
        assert_eq!(Json::parse(&output), Json::parse(result));
    }
    assert_eq!(shown("tabs list", false, "null"), "null\n");
}

fn screenshot(text: &str, plain: bool, result: &str) -> Result<Output, String> {
    render(command(text), plain, Json::parse(result).unwrap())
}

#[test]
fn screenshot_goes_to_standard_output() {
    let result = "{\"dataUrl\": \"data:image/png;base64,aGVsbG8=\"}";
    for plain in [true, false] {
        assert_eq!(screenshot("tabs screenshot 4", plain, result), Ok(Output::Bytes(b"hello".to_vec())));
    }
}

#[test]
fn screenshot_goes_to_a_file() {
    let result = "{\"dataUrl\": \"data:image/png;base64,aGVsbG8=\"}";
    assert_eq!(
        screenshot("tabs screenshot 4 --out a.png", false, result),
        Ok(Output::File {
            path: "a.png".to_string(),
            bytes: b"hello".to_vec(),
            report: Some("{\n  \"bytes\": 5,\n  \"id\": 4,\n  \"path\": \"a.png\"\n}\n".to_string()),
        })
    );
    assert_eq!(
        screenshot("tabs screenshot 4 --out a.png", true, result),
        Ok(Output::File { path: "a.png".to_string(), bytes: b"hello".to_vec(), report: None })
    );
}

#[test]
fn screenshot_needs_data() {
    let missing = Err("host returned no screenshot data".to_string());
    assert_eq!(screenshot("tabs screenshot 4", false, "{}"), missing);
    assert_eq!(screenshot("tabs screenshot 4", false, "{\"dataUrl\": 1}"), missing);
    assert_eq!(
        screenshot("tabs screenshot 4", false, "{\"dataUrl\": \"http://x\"}"),
        Err("host returned a non-base64 data URL".to_string())
    );
    assert_eq!(
        screenshot("tabs screenshot 4", false, "{\"dataUrl\": \"x;base64,!\"}"),
        Err("invalid base64 byte: 33".to_string())
    );
}

#[test]
fn responses_come_from_lines() {
    assert_eq!(
        respond(command("tabs activate 3"), true, "{\"id\":8,\"result\":{\"id\":3}}\n"),
        Ok(Output::Text("3\n".to_string()))
    );
    assert_eq!(
        respond(command("tabs activate 3"), true, "{\"id\":8,\"error\":\"no tab\"}\n"),
        Err("no tab".to_string())
    );
    assert!(respond(command("tabs list"), true, "").is_err());
}

#[test]
fn shown_ids_are_accepted() {
    let id = shown("tabs open", true, "{\"id\": -12}");
    assert_eq!(command(&format!("tabs activate {}", id)), Command::TabsActivate { id: -12 });
}

#[test]
fn json_output_is_read_back_with_its_line_end() {
    let result = "{\"a\": [1, {\"b\": \"x\\ny\"}], \"c\": null}";
    let build = || Json::parse(result).unwrap();
    let text = write_json(build());
    assert!(text.ends_with("}\n"));
    assert_eq!(Json::parse(&text), Ok(build()));
    assert_eq!(Json::parse(&text[..text.len() - 1]), Ok(build()));
    let line = format!("{{\"result\": {}}}\n", result);
    assert_eq!(respond(command("tabs list"), false, &line), Ok(Output::Text(text)));
}

#[test]
fn screenshot_report_is_read_back() {
    let line = "{\"result\": {\"dataUrl\": \"data:;base64,aGk=\"}}\n";
    let result = Json::parse("{\"dataUrl\": \"data:;base64,aGk=\"}").unwrap();
    let output = respond(command("tabs screenshot 4 --out a\"b"), false, line);
    assert_eq!(output, render(command("tabs screenshot 4 --out a\"b"), false, result));
    match output {
        Ok(Output::File { bytes, report: Some(report), .. }) => {
            assert_eq!(bytes, b"hi".to_vec());
            let read = Json::parse(&report).unwrap();
            assert_eq!(read.get("id"), Some(&Json::Unsigned(4)));
            assert_eq!(read.get("path").unwrap().as_str(), Some("a\"b"));
            assert_eq!(read.get("bytes"), Some(&Json::Unsigned(2)));
        }
        other => panic!("{:?}", other),
    }
}
