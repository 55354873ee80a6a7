use browser_ext::args::{parse_flags, Start};
use browser_ext::command::{parse_args, parse_command, Command, Plan};

fn words(text: &str) -> Vec<String> {
    text.split_whitespace().map(|w| w.to_string()).collect()
}

fn command(text: &str) -> Result<Command, String> {
    parse_command(&words(text))
}

fn refused(text: &str) -> String {
    match command(text) {
        Err(message) => message,
        Ok(command) => panic!("accepted: {:?}", command),
    }
}

#[test]
fn flags_default_to_json_from_chrome() {
    match parse_flags(&words("tabs list")) {
        Start::Run { plain, browser, words: rest } => {
            assert!(!plain);
            assert_eq!(browser, "chrome");
            assert_eq!(rest, words("tabs list"));
        }
        _ => panic!("no command"),
    }
}

#[test]
fn flags_choose_output_and_browser() {
    match parse_flags(&words("--browser firefox --plain --browser edge tabs --plain -h")) {
        Start::Run { plain, browser, words: rest } => {
            assert!(plain);
            assert_eq!(browser, "edge");
            assert_eq!(rest, words("tabs --plain -h"));
        }
        _ => panic!("no command"),
    }
}

#[test]
fn flags_come_in_either_order() {
    for text in ["--plain --browser firefox tabs list", "--browser firefox --plain tabs list"] {
        match parse_flags(&words(text)) {
            Start::Run { plain, browser, words: rest } => {
                assert!(plain);
                assert_eq!(browser, "firefox");
                assert_eq!(rest, words("tabs list"));
            }
            _ => panic!("no command"),
        }
    }
}

#[test]
fn flags_ask_for_help() {
    assert!(matches!(parse_flags(&words("-h")), Start::Help));
    assert!(matches!(parse_flags(&words("--plain --help tabs list")), Start::Help));
    assert!(matches!(parse_flags(&words("--help --browser")), Start::Help));
    assert!(matches!(parse_flags(&words("--browser firefox -h")), Start::Help));
    assert!(matches!(parse_flags(&words("--browser firefox -h tabs")), Start::Help));
}

#[test]
fn flags_without_command_show_usage() {
    assert!(matches!(parse_flags(&[]), Start::Usage));
    assert!(matches!(parse_flags(&words("--plain")), Start::Usage));
    assert!(matches!(parse_flags(&words("--browser firefox")), Start::Usage));
}

#[test]
fn flags_need_a_browser() {
    match parse_flags(&words("--plain --browser")) {
        Start::Invalid(message) => assert_eq!(message, "--browser needs a value"),
        _ => panic!("accepted"),
    }
}

#[test]
fn commands_are_read() {
    assert_eq!(command("tabs list"), Ok(Command::TabsList));
    assert_eq!(command("tabs content 7"), Ok(Command::TabsContent { id: 7 }));
    assert_eq!(command("tabs open"), Ok(Command::TabsOpen { url: None }));
    assert_eq!(command("tabs open u"), Ok(Command::TabsOpen { url: Some("u".to_string()) }));
    assert_eq!(command("tabs navigate 7 u"), Ok(Command::TabsNavigate { id: 7, url: "u".to_string() }));
    assert_eq!(command("tabs activate -7"), Ok(Command::TabsActivate { id: -7 }));
    assert_eq!(command("tabs eval 7 1+1"), Ok(Command::TabsEval { id: 7, code: "1+1".to_string() }));
    assert_eq!(
        command("tabs move 7 --index 0"),
        Ok(Command::TabsMove { id: 7, index: 0, window: None })
    );
    assert_eq!(command("tabs screenshot 7"), Ok(Command::TabsScreenshot { id: 7, out: None }));
    assert_eq!(
        command("tabs screenshot 7 --out a.png --out b.png"),
        Ok(Command::TabsScreenshot { id: 7, out: Some("b.png".to_string()) })
    );
    assert_eq!(command("tabs close 1 +2 -3"), Ok(Command::TabsClose { ids: vec![1, 2, -3] }));
    assert_eq!(command("windows list"), Ok(Command::WindowsList));
}

#[test]
fn commands_ignore_what_they_have_no_use_for() {
    assert_eq!(command("tabs list x y"), Ok(Command::TabsList));
    assert_eq!(command("tabs content 7 8"), Ok(Command::TabsContent { id: 7 }));
    assert_eq!(command("windows list --plain"), Ok(Command::WindowsList));
}

#[test]
fn move_options_come_in_either_order() {
    let expected = Ok(Command::TabsMove { id: 7, index: 3, window: Some(9) });
    assert_eq!(command("tabs move 7 --index 3 --window 9"), expected);
    assert_eq!(command("tabs move 7 --window 9 --index 3"), expected);
    assert_eq!(command("tabs move 7 --index 1 --window 9 --index 3"), expected);
}

#[test]
fn commands_without_tab_are_refused() {
    assert_eq!(refused("tabs content"), "tabs content needs a tab id");
    assert_eq!(refused("tabs navigate"), "tabs navigate needs a tab id and a url");
    assert_eq!(refused("tabs activate"), "tabs activate needs a tab id");
    assert_eq!(refused("tabs eval"), "tabs eval needs a tab id and JS to run");
    assert_eq!(refused("tabs move"), "tabs move needs a tab id and --index");
    assert_eq!(refused("tabs screenshot"), "tabs screenshot needs a tab id");
    assert_eq!(refused("tabs close"), "tabs close needs at least one tab id");
}

#[test]
fn commands_with_bad_tab_are_refused() {
    for verb in ["content", "navigate", "activate", "eval", "move", "screenshot", "close"] {
        assert_eq!(refused(&format!("tabs {} x1", verb)), "invalid tab id: x1");
    }
    assert_eq!(refused("tabs close 1 a b"), "invalid tab id: a");
    assert_eq!(refused("tabs content 9223372036854775808"), "invalid tab id: 9223372036854775808");
}

#[test]
fn commands_without_the_rest_are_refused() {
    assert_eq!(refused("tabs navigate 7"), "tabs navigate needs a url");
    assert_eq!(refused("tabs eval 7"), "tabs eval needs JS to run");
    assert_eq!(refused("tabs move 7"), "tabs move needs --index");
    assert_eq!(refused("tabs move 7 --window 1"), "tabs move needs --index");
}

#[test]
fn bad_options_are_refused() {
    assert_eq!(refused("tabs move 7 --index"), "--index needs a value");
    assert_eq!(refused("tabs move 7 --index 1 --window"), "--window needs a value");
    assert_eq!(refused("tabs move 7 --index a"), "invalid index: a");
    assert_eq!(refused("tabs move 7 --window a"), "invalid window id: a");
    assert_eq!(refused("tabs move 7 --to 1"), "unknown option for tabs move: --to");
    assert_eq!(refused("tabs screenshot 7 --out"), "--out needs a value");
    assert_eq!(refused("tabs screenshot 7 a.png"), "unknown option for tabs screenshot: a.png");
}

#[test]
fn commands_need_group_and_verb() {
    assert_eq!(refused("tabs"), "'tabs' needs a verb; see --help");
    assert_eq!(refused("windows"), "'windows' needs a verb; see --help");
    assert_eq!(refused("tabs fly"), "unknown command: tabs fly; see --help");
    assert_eq!(refused("windows open"), "unknown command: windows open; see --help");
    assert_eq!(refused("frames list"), "unknown command: frames list; see --help");
    assert_eq!(refused("frames"), "unknown command: frames ; see --help");
    assert_eq!(
        parse_command(&["tabs".to_string(), "".to_string()]),
        Err("'tabs' needs a verb; see --help".to_string())
    );
}

#[test]
fn commands_ask_for_methods() {
    let expected = [
        ("tabs list", "tabs.list", "{}"),
        ("tabs content 7", "tabs.content", "{\"id\":7}"),
        ("tabs open", "tabs.open", "{\"url\":null}"),
        ("tabs open u", "tabs.open", "{\"url\":\"u\"}"),
        ("tabs navigate 7 u", "tabs.navigate", "{\"id\":7,\"url\":\"u\"}"),
        ("tabs activate 7", "tabs.activate", "{\"id\":7}"),
        ("tabs eval 7 x", "tabs.eval", "{\"code\":\"x\",\"id\":7}"),
        ("tabs move 7 --index -1", "tabs.move", "{\"id\":7,\"index\":-1,\"windowId\":null}"),
        ("tabs move 7 --index 2 --window 3", "tabs.move", "{\"id\":7,\"index\":2,\"windowId\":3}"),
        ("tabs screenshot 7 --out f", "tabs.screenshot", "{\"id\":7}"),
        ("tabs close 1 2", "tabs.close", "{\"ids\":[1,2]}"),
        ("windows list", "windows.list", "{}"),
    ];
    for (text, method, params) in expected {
        let command = command(text).unwrap();
        assert_eq!(command.method(), method);
        assert_eq!(command.params().into_text(), params);
        assert_eq!(
            command.request(),
            format!("{{\"method\":\"{}\",\"params\":{}}}\n", method, params)
        );
    }
}

#[test]
fn arguments_make_a_plan() {
    assert!(matches!(parse_args(&[]), Plan::Usage));
    assert!(matches!(parse_args(&words("--help")), Plan::Help));
    match parse_args(&words("tabs")) {
        Plan::Invalid(message) => assert_eq!(message, "'tabs' needs a verb; see --help"),
        _ => panic!("accepted"),
    }
    match parse_args(&words("--browser")) {
        Plan::Invalid(message) => assert_eq!(message, "--browser needs a value"),
        _ => panic!("accepted"),
    }
    match parse_args(&words("--plain --browser firefox tabs activate 3")) {
        Plan::Run { plain, browser, command } => {
            assert!(plain);
            assert_eq!(browser, "firefox");
            assert_eq!(command, Command::TabsActivate { id: 3 });
        }
        _ => panic!("no command"),
    }
}
