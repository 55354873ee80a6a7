use browser_ext::socket::{
    host_socket_path, launched_by, runtime_dir, socket_path, unreachable_message,
};

fn strings(words: &[&str]) -> Vec<String> {
    words.iter().map(|w| w.to_string()).collect()
}

#[test]
fn runtime_dir_comes_from_the_environment() {
    assert_eq!(runtime_dir(Some("/run/user/1000"), b"/tmp"), b"/run/user/1000".to_vec());
    assert_eq!(runtime_dir(Some(""), b"/tmp"), b"/tmp".to_vec());
    assert_eq!(runtime_dir(None, b"/tmp"), b"/tmp".to_vec());
    assert_eq!(runtime_dir(None, b"/t\xffmp"), b"/t\xffmp".to_vec());
}

#[test]
fn socket_path_joins_directory_and_name() {
    assert_eq!(
        socket_path(b"/run/user/1000", "chrome"),
        b"/run/user/1000/browser-ext-chrome.sock".to_vec()
    );
    assert_eq!(socket_path(b"/tmp/", "firefox"), b"/tmp/browser-ext-firefox.sock".to_vec());
    assert_eq!(socket_path(b"", "x"), b"browser-ext-x.sock".to_vec());
    assert_eq!(socket_path(b"/", "é"), "/browser-ext-é.sock".as_bytes().to_vec());
}

#[test]
fn socket_path_is_that_of_the_standard_library() {
    for dir in ["/run/user/1000", "/tmp/", "", "/", "a", "a//"] {
        for browser in ["chrome", "firefox", "../x", "", "a/b"] {
            let expected = std::path::PathBuf::from(dir).join(format!("browser-ext-{}.sock", browser));
            assert_eq!(socket_path(dir.as_bytes(), browser), expected.to_str().unwrap().as_bytes());
        }
    }
}

#[test]
fn sockets_of_browsers_differ() {
    assert_ne!(socket_path(b"/tmp", "chrome"), socket_path(b"/tmp", "firefox"));
}

#[test]
fn host_knows_who_started_it() {
    assert_eq!(launched_by(&strings(&["host", "chrome-extension://abcdef/"])), "chrome");
    assert_eq!(launched_by(&strings(&["host", "/path/host.json", "ext@example.org"])), "firefox");
    assert_eq!(launched_by(&[]), "firefox");
    assert_eq!(launched_by(&strings(&["chrome-extension://abcdef/"])), "chrome");
}

#[test]
fn host_listens_where_clients_look() {
    let args = strings(&["host", "chrome-extension://abcdef/"]);
    assert_eq!(host_socket_path(b"/run", &args), b"/run/browser-ext-chrome.sock".to_vec());
    let args = strings(&["host", "host.json"]);
    assert_eq!(host_socket_path(b"/run", &args), b"/run/browser-ext-firefox.sock".to_vec());
    assert_eq!(host_socket_path(b"/run", &args), socket_path(b"/run", "firefox"));
}

#[test]
fn unreachable_host_is_explained() {
    assert_eq!(
        unreachable_message("chrome", "/tmp/s.sock", "No such file"),
        "cannot reach chrome host at /tmp/s.sock (No such file); is the browser running with the extension installed?"
    );
}
