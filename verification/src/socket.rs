//! Where the host of each browser listens.
//!
//! Paths are bytes, as the operating system has them: a directory need not be
//! valid UTF-8.

use crate::text::{starts_with, views};
use vstd::prelude::*;
use vstd::string::StringExecFns;
use vstd::utf8::encode_utf8;

verus! {

/// The directory for sockets: the one that the environment names, and the one for
/// temporary files where it names none.
pub open spec fn runtime_dir_of(variable: Option<Seq<char>>, temp_dir: Seq<u8>) -> Seq<u8> {
    match variable {
        Some(dir) if dir.len() > 0 => encode_utf8(dir),
        _ => temp_dir,
    }
}

/// The directory for sockets, from the environment variable that names it.
pub fn runtime_dir(variable: Option<&str>, temp_dir: &[u8]) -> (dir: Vec<u8>)
    ensures
        dir@ == runtime_dir_of(
            match variable {
                Some(dir) => Some(dir@),
                None => None,
            },
            temp_dir@,
        ),
{
    match variable {
        Some(dir) if !dir.is_empty() => vstd::slice::slice_to_vec(dir.as_bytes()),
        _ => vstd::slice::slice_to_vec(temp_dir),
    }
}

/// The path of a file in a directory: a slash stands between the two, unless the
/// directory ends in one or is empty.
pub open spec fn joined(dir: Seq<u8>, name: Seq<u8>) -> Seq<u8> {
    if dir.len() == 0 || dir.last() == 0x2f {
        dir + name
    } else {
        dir.push(0x2f) + name
    }
}

/// The name of the socket of a browser's host.
pub open spec fn socket_name(browser: Seq<char>) -> Seq<char> {
    "browser-ext-"@ + browser + ".sock"@
}

/// The path of the socket of a browser's host.
pub open spec fn socket_path_of(runtime_dir: Seq<u8>, browser: Seq<char>) -> Seq<u8> {
    joined(runtime_dir, encode_utf8(socket_name(browser)))
}

/// The path of the socket on which the host of a browser listens.
pub fn socket_path(runtime_dir: &[u8], browser: &str) -> (path: Vec<u8>)
    ensures
        path@ == socket_path_of(runtime_dir@, browser@),
{
    let mut name = "browser-ext-".to_owned();
    name.append(browser);
    name.append(".sock");
    let mut path = vstd::slice::slice_to_vec(runtime_dir);
    if path.len() > 0 && path[path.len() - 1] != 0x2f {
        path.push(0x2f);
    }
    let mut bytes = vstd::slice::slice_to_vec(name.as_str().as_bytes());
    path.append(&mut bytes);
    path
}

/// Hosts of different browsers listen on different sockets.
pub proof fn law_sockets_differ(runtime_dir: Seq<u8>, first: Seq<char>, second: Seq<char>)
    requires
        first != second,
    ensures
        socket_path_of(runtime_dir, first) != socket_path_of(runtime_dir, second),
{
    let a = socket_name(first);
    let b = socket_name(second);
    let dir = if runtime_dir.len() == 0 || runtime_dir.last() == 0x2f {
        runtime_dir
    } else {
        runtime_dir.push(0x2f)
    };
    if socket_path_of(runtime_dir, first) == socket_path_of(runtime_dir, second) {
        assert(encode_utf8(a) =~= (dir + encode_utf8(a)).skip(dir.len() as int));
        assert(encode_utf8(b) =~= (dir + encode_utf8(b)).skip(dir.len() as int));
        vstd::utf8::encode_utf8_decode_utf8(a);
        vstd::utf8::encode_utf8_decode_utf8(b);
        let skip = "browser-ext-"@.len() as int;
        assert(first =~= a.subrange(skip, a.len() - ".sock"@.len()));
        assert(second =~= b.subrange(skip, b.len() - ".sock"@.len()));
    }
}

/// The browser that started a host, from the arguments of the host: Chrome passes
/// the origin of the extension, Firefox does not.
pub open spec fn launcher(args: Seq<Seq<char>>) -> Seq<char> {
    if exists|i: int| 0 <= i < args.len() && "chrome-extension://"@.is_prefix_of(#[trigger] args[i]) {
        "chrome"@
    } else {
        "firefox"@
    }
}

/// The browser that started a host, from the arguments of the host.
pub fn launched_by(args: &[String]) -> (browser: &'static str)
    ensures
        browser@ == launcher(views(args@)),
{
    let mut i: usize = 0;
    while i < args.len()
        invariant
            i <= args@.len(),
            forall|j: int|
                0 <= j < i ==> !"chrome-extension://"@.is_prefix_of(#[trigger] views(args@)[j]),
        decreases args@.len() - i,
    {
        if starts_with(args[i].as_str(), "chrome-extension://") {
            assert("chrome-extension://"@.is_prefix_of(views(args@)[i as int]));
            return "chrome";
        }
        i += 1;
    }
    "firefox"
}

/// Where arguments show that Chrome started a host, whatever follows them changes
/// nothing.
pub proof fn law_chrome_needs_no_more(args: Seq<Seq<char>>, rest: Seq<Seq<char>>)
    requires
        launcher(args) == "chrome"@,
    ensures
        launcher(args + rest) == "chrome"@,
{
    reveal_strlit("chrome");
    reveal_strlit("firefox");
    assert("chrome"@.len() != "firefox"@.len());
    let i = choose|i: int|
        0 <= i < args.len() && "chrome-extension://"@.is_prefix_of(#[trigger] args[i]);
    assert((args + rest)[i] == args[i]);
}

/// The path of the socket on which a host listens that was started with some
/// arguments.
pub fn host_socket_path(runtime_dir: &[u8], args: &[String]) -> (path: Vec<u8>)
    ensures
        path@ == socket_path_of(runtime_dir@, launcher(views(args@))),
{
    socket_path(runtime_dir, launched_by(args))
}

/// A host listens on `browser-ext-chrome.sock` or on `browser-ext-firefox.sock`,
/// which is where a client looks for the host of that browser.
pub proof fn law_host_sockets(runtime_dir: Seq<u8>, args: Seq<Seq<char>>)
    ensures
        launcher(args) == "chrome"@ || launcher(args) == "firefox"@,
        launcher(args) == "chrome"@ ==> socket_path_of(runtime_dir, launcher(args)) == joined(
            runtime_dir,
            encode_utf8("browser-ext-chrome.sock"@),
        ),
        launcher(args) == "firefox"@ ==> socket_path_of(runtime_dir, launcher(args)) == joined(
            runtime_dir,
            encode_utf8("browser-ext-firefox.sock"@),
        ),
{
    reveal_strlit("browser-ext-");
    reveal_strlit(".sock");
    reveal_strlit("chrome");
    reveal_strlit("firefox");
    reveal_strlit("browser-ext-chrome.sock");
    reveal_strlit("browser-ext-firefox.sock");
    assert(socket_name("chrome"@) =~= "browser-ext-chrome.sock"@);
    assert(socket_name("firefox"@) =~= "browser-ext-firefox.sock"@);
}

/// What to say where no host can be reached.
pub open spec fn unreachable(browser: Seq<char>, path: Seq<char>, reason: Seq<char>) -> Seq<char> {
    "cannot reach "@ + browser + " host at "@ + path + " ("@ + reason
        + "); is the browser running with the extension installed?"@
}

/// Whichever host cannot be reached, the browser, the path and the reason are told in
/// full, in this order.
pub proof fn law_unreachable(browser: Seq<char>, path: Seq<char>, reason: Seq<char>)
    ensures
        unreachable(browser, path, reason) == seq![
            "cannot reach "@,
            browser,
            " host at "@,
            path,
            " ("@,
            reason,
            "); is the browser running with the extension installed?"@,
        ].flatten(),
{
    let parts = seq![
        "cannot reach "@,
        browser,
        " host at "@,
        path,
        " ("@,
        reason,
        "); is the browser running with the extension installed?"@,
    ];
    parts.lemma_flatten_and_flatten_alt_are_equivalent();
    reveal_with_fuel(Seq::<_>::flatten_alt, 8);
    assert(parts.flatten_alt() =~= unreachable(browser, path, reason));
}

/// What to say where no host can be reached: which browser's, where it was looked
/// for, and why.
pub fn unreachable_message(browser: &str, path: &str, reason: &str) -> (r: String)
    ensures
        r@ == "cannot reach "@ + browser@ + " host at "@ + path@ + " ("@ + reason@
            + "); is the browser running with the extension installed?"@,
        r@ == unreachable(browser@, path@, reason@),
{
    let mut r = "cannot reach ".to_owned();
    r.append(browser);
    r.append(" host at ");
    r.append(path);
    r.append(" (");
    r.append(reason);
    r.append("); is the browser running with the extension installed?");
    r
}

/// The origin of an extension, whatever the extension is called and wherever it stands
/// among the arguments, shows that Chrome started a host.
pub proof fn law_chrome_passes_an_origin(
    before: Seq<Seq<char>>,
    extension: Seq<char>,
    after: Seq<Seq<char>>,
)
    ensures
        launcher(before + seq!["chrome-extension://"@ + extension] + after) == "chrome"@,
{
    let args = before + seq!["chrome-extension://"@ + extension] + after;
    let arg = "chrome-extension://"@ + extension;
    assert(args[before.len() as int] == arg);
    assert(arg.subrange(0, "chrome-extension://"@.len() as int) =~= "chrome-extension://"@);
    assert("chrome-extension://"@.is_prefix_of(args[before.len() as int]));
}

/// Arguments of which none is such an origin show that Firefox started a host.
pub proof fn law_firefox_passes_no_origin(args: Seq<Seq<char>>)
    requires
        forall|i: int, extension: Seq<char>|
            0 <= i < args.len() ==> #[trigger] args[i] != #[trigger] ("chrome-extension://"@
                + extension),
    ensures
        launcher(args) == "firefox"@,
{
    assert forall|i: int| 0 <= i < args.len() implies !"chrome-extension://"@.is_prefix_of(
        #[trigger] args[i],
    ) by {
        let n = "chrome-extension://"@.len() as int;
        if "chrome-extension://"@.is_prefix_of(args[i]) {
            assert(args[i] =~= "chrome-extension://"@ + args[i].skip(n));
        }
    }
}

/// The directory that the environment names is taken as it is. Without one, or with an
/// empty one, the directory for temporary files is taken.
pub proof fn law_runtime_dir(dir: Seq<char>, temp_dir: Seq<u8>)
    ensures
        dir.len() > 0 ==> runtime_dir_of(Some(dir), temp_dir) == encode_utf8(dir),
        runtime_dir_of(Some(Seq::empty()), temp_dir) == temp_dir,
        runtime_dir_of(None, temp_dir) == temp_dir,
{
}

/// The socket of a browser stands in the directory, one slash behind it, under a name
/// that holds the name of the browser.
pub proof fn law_socket_path(dir: Seq<u8>, browser: Seq<char>)
    ensures
        ({
            let name = encode_utf8("browser-ext-"@ + browser + ".sock"@);
            &&& socket_path_of(Seq::empty(), browser) == name
            &&& socket_path_of(dir.push(0x2f), browser) == dir.push(0x2f) + name
            &&& dir.len() > 0 && dir.last() != 0x2f ==> socket_path_of(dir, browser) == dir.push(
                0x2f,
            ) + name
        }),
{
    assert(Seq::<u8>::empty() + encode_utf8(socket_name(browser)) =~= encode_utf8(
        socket_name(browser),
    ));
}

} // verus!
