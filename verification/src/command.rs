//! Commands: how they are written, and what they ask of the extension.

use crate::args::{
    is_last_browser, law_any_flags, law_command_is_the_rest, parse_flags, start_of, written_flags,
    Flag, Start, StartView,
};
use crate::json::outside::{
    floats_read_back, lemma_object_nests, lemma_object_reads_back, reads_back_within,
};
use crate::json::tree::{float_free, insert_all, lemma_insert_all_values, nested_within, Tree};
use crate::json::value::Json;
use crate::protocol::{is_line, line_of, object, reading, request_line, request_tree, Reading};
use crate::text::{
    concatenated, i64_value, integer_text, law_integers_read_back, optional, parse_i64, same,
    viewed, views,
};
use vstd::prelude::*;

verus! {

/// A command with what it needs.
#[derive(Debug, PartialEq, Eq)]
#[allow(inconsistent_fields)]
pub enum Command {
    TabsList,
    TabsContent { id: i64 },
    TabsOpen { url: Option<String> },
    TabsNavigate { id: i64, url: String },
    TabsActivate { id: i64 },
    TabsEval { id: i64, code: String },
    TabsMove { id: i64, index: i64, window: Option<i64> },
    TabsScreenshot { id: i64, out: Option<String> },
    TabsClose { ids: Vec<i64> },
    WindowsList,
}

/// A command with what it needs.
#[allow(inconsistent_fields)]
pub ghost enum CommandView {
    TabsList,
    TabsContent { id: i64 },
    TabsOpen { url: Option<Seq<char>> },
    TabsNavigate { id: i64, url: Seq<char> },
    TabsActivate { id: i64 },
    TabsEval { id: i64, code: Seq<char> },
    TabsMove { id: i64, index: i64, window: Option<i64> },
    TabsScreenshot { id: i64, out: Option<Seq<char>> },
    TabsClose { ids: Seq<i64> },
    WindowsList,
}

impl View for Command {
    type V = CommandView;

    open spec fn view(&self) -> CommandView {
        match *self {
            Command::TabsList => CommandView::TabsList,
            Command::TabsContent { id } => CommandView::TabsContent { id },
            Command::TabsOpen { url } => CommandView::TabsOpen { url: optional(url) },
            Command::TabsNavigate { id, url } => CommandView::TabsNavigate { id, url: url@ },
            Command::TabsActivate { id } => CommandView::TabsActivate { id },
            Command::TabsEval { id, code } => CommandView::TabsEval { id, code: code@ },
            Command::TabsMove { id, index, window } => CommandView::TabsMove { id, index, window },
            Command::TabsScreenshot { id, out } => CommandView::TabsScreenshot {
                id,
                out: optional(out),
            },
            Command::TabsClose { ids } => CommandView::TabsClose { ids: ids@ },
            Command::WindowsList => CommandView::WindowsList,
        }
    }
}

/// The identifier of a tab, as it is written.
pub open spec fn tab_id_of(text: Seq<char>) -> Result<i64, Seq<char>> {
    match i64_value(text) {
        Some(id) => Ok(id),
        None => Err("invalid tab id: "@ + text),
    }
}

/// The identifier of a tab that comes first in what a verb needs; `missing` tells
/// what to say where there is none.
pub open spec fn first_tab_id(args: Seq<Seq<char>>, missing: Seq<char>) -> Result<i64, Seq<char>> {
    if args.len() == 0 {
        Err(missing)
    } else {
        tab_id_of(args[0])
    }
}

/// The identifiers of tabs, or what is wrong with the first that is none.
pub open spec fn tab_ids_of(args: Seq<Seq<char>>) -> Result<Seq<i64>, Seq<char>>
    decreases args.len(),
{
    if args.len() == 0 {
        Ok(Seq::empty())
    } else {
        match tab_ids_of(args.drop_last()) {
            Ok(ids) => match tab_id_of(args.last()) {
                Ok(id) => Ok(ids.push(id)),
                Err(message) => Err(message),
            },
            Err(message) => Err(message),
        }
    }
}

/// The options of `tabs move`, after options that chose a position and a window. Of
/// two options of one kind the later one counts.
pub open spec fn move_options(
    options: Seq<Seq<char>>,
    index: Option<i64>,
    window: Option<i64>,
) -> Result<(Option<i64>, Option<i64>), Seq<char>>
    decreases options.len(),
{
    if options.len() == 0 {
        Ok((index, window))
    } else if options[0] == "--index"@ {
        if options.len() == 1 {
            Err("--index needs a value"@)
        } else {
            match i64_value(options[1]) {
                Some(n) => move_options(options.skip(2), Some(n), window),
                None => Err("invalid index: "@ + options[1]),
            }
        }
    } else if options[0] == "--window"@ {
        if options.len() == 1 {
            Err("--window needs a value"@)
        } else {
            match i64_value(options[1]) {
                Some(n) => move_options(options.skip(2), index, Some(n)),
                None => Err("invalid window id: "@ + options[1]),
            }
        }
    } else {
        Err("unknown option for tabs move: "@ + options[0])
    }
}

/// The options of `tabs screenshot`, after options that chose a file. Of two options
/// the later one counts.
pub open spec fn screenshot_options(options: Seq<Seq<char>>, out: Option<Seq<char>>) -> Result<
    Option<Seq<char>>,
    Seq<char>,
>
    decreases options.len(),
{
    if options.len() == 0 {
        Ok(out)
    } else if options[0] == "--out"@ {
        if options.len() == 1 {
            Err("--out needs a value"@)
        } else {
            screenshot_options(options.skip(2), Some(options[1]))
        }
    } else {
        Err("unknown option for tabs screenshot: "@ + options[0])
    }
}

/// `tabs content`, with what follows it.
pub open spec fn content_of(args: Seq<Seq<char>>) -> Result<CommandView, Seq<char>> {
    match first_tab_id(args, "tabs content needs a tab id"@) {
        Ok(id) => Ok(CommandView::TabsContent { id }),
        Err(message) => Err(message),
    }
}

/// `tabs navigate`, with what follows it.
pub open spec fn navigate_of(args: Seq<Seq<char>>) -> Result<CommandView, Seq<char>> {
    match first_tab_id(args, "tabs navigate needs a tab id and a url"@) {
        Ok(id) => if args.len() == 1 {
            Err("tabs navigate needs a url"@)
        } else {
            Ok(CommandView::TabsNavigate { id, url: args[1] })
        },
        Err(message) => Err(message),
    }
}

/// `tabs activate`, with what follows it.
pub open spec fn activate_of(args: Seq<Seq<char>>) -> Result<CommandView, Seq<char>> {
    match first_tab_id(args, "tabs activate needs a tab id"@) {
        Ok(id) => Ok(CommandView::TabsActivate { id }),
        Err(message) => Err(message),
    }
}

/// `tabs eval`, with what follows it.
pub open spec fn eval_of(args: Seq<Seq<char>>) -> Result<CommandView, Seq<char>> {
    match first_tab_id(args, "tabs eval needs a tab id and JS to run"@) {
        Ok(id) => if args.len() == 1 {
            Err("tabs eval needs JS to run"@)
        } else {
            Ok(CommandView::TabsEval { id, code: args[1] })
        },
        Err(message) => Err(message),
    }
}

/// `tabs move`, with what follows it.
pub open spec fn move_of(args: Seq<Seq<char>>) -> Result<CommandView, Seq<char>> {
    match first_tab_id(args, "tabs move needs a tab id and --index"@) {
        Ok(id) => match move_options(args.skip(1), None, None) {
            Ok((Some(index), window)) => Ok(CommandView::TabsMove { id, index, window }),
            Ok((None, _)) => Err("tabs move needs --index"@),
            Err(message) => Err(message),
        },
        Err(message) => Err(message),
    }
}

/// `tabs screenshot`, with what follows it.
pub open spec fn screenshot_of(args: Seq<Seq<char>>) -> Result<CommandView, Seq<char>> {
    match first_tab_id(args, "tabs screenshot needs a tab id"@) {
        Ok(id) => match screenshot_options(args.skip(1), None) {
            Ok(out) => Ok(CommandView::TabsScreenshot { id, out }),
            Err(message) => Err(message),
        },
        Err(message) => Err(message),
    }
}

/// `tabs close`, with what follows it.
pub open spec fn close_of(args: Seq<Seq<char>>) -> Result<CommandView, Seq<char>> {
    if args.len() == 0 {
        Err("tabs close needs at least one tab id"@)
    } else {
        match tab_ids_of(args) {
            Ok(ids) => Ok(CommandView::TabsClose { ids }),
            Err(message) => Err(message),
        }
    }
}

/// What to say about a command that is none.
pub open spec fn unknown_command(group: Seq<char>, verb: Seq<char>) -> Seq<char> {
    "unknown command: "@ + group + " "@ + verb + "; see --help"@
}

/// What to say about a group without a verb.
pub open spec fn missing_verb(group: Seq<char>) -> Seq<char> {
    "'"@ + group + "' needs a verb; see --help"@
}

/// The command that a verb of the group `tabs` makes with what follows it.
pub open spec fn tabs_command_of(verb: Seq<char>, args: Seq<Seq<char>>) -> Result<
    CommandView,
    Seq<char>,
> {
    if verb == "list"@ {
        Ok(CommandView::TabsList)
    } else if verb == "content"@ {
        content_of(args)
    } else if verb == "open"@ {
        Ok(
            CommandView::TabsOpen {
                url: if args.len() > 0 {
                    Some(args[0])
                } else {
                    None
                },
            },
        )
    } else if verb == "navigate"@ {
        navigate_of(args)
    } else if verb == "activate"@ {
        activate_of(args)
    } else if verb == "eval"@ {
        eval_of(args)
    } else if verb == "move"@ {
        move_of(args)
    } else if verb == "screenshot"@ {
        screenshot_of(args)
    } else if verb == "close"@ {
        close_of(args)
    } else if verb == ""@ {
        Err(missing_verb("tabs"@))
    } else {
        Err(unknown_command("tabs"@, verb))
    }
}

/// The command that a verb of the group `windows` makes.
pub open spec fn windows_command_of(verb: Seq<char>) -> Result<CommandView, Seq<char>> {
    if verb == "list"@ {
        Ok(CommandView::WindowsList)
    } else if verb == ""@ {
        Err(missing_verb("windows"@))
    } else {
        Err(unknown_command("windows"@, verb))
    }
}

/// The command that a group, a verb and what follows them make, or what is wrong.
/// What a verb has no use for is ignored.
pub open spec fn command_of(words: Seq<Seq<char>>) -> Result<CommandView, Seq<char>> {
    let group = words[0];
    let verb = if words.len() > 1 {
        words[1]
    } else {
        ""@
    };
    let args = if words.len() > 2 {
        words.skip(2)
    } else {
        Seq::empty()
    };
    if group == "tabs"@ {
        tabs_command_of(verb, args)
    } else if group == "windows"@ {
        windows_command_of(verb)
    } else {
        Err(unknown_command(group, verb))
    }
}

fn parse_tab_id(text: &str) -> (r: Result<i64, String>)
    ensures
        by_message(r) == tab_id_of(text@),
{
    match parse_i64(text) {
        Some(id) => Ok(id),
        None => Err(concatenated("invalid tab id: ", text)),
    }
}

/// A result by the characters of its message.
spec fn by_message<T>(r: Result<T, String>) -> Result<T, Seq<char>> {
    match r {
        Ok(value) => Ok(value),
        Err(message) => Err(message@),
    }
}

fn parse_first_tab_id(args: &[String], missing: &str) -> (r: Result<i64, String>)
    ensures
        by_message(r) == first_tab_id(views(args@), missing@),
{
    if args.len() == 0 {
        Err(missing.to_owned())
    } else {
        parse_tab_id(args[0].as_str())
    }
}

fn parse_tab_ids(args: &[String]) -> (r: Result<Vec<i64>, String>)
    ensures
        viewed(r) == tab_ids_of(views(args@)),
{
    let ghost texts = views(args@);
    let mut ids: Vec<i64> = Vec::new();
    let mut i: usize = 0;
    while i < args.len()
        invariant
            texts == views(args@),
            i <= args@.len(),
            tab_ids_of(texts.take(i as int)) == Ok::<Seq<i64>, Seq<char>>(ids@),
        decreases args@.len() - i,
    {
        proof {
            assert(texts.take(i + 1).drop_last() =~= texts.take(i as int));
            assert(texts.take(i + 1).last() == args@[i as int]@);
        }
        match parse_tab_id(args[i].as_str()) {
            Ok(id) => {
                ids.push(id);
            },
            Err(message) => {
                proof {
                    lemma_invalid_id_stays(texts, i + 1);
                }
                return Err(message);
            },
        }
        i += 1;
    }
    assert(texts.take(i as int) =~= texts);
    Ok(ids)
}

/// What is wrong with an identifier stays wrong, whatever follows it.
proof fn lemma_invalid_id_stays(args: Seq<Seq<char>>, i: int)
    requires
        0 <= i <= args.len(),
        tab_ids_of(args.take(i)) is Err,
    ensures
        tab_ids_of(args) == tab_ids_of(args.take(i)),
    decreases args.len() - i,
{
    if i == args.len() {
        assert(args.take(i) =~= args);
    } else {
        assert(args.take(i + 1).drop_last() =~= args.take(i));
        lemma_invalid_id_stays(args, i + 1);
    }
}

fn parse_move_options(args: &[String]) -> (r: Result<(Option<i64>, Option<i64>), String>)
    requires
        args@.len() > 0,
    ensures
        by_message(r) == move_options(views(args@).skip(1), None, None),
{
    let ghost texts = views(args@);
    let mut index: Option<i64> = None;
    let mut window: Option<i64> = None;
    let mut i: usize = 1;
    while i < args.len()
        invariant
            texts == views(args@),
            0 < i <= args@.len(),
            move_options(texts.skip(1), None, None) == move_options(
                texts.skip(i as int),
                index,
                window,
            ),
        decreases args@.len() - i,
    {
        let flag = args[i].as_str();
        let ghost rest = texts.skip(i as int);
        assert(rest[0] == flag@);
        if same(flag, "--index") {
            if i + 1 == args.len() {
                return Err("--index needs a value".to_owned());
            }
            let value = args[i + 1].as_str();
            assert(rest[1] == value@);
            assert(rest.skip(2) =~= texts.skip(i + 2));
            match parse_i64(value) {
                Some(n) => {
                    index = Some(n);
                },
                None => {
                    return Err(concatenated("invalid index: ", value));
                },
            }
        } else if same(flag, "--window") {
            if i + 1 == args.len() {
                return Err("--window needs a value".to_owned());
            }
            let value = args[i + 1].as_str();
            assert(rest[1] == value@);
            assert(rest.skip(2) =~= texts.skip(i + 2));
            match parse_i64(value) {
                Some(n) => {
                    window = Some(n);
                },
                None => {
                    return Err(concatenated("invalid window id: ", value));
                },
            }
        } else {
            return Err(concatenated("unknown option for tabs move: ", flag));
        }
        i += 2;
    }
    Ok((index, window))
}

fn parse_screenshot_options(args: &[String]) -> (r: Result<Option<String>, String>)
    requires
        args@.len() > 0,
    ensures
        match r {
            Ok(out) => screenshot_options(views(args@).skip(1), None) == Ok::<
                Option<Seq<char>>,
                Seq<char>,
            >(optional(out)),
            Err(message) => screenshot_options(views(args@).skip(1), None) == Err::<
                Option<Seq<char>>,
                Seq<char>,
            >(message@),
        },
{
    let ghost texts = views(args@);
    let mut out: Option<String> = None;
    let mut i: usize = 1;
    while i < args.len()
        invariant
            texts == views(args@),
            0 < i <= args@.len(),
            screenshot_options(texts.skip(1), None) == screenshot_options(
                texts.skip(i as int),
                optional(out),
            ),
        decreases args@.len() - i,
    {
        let flag = args[i].as_str();
        let ghost rest = texts.skip(i as int);
        assert(rest[0] == flag@);
        if same(flag, "--out") {
            if i + 1 == args.len() {
                return Err("--out needs a value".to_owned());
            }
            assert(rest[1] == args@[i + 1]@);
            assert(rest.skip(2) =~= texts.skip(i + 2));
            out = Some(args[i + 1].clone());
        } else {
            return Err(concatenated("unknown option for tabs screenshot: ", flag));
        }
        i += 2;
    }
    Ok(out)
}

/// Read a command, its flags left out.
pub fn parse_command(words: &[String]) -> (r: Result<Command, String>)
    requires
        words@.len() > 0,
    ensures
        viewed(r) == command_of(views(words@)),
{
    let group = words[0].as_str();
    let verb = if words.len() > 1 {
        words[1].as_str()
    } else {
        ""
    };
    let args: &[String] = if words.len() > 2 {
        vstd::slice::slice_subrange(words, 2, words.len())
    } else {
        vstd::slice::slice_subrange(words, 0, 0)
    };
    let ghost texts = views(args@);
    proof {
        if words@.len() > 2 {
            assert(texts =~= views(words@).skip(2));
        } else {
            assert(texts =~= Seq::<Seq<char>>::empty());
        }
    }
    if same(group, "tabs") {
        parse_tabs_command(verb, args)
    } else if same(group, "windows") {
        if same(verb, "list") {
            Ok(Command::WindowsList)
        } else if same(verb, "") {
            Err(missing_verb_message("windows"))
        } else {
            Err(unknown_command_message("windows", verb))
        }
    } else {
        Err(unknown_command_message(group, verb))
    }
}

fn missing_verb_message(group: &str) -> (r: String)
    ensures
        r@ == missing_verb(group@),
{
    let r = concatenated("'", group);
    concatenated(r.as_str(), "' needs a verb; see --help")
}

fn unknown_command_message(group: &str, verb: &str) -> (r: String)
    ensures
        r@ == unknown_command(group@, verb@),
{
    let r = concatenated("unknown command: ", group);
    let r = concatenated(r.as_str(), " ");
    let r = concatenated(r.as_str(), verb);
    concatenated(r.as_str(), "; see --help")
}

fn parse_tabs_command(verb: &str, args: &[String]) -> (r: Result<Command, String>)
    ensures
        viewed(r) == tabs_command_of(verb@, views(args@)),
{
    if same(verb, "list") {
        Ok(Command::TabsList)
    } else if same(verb, "content") {
        match parse_first_tab_id(args, "tabs content needs a tab id") {
            Ok(id) => Ok(Command::TabsContent { id }),
            Err(message) => Err(message),
        }
    } else if same(verb, "open") {
        Ok(
            Command::TabsOpen {
                url: if args.len() > 0 {
                    Some(args[0].clone())
                } else {
                    None
                },
            },
        )
    } else if same(verb, "navigate") {
        match parse_first_tab_id(args, "tabs navigate needs a tab id and a url") {
            Ok(id) => if args.len() == 1 {
                Err("tabs navigate needs a url".to_owned())
            } else {
                Ok(Command::TabsNavigate { id, url: args[1].clone() })
            },
            Err(message) => Err(message),
        }
    } else if same(verb, "activate") {
        match parse_first_tab_id(args, "tabs activate needs a tab id") {
            Ok(id) => Ok(Command::TabsActivate { id }),
            Err(message) => Err(message),
        }
    } else if same(verb, "eval") {
        match parse_first_tab_id(args, "tabs eval needs a tab id and JS to run") {
            Ok(id) => if args.len() == 1 {
                Err("tabs eval needs JS to run".to_owned())
            } else {
                Ok(Command::TabsEval { id, code: args[1].clone() })
            },
            Err(message) => Err(message),
        }
    } else if same(verb, "move") {
        match parse_first_tab_id(args, "tabs move needs a tab id and --index") {
            Ok(id) => match parse_move_options(args) {
                Ok((Some(index), window)) => Ok(Command::TabsMove { id, index, window }),
                Ok((None, _)) => Err("tabs move needs --index".to_owned()),
                Err(message) => Err(message),
            },
            Err(message) => Err(message),
        }
    } else if same(verb, "screenshot") {
        match parse_first_tab_id(args, "tabs screenshot needs a tab id") {
            Ok(id) => match parse_screenshot_options(args) {
                Ok(out) => Ok(Command::TabsScreenshot { id, out }),
                Err(message) => Err(message),
            },
            Err(message) => Err(message),
        }
    } else if same(verb, "close") {
        if args.len() == 0 {
            return Err("tabs close needs at least one tab id".to_owned());
        }
        match parse_tab_ids(args) {
            Ok(ids) => Ok(Command::TabsClose { ids }),
            Err(message) => Err(message),
        }
    } else if same(verb, "") {
        Err(missing_verb_message("tabs"))
    } else {
        Err(unknown_command_message("tabs", verb))
    }
}

/// The options of `tabs move` may come in either order.
pub proof fn law_move_options_in_either_order(index: Seq<char>, window: Seq<char>)
    requires
        i64_value(index) is Some,
        i64_value(window) is Some,
    ensures
        move_options(seq!["--index"@, index, "--window"@, window], None, None) == move_options(
            seq!["--window"@, window, "--index"@, index],
            None,
            None,
        ),
{
    reveal_strlit("--index");
    reveal_strlit("--window");
    assert("--index"@.len() != "--window"@.len());
    let first = seq!["--index"@, index, "--window"@, window];
    let second = seq!["--window"@, window, "--index"@, index];
    reveal_with_fuel(move_options, 3);
    assert(first.skip(2) =~= seq!["--window"@, window]);
    assert(second.skip(2) =~= seq!["--index"@, index]);
    assert(first.skip(2).skip(2) =~= Seq::empty());
    assert(second.skip(2).skip(2) =~= Seq::empty());
}

/// What the arguments of the program ask for.
pub enum Plan {
    /// Show the help text.
    Help,
    /// There is no command: show the help text and fail.
    Usage,
    /// The arguments make no sense, for this reason.
    Invalid(String),
    /// Run a command.
    Run {
        /// Line-oriented output instead of JSON.
        plain: bool,
        /// The browser to talk to.
        browser: String,
        /// The command.
        command: Command,
    },
}

/// What the arguments of the program ask for.
pub ghost enum PlanView {
    Help,
    Usage,
    Invalid(Seq<char>),
    Run { plain: bool, browser: Seq<char>, command: CommandView },
}

impl View for Plan {
    type V = PlanView;

    open spec fn view(&self) -> PlanView {
        match *self {
            Plan::Help => PlanView::Help,
            Plan::Usage => PlanView::Usage,
            Plan::Invalid(message) => PlanView::Invalid(message@),
            Plan::Run { plain, browser, command } => PlanView::Run {
                plain,
                browser: browser@,
                command: command@,
            },
        }
    }
}

/// What the arguments of the program ask for: flags come first, then the command.
pub open spec fn plan_of(args: Seq<Seq<char>>) -> PlanView {
    match start_of(args) {
        StartView::Help => PlanView::Help,
        StartView::Usage => PlanView::Usage,
        StartView::Invalid(message) => PlanView::Invalid(message),
        StartView::Run { plain, browser, words } => match command_of(words) {
            Ok(command) => PlanView::Run { plain, browser, command },
            Err(message) => PlanView::Invalid(message),
        },
    }
}

/// Read the arguments of the program, its name left out.
pub fn parse_args(args: &[String]) -> (plan: Plan)
    ensures
        plan@ == plan_of(views(args@)),
{
    let start = parse_flags(args);
    proof {
        law_command_is_the_rest(views(args@));
    }
    match start {
        Start::Help => Plan::Help,
        Start::Usage => Plan::Usage,
        Start::Invalid(message) => Plan::Invalid(message),
        Start::Run { plain, browser, words } => match parse_command(words.as_slice()) {
            Ok(command) => Plan::Run { plain, browser, command },
            Err(message) => Plan::Invalid(message),
        },
    }
}

/// The identifier of a tab, as a member of an object.
pub open spec fn id_member(id: i64) -> (Seq<char>, Tree) {
    ("id"@, Tree::Integer(id as int))
}

/// A string, and null where it is missing.
pub open spec fn string_or_null(text: Option<Seq<char>>) -> Tree {
    match text {
        Some(text) => Tree::String(text),
        None => Tree::Null,
    }
}

/// An integer, and null where it is missing.
pub open spec fn integer_or_null(n: Option<i64>) -> Tree {
    match n {
        Some(n) => Tree::Integer(n as int),
        None => Tree::Null,
    }
}

impl CommandView {
    /// The method of the extension that carries a command out.
    pub open spec fn method(self) -> Seq<char> {
        match self {
            CommandView::TabsList => "tabs.list"@,
            CommandView::TabsContent { .. } => "tabs.content"@,
            CommandView::TabsOpen { .. } => "tabs.open"@,
            CommandView::TabsNavigate { .. } => "tabs.navigate"@,
            CommandView::TabsActivate { .. } => "tabs.activate"@,
            CommandView::TabsEval { .. } => "tabs.eval"@,
            CommandView::TabsMove { .. } => "tabs.move"@,
            CommandView::TabsScreenshot { .. } => "tabs.screenshot"@,
            CommandView::TabsClose { .. } => "tabs.close"@,
            CommandView::WindowsList => "windows.list"@,
        }
    }

    /// The members of the parameters that the method gets.
    pub open spec fn param_members(self) -> Seq<(Seq<char>, Tree)> {
        match self {
            CommandView::TabsList => seq![],
            CommandView::TabsContent { id } => seq![id_member(id)],
            CommandView::TabsOpen { url } => seq![("url"@, string_or_null(url))],
            CommandView::TabsNavigate { id, url } => seq![
                id_member(id),
                ("url"@, Tree::String(url)),
            ],
            CommandView::TabsActivate { id } => seq![id_member(id)],
            CommandView::TabsEval { id, code } => seq![
                id_member(id),
                ("code"@, Tree::String(code)),
            ],
            CommandView::TabsMove { id, index, window } => seq![
                id_member(id),
                ("index"@, Tree::Integer(index as int)),
                ("windowId"@, integer_or_null(window)),
            ],
            CommandView::TabsScreenshot { id, .. } => seq![id_member(id)],
            CommandView::TabsClose { ids } => seq![
                ("ids"@, Tree::Array(ids.map_values(|id: i64| Tree::Integer(id as int)))),
            ],
            CommandView::WindowsList => seq![],
        }
    }

    /// The parameters that the method gets.
    pub open spec fn params(self) -> Tree {
        object(self.param_members())
    }
}

/// The parameters of a command hold no floats and are hardly nested, so that they are
/// read back wherever they are put.
pub proof fn law_params_read_back(command: CommandView)
    ensures
        float_free(command.params()),
        nested_within(command.params(), 2),
        reads_back_within(command.params(), 126),
{
    let members = command.param_members();
    assert forall|i: int| 0 <= i < members.len() implies float_free((#[trigger] members[i]).1)
        && nested_within(members[i].1, 1) && reads_back_within(members[i].1, 125) by {
        reveal_with_fuel(float_free, 2);
        reveal_with_fuel(floats_read_back, 2);
        reveal_with_fuel(nested_within, 2);
    }
    assert forall|key: Seq<char>| insert_all(members).contains_key(key) implies float_free(
        #[trigger] insert_all(members)[key],
    ) by {
        let i = lemma_insert_all_values(members, key);
        assert(float_free(members[i].1));
    }
    lemma_object_nests(members, 1);
    lemma_object_reads_back(members, 125);
}

fn id_json(id: i64) -> (r: (String, Json))
    ensures
        (r.0@, r.1@) == id_member(id),
{
    ("id".to_owned(), Json::Signed(id))
}

impl Command {
    /// The method of the extension that carries the command out.
    pub fn method(&self) -> (r: &'static str)
        ensures
            r@ == self@.method(),
    {
        match self {
            Command::TabsList => "tabs.list",
            Command::TabsContent { .. } => "tabs.content",
            Command::TabsOpen { .. } => "tabs.open",
            Command::TabsNavigate { .. } => "tabs.navigate",
            Command::TabsActivate { .. } => "tabs.activate",
            Command::TabsEval { .. } => "tabs.eval",
            Command::TabsMove { .. } => "tabs.move",
            Command::TabsScreenshot { .. } => "tabs.screenshot",
            Command::TabsClose { .. } => "tabs.close",
            Command::WindowsList => "windows.list",
        }
    }

    /// The parameters that the method gets.
    pub fn params(&self) -> (r: Json)
        ensures
            r@ == self@.params(),
    {
        let members = match self {
            Command::TabsList | Command::WindowsList => Vec::new(),
            Command::TabsContent { id } => vec![id_json(*id)],
            Command::TabsOpen { url } => {
                let url = match url {
                    Some(url) => Json::String(url.clone()),
                    None => Json::Null,
                };
                vec![("url".to_owned(), url)]
            },
            Command::TabsNavigate { id, url } => vec![
                id_json(*id),
                ("url".to_owned(), Json::String(url.clone())),
            ],
            Command::TabsActivate { id } => vec![id_json(*id)],
            Command::TabsEval { id, code } => vec![
                id_json(*id),
                ("code".to_owned(), Json::String(code.clone())),
            ],
            Command::TabsMove { id, index, window } => {
                let window = match window {
                    Some(window) => Json::Signed(*window),
                    None => Json::Null,
                };
                vec![
                    id_json(*id),
                    ("index".to_owned(), Json::Signed(*index)),
                    ("windowId".to_owned(), window),
                ]
            },
            Command::TabsScreenshot { id, .. } => vec![id_json(*id)],
            Command::TabsClose { ids } => vec![("ids".to_owned(), integers(ids))],
        };
        let r = Json::Object(members);
        assert(r.members() =~= self@.param_members());
        r
    }

    /// The line that asks a host for the command. The host reads from it the method
    /// and the parameters of the command.
    pub fn request(&self) -> (line: String)
        ensures
            line@ == line_of(request_tree(self@.method(), self@.params())),
            is_line(line@),
            reading(line@) == Reading::Request(request_tree(self@.method(), self@.params())),
    {
        proof {
            law_params_read_back(self@);
        }
        request_line(self.method(), self.params())
    }
}

/// An array of integers.
fn integers(ids: &Vec<i64>) -> (r: Json)
    ensures
        r@ == Tree::Array(ids@.map_values(|id: i64| Tree::Integer(id as int))),
{
    let mut items: Vec<Json> = Vec::new();
    let mut i: usize = 0;
    while i < ids.len()
        invariant
            i <= ids@.len(),
            items@.len() == i,
            forall|j: int| 0 <= j < i ==> (#[trigger] items@[j])@ == Tree::Integer(ids@[j] as int),
        decreases ids@.len() - i,
    {
        items.push(Json::Signed(ids[i]));
        i += 1;
    }
    let r = Json::Array(items);
    assert(r@->Array_0 =~= ids@.map_values(|id: i64| Tree::Integer(id as int)));
    r
}

/// The verbs and the groups differ.
proof fn lemma_verbs()
    ensures
        "tabs"@ != "windows"@,
        ""@.len() == 0,
        "list"@.len() == 4 && "list"@[0] == 'l',
        "open"@.len() == 4 && "open"@[0] == 'o',
        "eval"@.len() == 4 && "eval"@[0] == 'e',
        "move"@.len() == 4 && "move"@[0] == 'm',
        "close"@.len() == 5,
        "content"@.len() == 7,
        "navigate"@.len() == 8 && "navigate"@[0] == 'n',
        "activate"@.len() == 8 && "activate"@[0] == 'a',
        "screenshot"@.len() == 10,
{
    reveal_strlit("tabs");
    reveal_strlit("windows");
    reveal_strlit("");
    reveal_strlit("list");
    reveal_strlit("open");
    reveal_strlit("eval");
    reveal_strlit("move");
    reveal_strlit("close");
    reveal_strlit("content");
    reveal_strlit("navigate");
    reveal_strlit("activate");
    reveal_strlit("screenshot");
    assert("tabs"@.len() != "windows"@.len());
}

proof fn lemma_tabs(verb: Seq<char>, args: Seq<Seq<char>>)
    ensures
        command_of(seq!["tabs"@, verb] + args) == tabs_command_of(verb, args),
        args.len() == 0 ==> command_of(seq!["tabs"@, verb]) == tabs_command_of(verb, args),
{
    let words = seq!["tabs"@, verb] + args;
    assert(words.skip(2) =~= args);
    if args.len() == 0 {
        assert(args =~= Seq::empty());
        assert(words =~= seq!["tabs"@, verb]);
    }
}

/// The lists need nothing, and ignore what follows.
pub proof fn law_lists(rest: Seq<Seq<char>>)
    ensures
        command_of(seq!["tabs"@, "list"@] + rest) == Ok::<CommandView, Seq<char>>(
            CommandView::TabsList,
        ),
        command_of(seq!["windows"@, "list"@] + rest) == Ok::<CommandView, Seq<char>>(
            CommandView::WindowsList,
        ),
{
    lemma_verbs();
    lemma_tabs("list"@, rest);
}

/// `tabs content` takes the tab that its first argument names.
pub proof fn law_content(args: Seq<Seq<char>>, id: i64)
    ensures
        command_of(seq!["tabs"@, "content"@]) == Err::<CommandView, Seq<char>>(
            "tabs content needs a tab id"@,
        ),
        args.len() > 0 && i64_value(args[0]) == Some(id) ==> command_of(
            seq!["tabs"@, "content"@] + args,
        ) == Ok::<CommandView, Seq<char>>(CommandView::TabsContent { id }),
        args.len() > 0 && i64_value(args[0]) is None ==> command_of(
            seq!["tabs"@, "content"@] + args,
        ) == Err::<CommandView, Seq<char>>("invalid tab id: "@ + args[0]),
{
    lemma_verbs();
    lemma_tabs("content"@, args);
    lemma_tabs("content"@, Seq::empty());
}

/// `tabs activate` takes the tab that its first argument names.
pub proof fn law_activate(args: Seq<Seq<char>>, id: i64)
    ensures
        command_of(seq!["tabs"@, "activate"@]) == Err::<CommandView, Seq<char>>(
            "tabs activate needs a tab id"@,
        ),
        args.len() > 0 && i64_value(args[0]) == Some(id) ==> command_of(
            seq!["tabs"@, "activate"@] + args,
        ) == Ok::<CommandView, Seq<char>>(CommandView::TabsActivate { id }),
        args.len() > 0 && i64_value(args[0]) is None ==> command_of(
            seq!["tabs"@, "activate"@] + args,
        ) == Err::<CommandView, Seq<char>>("invalid tab id: "@ + args[0]),
{
    lemma_verbs();
    lemma_tabs("activate"@, args);
    lemma_tabs("activate"@, Seq::empty());
}

/// `tabs navigate` takes the tab that its first argument names, and the second one as it is.
pub proof fn law_navigate(args: Seq<Seq<char>>, id: i64)
    ensures
        command_of(seq!["tabs"@, "navigate"@]) == Err::<CommandView, Seq<char>>(
            "tabs navigate needs a tab id and a url"@,
        ),
        args.len() > 1 && i64_value(args[0]) == Some(id) ==> command_of(
            seq!["tabs"@, "navigate"@] + args,
        ) == Ok::<CommandView, Seq<char>>(CommandView::TabsNavigate { id, url: args[1] }),
        args.len() == 1 && i64_value(args[0]) == Some(id) ==> command_of(
            seq!["tabs"@, "navigate"@] + args,
        ) == Err::<CommandView, Seq<char>>("tabs navigate needs a url"@),
        args.len() > 0 && i64_value(args[0]) is None ==> command_of(
            seq!["tabs"@, "navigate"@] + args,
        ) == Err::<CommandView, Seq<char>>("invalid tab id: "@ + args[0]),
{
    lemma_verbs();
    lemma_tabs("navigate"@, args);
    lemma_tabs("navigate"@, Seq::empty());
}

/// `tabs eval` takes the tab that its first argument names, and the second one as it is.
pub proof fn law_eval(args: Seq<Seq<char>>, id: i64)
    ensures
        command_of(seq!["tabs"@, "eval"@]) == Err::<CommandView, Seq<char>>(
            "tabs eval needs a tab id and JS to run"@,
        ),
        args.len() > 1 && i64_value(args[0]) == Some(id) ==> command_of(
            seq!["tabs"@, "eval"@] + args,
        ) == Ok::<CommandView, Seq<char>>(CommandView::TabsEval { id, code: args[1] }),
        args.len() == 1 && i64_value(args[0]) == Some(id) ==> command_of(
            seq!["tabs"@, "eval"@] + args,
        ) == Err::<CommandView, Seq<char>>("tabs eval needs JS to run"@),
        args.len() > 0 && i64_value(args[0]) is None ==> command_of(
            seq!["tabs"@, "eval"@] + args,
        ) == Err::<CommandView, Seq<char>>("invalid tab id: "@ + args[0]),
{
    lemma_verbs();
    lemma_tabs("eval"@, args);
    lemma_tabs("eval"@, Seq::empty());
}

/// `tabs open` takes its first argument as it is, where there is one.
pub proof fn law_open(url: Seq<char>, rest: Seq<Seq<char>>)
    ensures
        command_of(seq!["tabs"@, "open"@]) == Ok::<CommandView, Seq<char>>(
            CommandView::TabsOpen { url: None },
        ),
        command_of(seq!["tabs"@, "open"@, url] + rest) == Ok::<CommandView, Seq<char>>(
            CommandView::TabsOpen { url: Some(url) },
        ),
{
    lemma_verbs();
    lemma_tabs("open"@, seq![url] + rest);
    lemma_tabs("open"@, Seq::empty());
    assert(seq!["tabs"@, "open"@, url] + rest =~= seq!["tabs"@, "open"@] + (seq![url] + rest));
}

/// `tabs close` takes as many tabs as it has arguments, and each argument names the tab
/// in its place.
pub proof fn law_close(args: Seq<Seq<char>>, ids: Seq<i64>)
    requires
        ids.len() == args.len() > 0,
        forall|i: int| 0 <= i < ids.len() ==> i64_value(#[trigger] args[i]) == Some(ids[i]),
    ensures
        command_of(seq!["tabs"@, "close"@] + args) == Ok::<CommandView, Seq<char>>(
            CommandView::TabsClose { ids },
        ),
{
    lemma_verbs();
    lemma_tabs("close"@, args);
    lemma_all_ids(args, ids);
}

proof fn lemma_all_ids(args: Seq<Seq<char>>, ids: Seq<i64>)
    requires
        ids.len() == args.len(),
        forall|i: int| 0 <= i < ids.len() ==> i64_value(#[trigger] args[i]) == Some(ids[i]),
    ensures
        tab_ids_of(args) == Ok::<Seq<i64>, Seq<char>>(ids),
    decreases args.len(),
{
    if args.len() > 0 {
        lemma_all_ids(args.drop_last(), ids.drop_last());
        assert(i64_value(args[args.len() - 1]) == Some(ids[args.len() - 1]));
        assert(ids =~= ids.drop_last().push(ids.last()));
    } else {
        assert(ids =~= Seq::empty());
    }
}

/// Tabs are closed by their identifiers in decimal notation: all of them, in order.
pub proof fn law_close_by_decimals(ids: Seq<i64>)
    requires
        ids.len() > 0,
    ensures
        command_of(
            seq!["tabs"@, "close"@] + Seq::new(ids.len(), |i: int| integer_text(ids[i] as int)),
        ) == Ok::<CommandView, Seq<char>>(CommandView::TabsClose { ids }),
{
    let args = Seq::new(ids.len(), |i: int| integer_text(ids[i] as int));
    assert forall|i: int| 0 <= i < ids.len() implies i64_value(#[trigger] args[i]) == Some(
        ids[i],
    ) by {
        law_integers_read_back(ids[i]);
    }
    law_close(args, ids);
}

/// `tabs close` needs an argument, and tells the first that names no tab.
pub proof fn law_close_refuses(before: Seq<Seq<char>>, wrong: Seq<char>, after: Seq<Seq<char>>)
    requires
        forall|i: int| 0 <= i < before.len() ==> i64_value(#[trigger] before[i]) is Some,
        i64_value(wrong) is None,
    ensures
        command_of(seq!["tabs"@, "close"@]) == Err::<CommandView, Seq<char>>(
            "tabs close needs at least one tab id"@,
        ),
        command_of(seq!["tabs"@, "close"@] + (before + seq![wrong] + after)) == Err::<
            CommandView,
            Seq<char>,
        >("invalid tab id: "@ + wrong),
{
    lemma_verbs();
    let args = before + seq![wrong] + after;
    lemma_tabs("close"@, args);
    lemma_tabs("close"@, Seq::empty());
    let ids = Seq::new(before.len(), |i: int| i64_value(before[i])->0);
    lemma_all_ids(before, ids);
    let n = before.len() + 1;
    assert(args.take(n as int) =~= before.push(wrong));
    assert(args.take(n as int).drop_last() =~= before);
    lemma_invalid_id_stays(args, n as int);
}

/// One of the options of `tabs move`, with its value as it is written.
pub ghost enum MoveOption {
    Index(Seq<char>),
    Window(Seq<char>),
}

impl MoveOption {
    /// The value of the option.
    pub open spec fn value(self) -> Seq<char> {
        match self {
            MoveOption::Index(text) => text,
            MoveOption::Window(text) => text,
        }
    }
}

/// Options as they are written.
pub open spec fn written_options(options: Seq<MoveOption>) -> Seq<Seq<char>>
    decreases options.len(),
{
    if options.len() == 0 {
        Seq::empty()
    } else {
        written_options(options.drop_last()) + match options.last() {
            MoveOption::Index(text) => seq!["--index"@, text],
            MoveOption::Window(text) => seq!["--window"@, text],
        }
    }
}

/// The last position among options.
pub open spec fn last_index(options: Seq<MoveOption>) -> Option<i64>
    decreases options.len(),
{
    if options.len() == 0 {
        None
    } else if let MoveOption::Index(text) = options.last() {
        i64_value(text)
    } else {
        last_index(options.drop_last())
    }
}

/// The last window among options.
pub open spec fn last_window(options: Seq<MoveOption>) -> Option<i64>
    decreases options.len(),
{
    if options.len() == 0 {
        None
    } else if let MoveOption::Window(text) = options.last() {
        i64_value(text)
    } else {
        last_window(options.drop_last())
    }
}

/// Options of `tabs move` in any number and order: the last of each kind counts, a
/// position is needed, and the first that is wrong is told.
pub proof fn law_move(
    tab: Seq<char>,
    id: i64,
    options: Seq<MoveOption>,
    wrong: Seq<char>,
    rest: Seq<Seq<char>>,
)
    requires
        i64_value(tab) == Some(id),
        forall|i: int|
            0 <= i < options.len() ==> i64_value((#[trigger] options[i]).value()) is Some,
    ensures
        ({
            let words = seq!["tabs"@, "move"@, tab] + written_options(options);
            &&& last_index(options) matches Some(index) ==> command_of(words) == Ok::<
                CommandView,
                Seq<char>,
            >(CommandView::TabsMove { id, index, window: last_window(options) })
            &&& last_index(options) is None ==> command_of(words) == Err::<CommandView, Seq<char>>(
                "tabs move needs --index"@,
            )
            &&& command_of(words + seq!["--index"@]) == Err::<CommandView, Seq<char>>(
                "--index needs a value"@,
            )
            &&& command_of(words + seq!["--window"@]) == Err::<CommandView, Seq<char>>(
                "--window needs a value"@,
            )
            &&& i64_value(wrong) is None ==> command_of(words + seq!["--index"@, wrong] + rest)
                == Err::<CommandView, Seq<char>>("invalid index: "@ + wrong)
            &&& i64_value(wrong) is None ==> command_of(words + seq!["--window"@, wrong] + rest)
                == Err::<CommandView, Seq<char>>("invalid window id: "@ + wrong)
            &&& wrong != "--index"@ && wrong != "--window"@ ==> command_of(
                words + seq![wrong] + rest,
            ) == Err::<CommandView, Seq<char>>("unknown option for tabs move: "@ + wrong)
        }),
{
    reveal_strlit("--index");
    reveal_strlit("--window");
    assert("--index"@.len() != "--window"@.len());
    let words = seq!["tabs"@, "move"@, tab] + written_options(options);
    lemma_move(tab, id, options, Seq::empty());
    assert(words + Seq::<Seq<char>>::empty() =~= words);
    lemma_move(tab, id, options, seq!["--index"@]);
    lemma_move(tab, id, options, seq!["--window"@]);
    lemma_move(tab, id, options, seq!["--index"@, wrong] + rest);
    assert(words + seq!["--index"@, wrong] + rest =~= words + (seq!["--index"@, wrong] + rest));
    lemma_move(tab, id, options, seq!["--window"@, wrong] + rest);
    assert(words + seq!["--window"@, wrong] + rest =~= words + (seq!["--window"@, wrong] + rest));
    lemma_move(tab, id, options, seq![wrong] + rest);
    assert(words + seq![wrong] + rest =~= words + (seq![wrong] + rest));
}

proof fn lemma_move(tab: Seq<char>, id: i64, options: Seq<MoveOption>, rest: Seq<Seq<char>>)
    requires
        i64_value(tab) == Some(id),
        forall|i: int|
            0 <= i < options.len() ==> i64_value((#[trigger] options[i]).value()) is Some,
    ensures
        command_of(seq!["tabs"@, "move"@, tab] + written_options(options) + rest)
            == match move_options(rest, last_index(options), last_window(options)) {
            Ok((Some(index), window)) => Ok(CommandView::TabsMove { id, index, window }),
            Ok((None, _)) => Err("tabs move needs --index"@),
            Err(message) => Err(message),
        },
{
    lemma_verbs();
    let args = seq![tab] + (written_options(options) + rest);
    lemma_tabs("move"@, args);
    assert(seq!["tabs"@, "move"@, tab] + written_options(options) + rest =~= seq![
        "tabs"@,
        "move"@,
    ] + args);
    assert(args.skip(1) =~= written_options(options) + rest);
    lemma_options_are_read(options, rest);
}

proof fn lemma_options_are_read(options: Seq<MoveOption>, rest: Seq<Seq<char>>)
    requires
        forall|i: int|
            0 <= i < options.len() ==> i64_value((#[trigger] options[i]).value()) is Some,
    ensures
        move_options(written_options(options) + rest, None, None) == move_options(
            rest,
            last_index(options),
            last_window(options),
        ),
    decreases options.len(),
{
    if options.len() == 0 {
        assert(written_options(options) + rest =~= rest);
    } else {
        reveal_strlit("--index");
        reveal_strlit("--window");
        assert("--index"@.len() != "--window"@.len());
        let init = options.drop_last();
        let w = written_options(init);
        assert(i64_value(options[options.len() - 1].value()) is Some);
        assert forall|i: int| 0 <= i < init.len() implies i64_value(
            (#[trigger] init[i]).value(),
        ) is Some by {
            assert(options[i] == init[i]);
        }
        match options.last() {
            MoveOption::Index(text) => {
                let next = seq!["--index"@, text] + rest;
                assert(written_options(options) + rest =~= w + next);
                assert(next.skip(2) =~= rest);
                lemma_options_are_read(init, next);
            },
            MoveOption::Window(text) => {
                let next = seq!["--window"@, text] + rest;
                assert(written_options(options) + rest =~= w + next);
                assert(next.skip(2) =~= rest);
                lemma_options_are_read(init, next);
            },
        }
    }
}

/// `tabs move` needs a tab before its options.
pub proof fn law_move_needs_a_tab(wrong: Seq<char>, rest: Seq<Seq<char>>)
    requires
        i64_value(wrong) is None,
    ensures
        command_of(seq!["tabs"@, "move"@]) == Err::<CommandView, Seq<char>>(
            "tabs move needs a tab id and --index"@,
        ),
        command_of(seq!["tabs"@, "move"@, wrong] + rest) == Err::<CommandView, Seq<char>>(
            "invalid tab id: "@ + wrong,
        ),
{
    lemma_verbs();
    lemma_tabs("move"@, Seq::empty());
    lemma_tabs("move"@, seq![wrong] + rest);
    assert(seq!["tabs"@, "move"@, wrong] + rest =~= seq!["tabs"@, "move"@] + (seq![wrong] + rest));
}

/// Files for a screenshot as they are written.
pub open spec fn written_files(files: Seq<Seq<char>>) -> Seq<Seq<char>>
    decreases files.len(),
{
    if files.len() == 0 {
        Seq::empty()
    } else {
        written_files(files.drop_last()) + seq!["--out"@, files.last()]
    }
}

/// `tabs screenshot` takes the tab that its first argument names, and the last file that
/// its options name, where there is one. The first option that is wrong is told.
pub proof fn law_screenshot_options(
    tab: Seq<char>,
    id: i64,
    files: Seq<Seq<char>>,
    wrong: Seq<char>,
    rest: Seq<Seq<char>>,
)
    requires
        i64_value(tab) == Some(id),
    ensures
        ({
            let words = seq!["tabs"@, "screenshot"@, tab] + written_files(files);
            &&& files.len() == 0 ==> command_of(words) == Ok::<CommandView, Seq<char>>(
                CommandView::TabsScreenshot { id, out: None },
            )
            &&& files.len() > 0 ==> command_of(words) == Ok::<CommandView, Seq<char>>(
                CommandView::TabsScreenshot { id, out: Some(files.last()) },
            )
            &&& command_of(words + seq!["--out"@]) == Err::<CommandView, Seq<char>>(
                "--out needs a value"@,
            )
            &&& wrong != "--out"@ ==> command_of(words + seq![wrong] + rest) == Err::<
                CommandView,
                Seq<char>,
            >("unknown option for tabs screenshot: "@ + wrong)
        }),
{
    let words = seq!["tabs"@, "screenshot"@, tab] + written_files(files);
    lemma_screenshot(tab, id, files, Seq::empty());
    assert(words + Seq::<Seq<char>>::empty() =~= words);
    lemma_screenshot(tab, id, files, seq!["--out"@]);
    lemma_screenshot(tab, id, files, seq![wrong] + rest);
    assert(words + seq![wrong] + rest =~= words + (seq![wrong] + rest));
}

spec fn last_file(files: Seq<Seq<char>>) -> Option<Seq<char>> {
    if files.len() == 0 {
        None
    } else {
        Some(files.last())
    }
}

proof fn lemma_screenshot(tab: Seq<char>, id: i64, files: Seq<Seq<char>>, rest: Seq<Seq<char>>)
    requires
        i64_value(tab) == Some(id),
    ensures
        command_of(seq!["tabs"@, "screenshot"@, tab] + written_files(files) + rest)
            == match screenshot_options(rest, last_file(files)) {
            Ok(out) => Ok(CommandView::TabsScreenshot { id, out }),
            Err(message) => Err(message),
        },
{
    lemma_verbs();
    let args = seq![tab] + (written_files(files) + rest);
    lemma_tabs("screenshot"@, args);
    assert(seq!["tabs"@, "screenshot"@, tab] + written_files(files) + rest =~= seq![
        "tabs"@,
        "screenshot"@,
    ] + args);
    assert(args.skip(1) =~= written_files(files) + rest);
    lemma_files_are_read(files, rest);
}

proof fn lemma_files_are_read(files: Seq<Seq<char>>, rest: Seq<Seq<char>>)
    ensures
        screenshot_options(written_files(files) + rest, None) == screenshot_options(
            rest,
            last_file(files),
        ),
    decreases files.len(),
{
    if files.len() == 0 {
        assert(written_files(files) + rest =~= rest);
    } else {
        let init = files.drop_last();
        let next = seq!["--out"@, files.last()] + rest;
        assert(written_files(files) + rest =~= written_files(init) + next);
        assert(next.skip(2) =~= rest);
        lemma_files_are_read(init, next);
    }
}

/// `tabs screenshot` needs a tab before its options.
pub proof fn law_screenshot_needs_a_tab(wrong: Seq<char>, rest: Seq<Seq<char>>)
    requires
        i64_value(wrong) is None,
    ensures
        command_of(seq!["tabs"@, "screenshot"@]) == Err::<CommandView, Seq<char>>(
            "tabs screenshot needs a tab id"@,
        ),
        command_of(seq!["tabs"@, "screenshot"@, wrong] + rest) == Err::<CommandView, Seq<char>>(
            "invalid tab id: "@ + wrong,
        ),
{
    lemma_verbs();
    lemma_tabs("screenshot"@, Seq::empty());
    lemma_tabs("screenshot"@, seq![wrong] + rest);
    assert(seq!["tabs"@, "screenshot"@, wrong] + rest =~= seq!["tabs"@, "screenshot"@] + (seq![
        wrong,
    ] + rest));
}

/// A group needs one of its verbs, and there are no other groups.
pub proof fn law_unknown_commands(group: Seq<char>, verb: Seq<char>, rest: Seq<Seq<char>>)
    ensures
        command_of(seq!["tabs"@]) == Err::<CommandView, Seq<char>>(
            "'"@ + "tabs"@ + "' needs a verb; see --help"@,
        ),
        command_of(seq!["windows"@]) == Err::<CommandView, Seq<char>>(
            "'"@ + "windows"@ + "' needs a verb; see --help"@,
        ),
        command_of(seq!["tabs"@, ""@] + rest) == command_of(seq!["tabs"@]),
        command_of(seq!["windows"@, ""@] + rest) == command_of(seq!["windows"@]),
        !seq![
            "list"@,
            "content"@,
            "open"@,
            "navigate"@,
            "activate"@,
            "eval"@,
            "move"@,
            "screenshot"@,
            "close"@,
            ""@,
        ].contains(verb) ==> command_of(seq!["tabs"@, verb] + rest) == Err::<
            CommandView,
            Seq<char>,
        >("unknown command: "@ + "tabs"@ + " "@ + verb + "; see --help"@),
        verb != "list"@ && verb != ""@ ==> command_of(seq!["windows"@, verb] + rest) == Err::<
            CommandView,
            Seq<char>,
        >("unknown command: "@ + "windows"@ + " "@ + verb + "; see --help"@),
        group != "tabs"@ && group != "windows"@ ==> command_of(seq![group, verb] + rest) == Err::<
            CommandView,
            Seq<char>,
        >("unknown command: "@ + group + " "@ + verb + "; see --help"@),
        group != "tabs"@ && group != "windows"@ ==> command_of(seq![group]) == command_of(
            seq![group, ""@],
        ),
{
    lemma_verbs();
    lemma_tabs(""@, rest);
    lemma_tabs(verb, rest);
    let verbs = seq![
        "list"@,
        "content"@,
        "open"@,
        "navigate"@,
        "activate"@,
        "eval"@,
        "move"@,
        "screenshot"@,
        "close"@,
        ""@,
    ];
    assert(verbs[0] == "list"@ && verbs[1] == "content"@ && verbs[2] == "open"@ && verbs[3]
        == "navigate"@ && verbs[4] == "activate"@ && verbs[5] == "eval"@ && verbs[6] == "move"@
        && verbs[7] == "screenshot"@ && verbs[8] == "close"@ && verbs[9] == ""@);
}

/// Each command asks for the method of its name.
pub proof fn law_methods(command: CommandView)
    ensures
        command.method() == match command {
            CommandView::TabsList => "tabs.list"@,
            CommandView::TabsContent { .. } => "tabs.content"@,
            CommandView::TabsOpen { .. } => "tabs.open"@,
            CommandView::TabsNavigate { .. } => "tabs.navigate"@,
            CommandView::TabsActivate { .. } => "tabs.activate"@,
            CommandView::TabsEval { .. } => "tabs.eval"@,
            CommandView::TabsMove { .. } => "tabs.move"@,
            CommandView::TabsScreenshot { .. } => "tabs.screenshot"@,
            CommandView::TabsClose { .. } => "tabs.close"@,
            CommandView::WindowsList => "windows.list"@,
        },
{
}

/// A command puts what it was given into the parameters, under these names and no others.
pub proof fn law_params(
    id: i64,
    index: i64,
    window: i64,
    ids: Seq<i64>,
    text: Seq<char>,
    out: Option<Seq<char>>,
)
    ensures
        ({
            let tab = Tree::Integer(id as int);
            let only_tab = Tree::Object(map!["id"@ => tab]);
            &&& CommandView::TabsList.params() == Tree::Object(Map::empty())
            &&& CommandView::WindowsList.params() == Tree::Object(Map::empty())
            &&& (CommandView::TabsContent { id }).params() == only_tab
            &&& (CommandView::TabsActivate { id }).params() == only_tab
            &&& (CommandView::TabsScreenshot { id, out }).params() == only_tab
            &&& (CommandView::TabsOpen { url: None }).params() == Tree::Object(
                map!["url"@ => Tree::Null],
            )
            &&& (CommandView::TabsOpen { url: Some(text) }).params() == Tree::Object(
                map!["url"@ => Tree::String(text)],
            )
            &&& (CommandView::TabsNavigate { id, url: text }).params() == Tree::Object(
                map!["id"@ => tab, "url"@ => Tree::String(text)],
            )
            &&& (CommandView::TabsEval { id, code: text }).params() == Tree::Object(
                map!["id"@ => tab, "code"@ => Tree::String(text)],
            )
            &&& (CommandView::TabsMove { id, index, window: None }).params() == Tree::Object(
                map![
                    "id"@ => tab,
                    "index"@ => Tree::Integer(index as int),
                    "windowId"@ => Tree::Null,
                ],
            )
            &&& (CommandView::TabsMove { id, index, window: Some(window) }).params()
                == Tree::Object(
                map![
                    "id"@ => tab,
                    "index"@ => Tree::Integer(index as int),
                    "windowId"@ => Tree::Integer(window as int),
                ],
            )
            &&& (CommandView::TabsClose { ids }).params() == Tree::Object(
                map![
                    "ids"@ => Tree::Array(
                        Seq::new(ids.len(), |i: int| Tree::Integer(ids[i] as int)),
                    ),
                ],
            )
        }),
{
    lemma_no_members();
    lemma_one_member(CommandView::TabsContent { id });
    lemma_one_member(CommandView::TabsActivate { id });
    lemma_one_member(CommandView::TabsScreenshot { id, out });
    lemma_one_member(CommandView::TabsOpen { url: None });
    lemma_one_member(CommandView::TabsOpen { url: Some(text) });
    lemma_one_member(CommandView::TabsClose { ids });
    assert(ids.map_values(|id: i64| Tree::Integer(id as int)) =~= Seq::new(
        ids.len(),
        |i: int| Tree::Integer(ids[i] as int),
    ));
    lemma_two_members(CommandView::TabsNavigate { id, url: text });
    lemma_two_members(CommandView::TabsEval { id, code: text });
    lemma_three_members(CommandView::TabsMove { id, index, window: None });
    lemma_three_members(CommandView::TabsMove { id, index, window: Some(window) });
}

proof fn lemma_no_members()
    ensures
        CommandView::TabsList.params() == Tree::Object(Map::empty()),
        CommandView::WindowsList.params() == Tree::Object(Map::empty()),
{
}

proof fn lemma_one_member(command: CommandView)
    requires
        command.param_members().len() == 1,
    ensures
        ({
            let m = command.param_members();
            command.params() == Tree::Object(map![m[0].0 => m[0].1])
        }),
{
    let m = command.param_members();
    reveal_with_fuel(insert_all, 2);
    assert(m.drop_last() =~= Seq::empty());
}

proof fn lemma_two_members(command: CommandView)
    requires
        command.param_members().len() == 2,
    ensures
        ({
            let m = command.param_members();
            command.params() == Tree::Object(map![m[0].0 => m[0].1, m[1].0 => m[1].1])
        }),
{
    let m = command.param_members();
    reveal_with_fuel(insert_all, 3);
    assert(m.drop_last() =~= seq![m[0]]);
    assert(m.drop_last().drop_last() =~= Seq::empty());
}

proof fn lemma_three_members(command: CommandView)
    requires
        command.param_members().len() == 3,
    ensures
        ({
            let m = command.param_members();
            command.params() == Tree::Object(
                map![m[0].0 => m[0].1, m[1].0 => m[1].1, m[2].0 => m[2].1],
            )
        }),
{
    let m = command.param_members();
    reveal_with_fuel(insert_all, 4);
    assert(m.drop_last() =~= seq![m[0], m[1]]);
    assert(m.drop_last().drop_last() =~= seq![m[0]]);
    assert(m.drop_last().drop_last().drop_last() =~= Seq::empty());
}

/// Flags in any number and order before a command: the command runs as they say, or is
/// refused for its own reason.
pub proof fn law_any_flags_before_a_command(
    flags: Seq<Flag>,
    browser: Seq<char>,
    words: Seq<Seq<char>>,
    rest: Seq<Seq<char>>,
)
    requires
        is_last_browser(flags, browser),
    ensures
        words.len() > 0 && words[0] != "--plain"@ && words[0] != "--browser"@ && words[0] != "-h"@
            && words[0] != "--help"@ ==> plan_of(written_flags(flags) + words) == match command_of(
            words,
        ) {
            Ok(command) => PlanView::Run { plain: flags.contains(Flag::Plain), browser, command },
            Err(message) => PlanView::Invalid(message),
        },
        plan_of(written_flags(flags) + seq!["-h"@] + rest) == PlanView::Help,
        plan_of(written_flags(flags) + seq!["--help"@] + rest) == PlanView::Help,
        plan_of(written_flags(flags)) == PlanView::Usage,
        plan_of(written_flags(flags) + seq!["--browser"@]) == PlanView::Invalid(
            "--browser needs a value"@,
        ),
{
    law_any_flags(flags, browser, words, rest);
}

/// A command is seen as it is.
pub proof fn law_command_is_seen_whole(command: Command)
    ensures
        match command {
            Command::TabsList => command@ == CommandView::TabsList,
            Command::TabsContent { id } => command@ == (CommandView::TabsContent { id }),
            Command::TabsOpen { url: None } => command@ == (CommandView::TabsOpen { url: None }),
            Command::TabsOpen { url: Some(url) } => command@ == (CommandView::TabsOpen {
                url: Some(url@),
            }),
            Command::TabsNavigate { id, url } => command@ == (CommandView::TabsNavigate {
                id,
                url: url@,
            }),
            Command::TabsActivate { id } => command@ == (CommandView::TabsActivate { id }),
            Command::TabsEval { id, code } => command@ == (CommandView::TabsEval { id, code: code@ }),
            Command::TabsMove { id, index, window } => command@ == (CommandView::TabsMove {
                id,
                index,
                window,
            }),
            Command::TabsScreenshot { id, out: None } => command@ == (CommandView::TabsScreenshot {
                id,
                out: None,
            }),
            Command::TabsScreenshot { id, out: Some(out) } => command@ == (
            CommandView::TabsScreenshot { id, out: Some(out@) }),
            Command::TabsClose { ids } => command@ == (CommandView::TabsClose { ids: ids@ }),
            Command::WindowsList => command@ == CommandView::WindowsList,
        },
{
}

/// A plan is seen as it is.
pub proof fn law_plan_is_seen_whole(plan: Plan)
    ensures
        match plan {
            Plan::Help => plan@ == PlanView::Help,
            Plan::Usage => plan@ == PlanView::Usage,
            Plan::Invalid(message) => plan@ == PlanView::Invalid(message@),
            Plan::Run { plain, browser, command } => plan@ == (PlanView::Run {
                plain,
                browser: browser@,
                command: command@,
            }),
        },
{
}

} // verus!
