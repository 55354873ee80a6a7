//! What a command puts out.

use crate::base64::{
    data_url_bytes, data_url_content, encoding, law_decoding_undoes_encoding,
    law_payload_is_the_rest, padding,
};
use crate::command::{id_member, tab_id_of, Command, CommandView};
use crate::json::outside::{
    floats_read_back, lemma_object_reads_back, printed_pretty, reads_back, text_holds,
};
use crate::json::tree::{insert_all, lemma_nested_deeper, Tree};
use crate::json::value::{shown, trees, Json};
use crate::protocol::{line_outcome, object, read_reply};
use crate::text::{concatenated, law_integers_read_back, optional, viewed};
use vstd::prelude::*;
use vstd::string::StringExecFns;
use vstd::utf8::encode_utf8;

verus! {

/// What a command puts out.
#[derive(Debug, PartialEq, Eq)]
pub enum Output {
    /// Text, to be shown.
    Text(String),
    /// Bytes, to be put out as they are.
    Bytes(Vec<u8>),
    /// Bytes for a file, and text to be shown once they are written.
    File { path: String, bytes: Vec<u8>, report: Option<String> },
}

/// What a command puts out.
pub ghost enum OutputView {
    Text(Seq<char>),
    Bytes(Seq<u8>),
    File { path: Seq<char>, bytes: Seq<u8>, report: Option<Seq<char>> },
}

impl View for Output {
    type V = OutputView;

    open spec fn view(&self) -> OutputView {
        match *self {
            Output::Text(text) => OutputView::Text(text@),
            Output::Bytes(bytes) => OutputView::Bytes(bytes@),
            Output::File { path, bytes, report } => OutputView::File {
                path: path@,
                bytes: bytes@,
                report: optional(report),
            },
        }
    }
}

/// The text of a string, and no text for anything else.
pub open spec fn text_or_empty(tree: Tree) -> Seq<char> {
    match tree {
        Tree::String(text) => text,
        _ => ""@,
    }
}

/// Each of some texts, and a line end behind it.
pub open spec fn lines(texts: Seq<Seq<char>>) -> Seq<char>
    decreases texts.len(),
{
    if texts.len() == 0 {
        Seq::empty()
    } else {
        lines(texts.drop_last()) + texts.last() + "\n"@
    }
}

/// The items of an array; anything else has none.
pub open spec fn items_of(tree: Tree) -> Seq<Tree> {
    match tree {
        Tree::Array(items) => items,
        _ => Seq::empty(),
    }
}

/// A tab in line-oriented output.
pub open spec fn tab_line(tab: Tree) -> Seq<char> {
    shown(tab.at("id"@)) + "\t"@ + text_or_empty(tab.at("title"@)) + "\t"@ + text_or_empty(
        tab.at("url"@),
    )
}

/// A window in line-oriented output.
pub open spec fn window_line(window: Tree) -> Seq<char> {
    shown(window.at("id"@)) + "\tfocused="@ + shown(window.at("focused"@)) + "\ttabs="@ + shown(
        window.at("tabCount"@),
    )
}

/// What was evaluated, in line-oriented output: a string without its quotes, and
/// anything else as JSON.
pub open spec fn value_line(tree: Tree) -> Seq<char> {
    match tree {
        Tree::String(text) => text,
        _ => shown(tree),
    }
}

/// The line-oriented output of a command. A screenshot is no text.
pub open spec fn plain_text(command: CommandView, result: Tree) -> Seq<char> {
    match command {
        CommandView::TabsList => lines(items_of(result).map_values(|tab: Tree| tab_line(tab))),
        CommandView::TabsContent { .. } => text_or_empty(result.at("text"@)) + "\n"@,
        CommandView::TabsOpen { .. } | CommandView::TabsNavigate { .. }
        | CommandView::TabsActivate { .. } => shown(result.at("id"@)) + "\n"@,
        CommandView::TabsEval { .. } => value_line(result.at("result"@)) + "\n"@,
        CommandView::TabsMove { .. } => shown(result.at("windowId"@)) + "\t"@ + shown(
            result.at("index"@),
        ) + "\n"@,
        CommandView::TabsClose { .. } => lines(
            items_of(result.at("closed"@)).map_values(|id: Tree| shown(id)),
        ),
        CommandView::WindowsList => lines(
            items_of(result).map_values(|window: Tree| window_line(window)),
        ),
        CommandView::TabsScreenshot { .. } => Seq::empty(),
    }
}

/// A value as indented JSON.
pub open spec fn json_text(tree: Tree) -> Seq<char> {
    printed_pretty(tree) + "\n"@
}

/// What is reported of a screenshot that went to a file.
pub open spec fn screenshot_report(id: i64, path: Seq<char>, size: nat) -> Tree {
    object(
        seq![
            id_member(id),
            ("path"@, Tree::String(path)),
            ("bytes"@, Tree::Integer(size as int)),
        ],
    )
}

/// What a screenshot puts out: its bytes, or a file with a report.
pub open spec fn screenshot_output(
    id: i64,
    out: Option<Seq<char>>,
    plain: bool,
    result: Tree,
) -> Result<OutputView, Seq<char>> {
    match result.at("dataUrl"@).as_str() {
        None => Err("host returned no screenshot data"@),
        Some(url) => match data_url_content(url) {
            Err(message) => Err(message),
            Ok(bytes) => match out {
                None => Ok(OutputView::Bytes(bytes)),
                Some(path) => Ok(
                    OutputView::File {
                        path,
                        bytes,
                        report: if plain {
                            None
                        } else {
                            Some(json_text(screenshot_report(id, path, bytes.len())))
                        },
                    },
                ),
            },
        },
    }
}

/// What a command puts out for the result that the extension replied with.
pub open spec fn output_of(command: CommandView, plain: bool, result: Tree) -> Result<
    OutputView,
    Seq<char>,
> {
    match command {
        CommandView::TabsScreenshot { id, out } => screenshot_output(id, out, plain, result),
        _ => if plain {
            Ok(OutputView::Text(plain_text(command, result)))
        } else {
            Ok(OutputView::Text(json_text(result)))
        },
    }
}

/// What a command puts out for the line that its host sent in reply.
pub open spec fn output_for_line(command: CommandView, plain: bool, line: Seq<char>) -> Result<
    OutputView,
    Seq<char>,
> {
    match line_outcome(line) {
        Ok(result) => output_of(command, plain, result),
        Err(message) => Err(message),
    }
}

fn string_or_empty(json: Option<&Json>) -> (r: String)
    ensures
        r@ == text_or_empty(
            match json {
                Some(json) => json@,
                None => Tree::Null,
            },
        ),
{
    match json {
        Some(json) => match json.as_str() {
            Some(text) => text.to_owned(),
            None => "".to_owned(),
        },
        None => "".to_owned(),
    }
}

fn items(json: Json) -> (r: Vec<Json>)
    ensures
        trees(r@) == items_of(json@),
{
    match json.into_array() {
        Some(items) => items,
        None => {
            let none: Vec<Json> = Vec::new();
            assert(trees(none@) =~= Seq::empty());
            none
        },
    }
}

fn write_tab(tab: Json) -> (r: String)
    ensures
        r@ == tab_line(tab@),
{
    let title = string_or_empty(tab.get("title"));
    let url = string_or_empty(tab.get("url"));
    let mut r = tab.take("id").into_text();
    r.append("\t");
    r.append(title.as_str());
    r.append("\t");
    r.append(url.as_str());
    r
}

fn write_window(window: Json) -> (r: String)
    ensures
        r@ == window_line(window@),
{
    proof {
        reveal_strlit("id");
        reveal_strlit("focused");
        reveal_strlit("tabCount");
        assert("id"@.len() != "focused"@.len());
        assert("id"@.len() != "tabCount"@.len());
        assert("focused"@.len() != "tabCount"@.len());
    }
    let (id, rest) = window.pull("id");
    let (focused, rest) = rest.pull("focused");
    let count = rest.take("tabCount");
    let mut r = id.into_text();
    r.append("\tfocused=");
    r.append(focused.into_text().as_str());
    r.append("\ttabs=");
    r.append(count.into_text().as_str());
    r
}

fn write_tabs(tabs: Vec<Json>) -> (r: String)
    ensures
        r@ == lines(trees(tabs@).map_values(|tab: Tree| tab_line(tab))),
{
    let ghost texts = trees(tabs@).map_values(|tab: Tree| tab_line(tab));
    let ghost all = tabs@;
    let mut r = String::new();
    for tab in it: tabs
        invariant
            it.seq() == all,
            texts == trees(all).map_values(|tab: Tree| tab_line(tab)),
            r@ == lines(texts.take(it.index() as int)),
    {
        let ghost i = it.index() as int;
        r.append(write_tab(tab).as_str());
        r.append("\n");
        assert(texts.take(i + 1).drop_last() =~= texts.take(i));
        assert(texts.take(i + 1).last() == tab_line(tab@));
    }
    assert(texts.take(all.len() as int) =~= texts);
    r
}

fn write_windows(windows: Vec<Json>) -> (r: String)
    ensures
        r@ == lines(trees(windows@).map_values(|window: Tree| window_line(window))),
{
    let ghost texts = trees(windows@).map_values(|window: Tree| window_line(window));
    let ghost all = windows@;
    let mut r = String::new();
    for window in it: windows
        invariant
            it.seq() == all,
            texts == trees(all).map_values(|window: Tree| window_line(window)),
            r@ == lines(texts.take(it.index() as int)),
    {
        let ghost i = it.index() as int;
        r.append(write_window(window).as_str());
        r.append("\n");
        assert(texts.take(i + 1).drop_last() =~= texts.take(i));
        assert(texts.take(i + 1).last() == window_line(window@));
    }
    assert(texts.take(all.len() as int) =~= texts);
    r
}

fn write_values(values: Vec<Json>) -> (r: String)
    ensures
        r@ == lines(trees(values@).map_values(|value: Tree| shown(value))),
{
    let ghost texts = trees(values@).map_values(|value: Tree| shown(value));
    let ghost all = values@;
    let mut r = String::new();
    for value in it: values
        invariant
            it.seq() == all,
            texts == trees(all).map_values(|value: Tree| shown(value)),
            r@ == lines(texts.take(it.index() as int)),
    {
        let ghost i = it.index() as int;
        let ghost tree = value@;
        r.append(value.into_text().as_str());
        r.append("\n");
        assert(texts.take(i + 1).drop_last() =~= texts.take(i));
        assert(texts.take(i + 1).last() == shown(tree));
    }
    assert(texts.take(all.len() as int) =~= texts);
    r
}

fn write_plain(command: &Command, result: Json) -> (r: String)
    ensures
        r@ == plain_text(command@, result@),
{
    match command {
        Command::TabsList => write_tabs(items(result)),
        Command::TabsContent { .. } => {
            let text = string_or_empty(result.get("text"));
            concatenated(text.as_str(), "\n")
        },
        Command::TabsOpen { .. } | Command::TabsNavigate { .. } | Command::TabsActivate { .. } => {
            let id = result.take("id").into_text();
            concatenated(id.as_str(), "\n")
        },
        Command::TabsEval { .. } => {
            let value = result.take("result");
            let text = match value.as_str() {
                Some(text) => text.to_owned(),
                None => value.into_text(),
            };
            concatenated(text.as_str(), "\n")
        },
        Command::TabsMove { .. } => {
            proof {
                reveal_strlit("windowId");
                reveal_strlit("index");
                assert("windowId"@.len() != "index"@.len());
            }
            let (window, rest) = result.pull("windowId");
            let mut r = window.into_text();
            r.append("\t");
            r.append(rest.take("index").into_text().as_str());
            r.append("\n");
            r
        },
        Command::TabsClose { .. } => write_values(items(result.take("closed"))),
        Command::WindowsList => write_windows(items(result)),
        Command::TabsScreenshot { .. } => String::new(),
    }
}

/// One JSON document and a line end, which are read as a value with the line end and
/// without it.
pub open spec fn is_document(text: Seq<char>, tree: Tree) -> bool {
    &&& text.len() > 0
    &&& text.last() == '\n'
    &&& text_holds(text, tree)
    &&& text_holds(text.drop_last(), tree)
}

/// A value as indented JSON on lines of its own, which are read back as the value.
pub fn write_json(json: Json) -> (r: String)
    ensures
        r@ == json_text(json@),
        reads_back(json@) ==> is_document(r@, json@),
{
    let text = json.into_pretty_text();
    let r = concatenated(text.as_str(), "\n");
    proof {
        reveal_strlit("\n");
        assert(r@.drop_last() =~= text@);
    }
    r
}

/// What is reported of a screenshot is read back.
pub proof fn law_report_reads_back(id: i64, path: Seq<char>, size: nat)
    ensures
        reads_back(screenshot_report(id, path, size)),
{
    lemma_object_reads_back(
        seq![
            id_member(id),
            ("path"@, Tree::String(path)),
            ("bytes"@, Tree::Integer(size as int)),
        ],
        126,
    );
}

fn screenshot(id: i64, out: Option<String>, plain: bool, result: Json) -> (r: Result<
    Output,
    String,
>)
    ensures
        viewed(r) == screenshot_output(id, optional(out), plain, result@),
        r matches Ok(output) ==> !(output is Text),
        r matches Ok(Output::File { path, bytes, report: Some(report) }) ==> is_document(
            report@,
            screenshot_report(id, path@, bytes@.len()),
        ),
{
    let url = result.take("dataUrl");
    let bytes = match url.as_str() {
        Some(url) => match data_url_bytes(url) {
            Ok(bytes) => bytes,
            Err(message) => {
                return Err(message);
            },
        },
        None => {
            return Err("host returned no screenshot data".to_owned());
        },
    };
    match out {
        Some(path) => {
            let report = if plain {
                None
            } else {
                let report = Json::Object(
                    vec![
                        ("id".to_owned(), Json::Signed(id)),
                        ("path".to_owned(), Json::String(path.clone())),
                        ("bytes".to_owned(), Json::Unsigned(bytes.len() as u64)),
                    ],
                );
                assert(report.members() =~= seq![
                    id_member(id),
                    ("path"@, Tree::String(path@)),
                    ("bytes"@, Tree::Integer(bytes@.len() as int)),
                ]);
                proof {
                    law_report_reads_back(id, path@, bytes@.len());
                }
                Some(write_json(report))
            };
            Ok(Output::File { path, bytes, report })
        },
        None => Ok(Output::Bytes(bytes)),
    }
}

/// What a command puts out for the result that the extension replied with: text, unless
/// it is a screenshot. JSON output is read back as the result, and the report on a file
/// as the report.
pub fn render(command: Command, plain: bool, result: Json) -> (r: Result<Output, String>)
    ensures
        viewed(r) == output_of(command@, plain, result@),
        !(command@ is TabsScreenshot) ==> r matches Ok(Output::Text(_)),
        !plain && reads_back(result@) ==> (r matches Ok(Output::Text(text)) ==> is_document(
            text@,
            result@,
        )),
        r matches Ok(Output::File { path, bytes, report: Some(report) }) ==> (
        command@ matches CommandView::TabsScreenshot { id, .. } && is_document(
            report@,
            screenshot_report(id, path@, bytes@.len()),
        )),
{
    match command {
        Command::TabsScreenshot { id, out } => screenshot(id, out, plain, result),
        command => if plain {
            Ok(Output::Text(write_plain(&command, result)))
        } else {
            Ok(Output::Text(write_json(result)))
        },
    }
}

/// What a command puts out for the line that its host sent in reply: text, unless it is a
/// screenshot. JSON output is read back as the result in the line, as long as its floats
/// are, and the report on a file as the report.
pub fn respond(command: Command, plain: bool, line: &str) -> (r: Result<Output, String>)
    ensures
        viewed(r) == output_for_line(command@, plain, line@),
        !(command@ is TabsScreenshot) && line_outcome(line@) is Ok ==> r matches Ok(
            Output::Text(_),
        ),
        !plain ==> (line_outcome(line@) matches Ok(result) ==> (floats_read_back(result) ==> (
        r matches Ok(Output::Text(text)) ==> is_document(text@, result)))),
        r matches Ok(Output::File { path, bytes, report: Some(report) }) ==> (
        command@ matches CommandView::TabsScreenshot { id, .. } && is_document(
            report@,
            screenshot_report(id, path@, bytes@.len()),
        )),
{
    match read_reply(line) {
        Ok(result) => {
            proof {
                lemma_nested_deeper(result@, 126, 127);
            }
            render(command, plain, result)
        },
        Err(message) => Err(message),
    }
}

/// The identifiers of tabs that line-oriented output shows are the ones that
/// commands take.
pub proof fn law_shown_ids_are_accepted(id: i64)
    ensures
        tab_id_of(shown(Tree::Integer(id as int))) == Ok::<i64, Seq<char>>(id),
{
    law_integers_read_back(id);
}

/// Without `--plain` every command but a screenshot shows the whole result as indented
/// JSON and a line end, whatever the result is.
pub proof fn law_json_output(command: CommandView, result: Tree)
    requires
        !(command is TabsScreenshot),
    ensures
        output_of(command, false, result) == Ok::<OutputView, Seq<char>>(
            OutputView::Text(printed_pretty(result) + "\n"@),
        ),
        json_text(result) == printed_pretty(result) + "\n"@,
{
}

/// The output for a line is that for the result in it, or the error in it.
pub proof fn law_output_for_a_line(command: CommandView, plain: bool, line: Seq<char>)
    ensures
        output_for_line(command, plain, line) == match line_outcome(line) {
            Ok(result) => output_of(command, plain, result),
            Err(message) => Err(message),
        },
{
}

/// A tab makes a line of its identifier, its title and its address, in this order, with
/// a tab character between them, whatever they are.
pub proof fn law_plain_tab(members: Map<Seq<char>, Tree>, title: Seq<char>, url: Seq<char>)
    requires
        members.contains_key("id"@),
        members.contains_key("title"@) && members["title"@] == Tree::String(title),
        members.contains_key("url"@) && members["url"@] == Tree::String(url),
    ensures
        output_of(CommandView::TabsList, true, Tree::Array(seq![Tree::Object(members)])) == Ok::<
            OutputView,
            Seq<char>,
        >(OutputView::Text(shown(members["id"@]) + "\t"@ + title + "\t"@ + url + "\n"@)),
{
    lemma_one_line(CommandView::TabsList, Tree::Object(members));
}

/// A title or an address that is no string counts as an empty one.
pub proof fn law_plain_tab_without_text(members: Map<Seq<char>, Tree>, key: Seq<char>)
    requires
        key == "title"@ || key == "url"@,
        !members.contains_key(key) || !(members[key] is String),
    ensures
        output_of(CommandView::TabsList, true, Tree::Array(seq![Tree::Object(members)]))
            == output_of(
            CommandView::TabsList,
            true,
            Tree::Array(seq![Tree::Object(members.insert(key, Tree::String(""@)))]),
        ),
{
    lemma_output_keys();
    lemma_one_line(CommandView::TabsList, Tree::Object(members));
    lemma_one_line(CommandView::TabsList, Tree::Object(members.insert(key, Tree::String(""@))));
}

/// A window makes a line of its identifier, whether it has the focus, and its number of
/// tabs.
pub proof fn law_plain_window(members: Map<Seq<char>, Tree>)
    requires
        members.contains_key("id"@),
        members.contains_key("focused"@),
        members.contains_key("tabCount"@),
    ensures
        output_of(CommandView::WindowsList, true, Tree::Array(seq![Tree::Object(members)]))
            == Ok::<OutputView, Seq<char>>(
            OutputView::Text(
                shown(members["id"@]) + "\tfocused="@ + shown(members["focused"@]) + "\ttabs="@
                    + shown(members["tabCount"@]) + "\n"@,
            ),
        ),
{
    lemma_one_line(CommandView::WindowsList, Tree::Object(members));
}

/// Lists are shown item by item, in their order: what two lists show one after the other
/// is what they show when they are put together. What is no list shows nothing.
pub proof fn law_plain_lists(command: CommandView, first: Seq<Tree>, second: Seq<Tree>, other: Tree)
    requires
        command is TabsList || command is WindowsList,
    ensures
        output_of(command, true, Tree::Array(first)) is Ok,
        output_of(command, true, Tree::Array(first))->Ok_0 is Text,
        output_of(command, true, Tree::Array(first + second)) == Ok::<OutputView, Seq<char>>(
            OutputView::Text(
                output_of(command, true, Tree::Array(first))->Ok_0->Text_0 + output_of(
                    command,
                    true,
                    Tree::Array(second),
                )->Ok_0->Text_0,
            ),
        ),
        output_of(command, true, Tree::Array(Seq::empty())) == Ok::<OutputView, Seq<char>>(
            OutputView::Text(Seq::empty()),
        ),
        !(other is Array) ==> output_of(command, true, other) == Ok::<OutputView, Seq<char>>(
            OutputView::Text(Seq::empty()),
        ),
{
    if command is TabsList {
        let f = |tab: Tree| tab_line(tab);
        assert((first + second).map_values(f) =~= first.map_values(f) + second.map_values(f));
        lemma_lines_join(first.map_values(f), second.map_values(f));
        assert(Seq::<Tree>::empty().map_values(f) =~= Seq::empty());
    } else {
        let f = |window: Tree| window_line(window);
        assert((first + second).map_values(f) =~= first.map_values(f) + second.map_values(f));
        lemma_lines_join(first.map_values(f), second.map_values(f));
        assert(Seq::<Tree>::empty().map_values(f) =~= Seq::empty());
    }
}

/// In a list, what is no object counts as an object without members, and a member that
/// is missing counts as null.
pub proof fn law_plain_items(
    command: CommandView,
    item: Tree,
    members: Map<Seq<char>, Tree>,
    key: Seq<char>,
)
    requires
        command is TabsList || command is WindowsList,
    ensures
        !(item is Object) ==> output_of(command, true, Tree::Array(seq![item])) == output_of(
            command,
            true,
            Tree::Array(seq![Tree::Object(Map::empty())]),
        ),
        !members.contains_key(key) ==> output_of(
            command,
            true,
            Tree::Array(seq![Tree::Object(members)]),
        ) == output_of(
            command,
            true,
            Tree::Array(seq![Tree::Object(members.insert(key, Tree::Null))]),
        ),
{
    lemma_one_line(command, item);
    lemma_one_line(command, Tree::Object(Map::empty()));
    lemma_one_line(command, Tree::Object(members));
    lemma_one_line(command, Tree::Object(members.insert(key, Tree::Null)));
    assert(!(item is Object) ==> forall|k: Seq<char>|
        #[trigger] item.at(k) == Tree::Object(Map::empty()).at(k));
    assert(!members.contains_key(key) ==> forall|k: Seq<char>|
        Tree::Object(members).at(k) == #[trigger] Tree::Object(
            members.insert(key, Tree::Null),
        ).at(k));
}

proof fn lemma_one_line(command: CommandView, item: Tree)
    requires
        command is TabsList || command is WindowsList,
    ensures
        output_of(command, true, Tree::Array(seq![item])) == Ok::<OutputView, Seq<char>>(
            OutputView::Text(
                (if command is TabsList {
                    tab_line(item)
                } else {
                    window_line(item)
                }) + "\n"@,
            ),
        ),
{
    let f = |tab: Tree| tab_line(tab);
    let g = |window: Tree| window_line(window);
    reveal_with_fuel(lines, 2);
    assert(seq![item].map_values(f) =~= seq![tab_line(item)]);
    assert(seq![item].map_values(g) =~= seq![window_line(item)]);
    lemma_lines_of_one(tab_line(item));
    lemma_lines_of_one(window_line(item));
}

proof fn lemma_lines_of_one(text: Seq<char>)
    ensures
        lines(seq![text]) == text + "\n"@,
{
    reveal_with_fuel(lines, 2);
    assert(seq![text].drop_last() =~= Seq::empty());
    assert(Seq::<char>::empty() + text =~= text);
}

proof fn lemma_lines_join(first: Seq<Seq<char>>, second: Seq<Seq<char>>)
    ensures
        lines(first + second) == lines(first) + lines(second),
    decreases second.len(),
{
    if second.len() == 0 {
        assert(first + second =~= first);
        assert(lines(first) + lines(second) =~= lines(first));
    } else {
        assert((first + second).drop_last() =~= first + second.drop_last());
        lemma_lines_join(first, second.drop_last());
        assert(lines(first + second) =~= lines(first) + lines(second));
    }
}

proof fn lemma_output_keys()
    ensures
        "id"@ != "title"@,
        "id"@ != "url"@,
        "title"@ != "url"@,
{
    reveal_strlit("id");
    reveal_strlit("title");
    reveal_strlit("url");
    assert("id"@.len() < "url"@.len() < "title"@.len());
}

/// What the other commands show in plain form: the readable text; the identifier of the
/// tab; what was evaluated, a string without its quotes; the window and the position.
pub proof fn law_plain_members(
    members: Map<Seq<char>, Tree>,
    text: Seq<char>,
    id: i64,
    index: i64,
    window: Option<i64>,
    url: Option<Seq<char>>,
    to: Seq<char>,
)
    ensures
        ({
            let result = Tree::Object(members);
            let put_out = |t: Seq<char>| Ok::<OutputView, Seq<char>>(OutputView::Text(t));
            &&& members.contains_key("text"@) && members["text"@] == Tree::String(text)
                ==> output_of(CommandView::TabsContent { id }, true, result) == put_out(
                text + "\n"@,
            )
            &&& !members.contains_key("text"@) || !(members["text"@] is String) ==> output_of(
                CommandView::TabsContent { id },
                true,
                result,
            ) == put_out("\n"@)
            &&& members.contains_key("id"@) ==> {
                &&& output_of(CommandView::TabsOpen { url }, true, result) == put_out(
                    shown(members["id"@]) + "\n"@,
                )
                &&& output_of(CommandView::TabsNavigate { id, url: to }, true, result) == put_out(
                    shown(members["id"@]) + "\n"@,
                )
                &&& output_of(CommandView::TabsActivate { id }, true, result) == put_out(
                    shown(members["id"@]) + "\n"@,
                )
            }
            &&& members.contains_key("result"@) && members["result"@] == Tree::String(text)
                ==> output_of(CommandView::TabsEval { id, code: to }, true, result) == put_out(
                text + "\n"@,
            )
            &&& members.contains_key("result"@) && !(members["result"@] is String) ==> output_of(
                CommandView::TabsEval { id, code: to },
                true,
                result,
            ) == put_out(shown(members["result"@]) + "\n"@)
            &&& members.contains_key("windowId"@) && members.contains_key("index"@) ==> output_of(
                CommandView::TabsMove { id, index, window },
                true,
                result,
            ) == put_out(shown(members["windowId"@]) + "\t"@ + shown(members["index"@]) + "\n"@)
        }),
{
    reveal_strlit("");
    assert(""@ + "\n"@ =~= "\n"@);
}

/// Every tab that was closed makes a line of its own, in order.
pub proof fn law_plain_closed(members: Map<Seq<char>, Tree>, ids: Seq<i64>, closed: Seq<Tree>)
    requires
        members.contains_key("closed"@),
        members["closed"@] == Tree::Array(closed),
    ensures
        closed.len() == 0 ==> output_of(
            CommandView::TabsClose { ids },
            true,
            Tree::Object(members),
        ) == Ok::<OutputView, Seq<char>>(OutputView::Text(Seq::empty())),
        closed.len() > 0 ==> output_of(
            CommandView::TabsClose { ids },
            true,
            Tree::Object(members),
        ) == Ok::<OutputView, Seq<char>>(
            OutputView::Text(
                output_of(
                    CommandView::TabsClose { ids },
                    true,
                    Tree::Object(members.insert("closed"@, Tree::Array(closed.drop_last()))),
                )->Ok_0->Text_0 + shown(closed.last()) + "\n"@,
            ),
        ),
{
    let f = |id: Tree| shown(id);
    if closed.len() > 0 {
        assert(closed.map_values(f).drop_last() =~= closed.drop_last().map_values(f));
        assert(closed.map_values(f).last() == shown(closed.last()));
    }
}

/// In the result of a command that is no list, what is no object counts as an object
/// without members, and a member that is missing counts as null; what was closed and is
/// no list shows nothing.
pub proof fn law_plain_result(
    command: CommandView,
    result: Tree,
    members: Map<Seq<char>, Tree>,
    key: Seq<char>,
)
    requires
        !(command is TabsList),
        !(command is WindowsList),
    ensures
        !(result is Object) ==> output_of(command, true, result) == output_of(
            command,
            true,
            Tree::Object(Map::empty()),
        ),
        !members.contains_key(key) ==> output_of(command, true, Tree::Object(members))
            == output_of(command, true, Tree::Object(members.insert(key, Tree::Null))),
        command is TabsClose && members.contains_key("closed"@) && !(members["closed"@] is Array)
            ==> output_of(command, true, Tree::Object(members)) == Ok::<OutputView, Seq<char>>(
            OutputView::Text(Seq::empty()),
        ),
{
    assert(!(result is Object) ==> forall|k: Seq<char>|
        #[trigger] result.at(k) == Tree::Object(Map::empty()).at(k));
    assert(!members.contains_key(key) ==> forall|k: Seq<char>|
        Tree::Object(members).at(k) == #[trigger] Tree::Object(
            members.insert(key, Tree::Null),
        ).at(k));
    assert(Seq::<Tree>::empty().map_values(|id: Tree| shown(id)) =~= Seq::empty());
}

/// A screenshot puts out every byte that its data URL carries, however many there are: as
/// they are, or in a file, with a report on the file unless the output is plain.
pub proof fn law_screenshot_is_put_out_whole(
    id: i64,
    path: Seq<char>,
    plain: bool,
    members: Map<Seq<char>, Tree>,
    before: Seq<char>,
    payload: Seq<char>,
    bytes: Seq<u8>,
)
    requires
        members.contains_key("dataUrl"@),
        members["dataUrl"@] == Tree::String(before + ";base64,"@ + payload),
        forall|i: int|
            0 <= i < before.len() ==> #[trigger] (before + ";base64,"@).subrange(i, i + 8)
                != ";base64,"@,
        encode_utf8(payload) == encoding(bytes) || encode_utf8(payload) == encoding(bytes)
            + padding(bytes),
    ensures
        output_of(CommandView::TabsScreenshot { id, out: None }, plain, Tree::Object(members))
            == Ok::<OutputView, Seq<char>>(OutputView::Bytes(bytes)),
        output_of(
            CommandView::TabsScreenshot { id, out: Some(path) },
            true,
            Tree::Object(members),
        ) == Ok::<OutputView, Seq<char>>(OutputView::File { path, bytes, report: None }),
        output_of(
            CommandView::TabsScreenshot { id, out: Some(path) },
            false,
            Tree::Object(members),
        ) == Ok::<OutputView, Seq<char>>(
            OutputView::File {
                path,
                bytes,
                report: Some(
                    printed_pretty(
                        Tree::Object(
                            map![
                                "id"@ => Tree::Integer(id as int),
                                "path"@ => Tree::String(path),
                                "bytes"@ => Tree::Integer(bytes.len() as int),
                            ],
                        ),
                    ) + "\n"@,
                ),
            },
        ),
{
    law_payload_is_the_rest(before, payload);
    law_decoding_undoes_encoding(bytes);
    lemma_report(id, path, bytes.len());
}

proof fn lemma_report(id: i64, path: Seq<char>, size: nat)
    ensures
        screenshot_report(id, path, size) == Tree::Object(
            map![
                "id"@ => Tree::Integer(id as int),
                "path"@ => Tree::String(path),
                "bytes"@ => Tree::Integer(size as int),
            ],
        ),
{
    reveal_with_fuel(insert_all, 4);
    let members = seq![
        id_member(id),
        ("path"@, Tree::String(path)),
        ("bytes"@, Tree::Integer(size as int)),
    ];
    assert(members.drop_last() =~= seq![id_member(id), ("path"@, Tree::String(path))]);
    assert(members.drop_last().drop_last() =~= seq![id_member(id)]);
    assert(members.drop_last().drop_last().drop_last() =~= Seq::empty());
}

/// Whatever a data URL carries is put out, and what is wrong with it is told. Without a
/// data URL there is no screenshot.
pub proof fn law_screenshot_is_what_its_url_carries(
    id: i64,
    path: Seq<char>,
    plain: bool,
    out: Option<Seq<char>>,
    members: Map<Seq<char>, Tree>,
    url: Seq<char>,
)
    ensures
        ({
            let result = Tree::Object(members);
            let held = members.contains_key("dataUrl"@) && members["dataUrl"@] == Tree::String(url);
            &&& held ==> (data_url_content(url) matches Ok(bytes) ==> {
                &&& output_of(CommandView::TabsScreenshot { id, out: None }, plain, result)
                    == Ok::<OutputView, Seq<char>>(OutputView::Bytes(bytes))
                &&& output_of(CommandView::TabsScreenshot { id, out: Some(path) }, true, result)
                    == Ok::<OutputView, Seq<char>>(OutputView::File { path, bytes, report: None })
                &&& output_of(CommandView::TabsScreenshot { id, out: Some(path) }, false, result)
                    == Ok::<OutputView, Seq<char>>(
                    OutputView::File {
                        path,
                        bytes,
                        report: Some(
                            printed_pretty(screenshot_report(id, path, bytes.len())) + "\n"@,
                        ),
                    },
                )
            })
            &&& held ==> (data_url_content(url) matches Err(message) ==> output_of(
                CommandView::TabsScreenshot { id, out },
                plain,
                result,
            ) == Err::<OutputView, Seq<char>>(message))
            &&& !members.contains_key("dataUrl"@) || !(members["dataUrl"@] is String) ==> output_of(
                CommandView::TabsScreenshot { id, out },
                plain,
                result,
            ) == Err::<OutputView, Seq<char>>("host returned no screenshot data"@)
        }),
{
}

/// What is put out is seen as it is.
pub proof fn law_output_is_seen_whole(output: Output)
    ensures
        match output {
            Output::Text(text) => output@ == OutputView::Text(text@),
            Output::Bytes(bytes) => output@ == OutputView::Bytes(bytes@),
            Output::File { path, bytes, report: None } => output@ == (OutputView::File {
                path: path@,
                bytes: bytes@,
                report: None,
            }),
            Output::File { path, bytes, report: Some(report) } => output@ == (OutputView::File {
                path: path@,
                bytes: bytes@,
                report: Some(report@),
            }),
        },
{
}

} // verus!
