//! What clients, hosts and extensions say to each other.
//!
//! A client sends its host one line, `{"method": M, "params": P}`. The host passes
//! it on to the extension as `{"id": N, "method": M, "params": P}`. The extension
//! replies `{"id": N, "result": R}` or `{"id": N, "error": E}`, and the host sends
//! the client that reply as one line.

use crate::json::outside::{
    lemma_object_nests, lemma_object_reads_back, parsed, printed, reads_back, reads_back_within,
};
use crate::json::tree::{
    insert_all, lemma_insert_all_keys, lemma_insert_all_last, nested_within, Tree,
};
use crate::json::value::Json;
use crate::text::{is_white_space, law_trimming, lemma_trimmed_line, trim, trimmed, viewed};
use vstd::prelude::*;
use vstd::string::StringExecFns;

verus! {

/// An object with some members.
pub open spec fn object(members: Seq<(Seq<char>, Tree)>) -> Tree {
    Tree::Object(insert_all(members))
}

/// A value on a line of its own.
pub open spec fn line_of(tree: Tree) -> Seq<char> {
    printed(tree) + "\n"@
}

/// Text that ends at its only line end.
pub open spec fn is_line(text: Seq<char>) -> bool {
    text.len() > 0 && text.last() == '\n' && !text.drop_last().contains('\n')
}

/// What a client sends its host.
pub open spec fn request_tree(method: Seq<char>, params: Tree) -> Tree {
    object(seq![("method"@, Tree::String(method)), ("params"@, params)])
}

/// What a host sends the extension.
pub open spec fn message_tree(id: u64, method: Seq<char>, params: Tree) -> Tree {
    object(
        seq![
            ("id"@, Tree::Integer(id as int)),
            ("method"@, Tree::String(method)),
            ("params"@, params),
        ],
    )
}

/// What a host says of its own accord.
pub open spec fn error_tree(message: Seq<char>) -> Tree {
    object(seq![("error"@, Tree::String(message))])
}

/// What a host makes of the line that a client sent.
pub ghost enum Reading {
    /// There is nothing on the line.
    Blank,
    /// The line is no JSON, for this reason.
    Malformed(Seq<char>),
    /// The line is a request.
    Request(Tree),
}

/// What a host makes of the line that a client sent. White space around it does not
/// count.
pub open spec fn reading(line: Seq<char>) -> Reading {
    if trimmed(line).len() == 0 {
        Reading::Blank
    } else {
        match parsed(trimmed(line)) {
            Ok(tree) => Reading::Request(tree),
            Err(message) => Reading::Malformed(message),
        }
    }
}

/// The method that a request names; none is the empty one.
pub open spec fn method_of(request: Tree) -> Seq<char> {
    match request.get("method"@) {
        Some(Tree::String(method)) => method,
        _ => ""@,
    }
}

/// The parameters of a request; none are an empty object.
pub open spec fn params_of(request: Tree) -> Tree {
    match request.get("params"@) {
        Some(params) => params,
        None => object(Seq::empty()),
    }
}

/// What a client makes of a reply: the result, and null where there is none, or the
/// error that is reported in it.
pub open spec fn outcome(reply: Tree) -> Result<Tree, Seq<char>> {
    match reply.get("error"@) {
        Some(Tree::String(message)) => Err(message),
        _ => Ok(reply.at("result"@)),
    }
}

/// What a client makes of the line that its host sent. White space around it does
/// not count.
pub open spec fn line_outcome(line: Seq<char>) -> Result<Tree, Seq<char>> {
    match parsed(trimmed(line)) {
        Ok(reply) => outcome(reply),
        Err(message) => Err("bad reply from host: "@ + message),
    }
}

/// A value on a line of its own, which is read back as the value.
fn line(json: Json) -> (line: String)
    ensures
        line@ == line_of(json@),
        is_line(line@),
        trimmed(line@).len() > 0,
        reads_back(json@) ==> parsed(trimmed(line@)) == Ok::<Tree, Seq<char>>(json@),
{
    let mut line = json.into_text();
    let ghost text = line@;
    line.append("\n");
    proof {
        reveal_strlit("\n");
        lemma_trimmed_line(text);
        assert(line@.drop_last() =~= text);
    }
    line
}

/// The line that asks a host for something. The host reads from it the method and the
/// parameters that were put in.
pub fn request_line(method: &str, params: Json) -> (r: String)
    ensures
        r@ == line_of(request_tree(method@, params@)),
        is_line(r@),
        reads_back_within(params@, 126) ==> reading(r@) == Reading::Request(
            request_tree(method@, params@),
        ),
{
    let ghost tree = params@;
    let request = Json::Object(
        vec![
            ("method".to_owned(), Json::String(method.to_owned())),
            ("params".to_owned(), params),
        ],
    );
    assert(request.members() =~= seq![("method"@, Tree::String(method@)), ("params"@, tree)]);
    proof {
        if reads_back_within(tree, 126) {
            lemma_request_reads_back(method@, tree);
        }
    }
    line(request)
}

proof fn lemma_request_reads_back(method: Seq<char>, params: Tree)
    requires
        reads_back_within(params, 126),
    ensures
        reads_back(request_tree(method, params)),
{
    lemma_object_reads_back(
        seq![("method"@, Tree::String(method)), ("params"@, params)],
        126,
    );
}

/// What the line says that a client sent, and nothing where it is blank. What is read
/// is not nested deeper than the parser goes.
pub fn read_request(line: &str) -> (r: Option<Result<Json, String>>)
    ensures
        match r {
            None => reading(line@) == Reading::Blank,
            Some(Ok(request)) => reading(line@) == Reading::Request(request@) && nested_within(
                request@,
                127,
            ),
            Some(Err(message)) => reading(line@) == Reading::Malformed(message@),
        },
{
    let text = trim(line);
    if text.is_empty() {
        None
    } else {
        Some(Json::parse(text))
    }
}

/// The method and the parameters that a request names.
pub fn request_parts(request: Json) -> (r: (String, Json))
    ensures
        r.0@ == method_of(request@),
        r.1@ == params_of(request@),
{
    let method = match request.get("method") {
        Some(method) => match method.as_str() {
            Some(method) => method.to_owned(),
            None => "".to_owned(),
        },
        None => "".to_owned(),
    };
    if request.get("params").is_some() {
        (method, request.take("params"))
    } else {
        let none = Json::Object(Vec::new());
        assert(none.members() =~= Seq::empty());
        (method, none)
    }
}

/// The message that passes a request on to the extension.
pub fn message(id: u64, method: String, params: Json) -> (r: Json)
    ensures
        r@ == message_tree(id, method@, params@),
{
    let ghost tree = params@;
    let r = Json::Object(
        vec![
            ("id".to_owned(), Json::Unsigned(id)),
            ("method".to_owned(), Json::String(method)),
            ("params".to_owned(), params),
        ],
    );
    assert(r.members() =~= seq![
        ("id"@, Tree::Integer(id as int)),
        ("method"@, Tree::String(method@)),
        ("params"@, tree),
    ]);
    r
}

/// The line that passes the extension's reply on to a client. The client makes of it
/// what it makes of the reply.
pub fn answer_line(reply: Json) -> (r: String)
    ensures
        r@ == line_of(reply@),
        is_line(r@),
        reads_back(reply@) ==> line_outcome(r@) == outcome(reply@),
{
    line(reply)
}

/// The line that tells a client that something went wrong. The client reads from it
/// the message that was put in.
pub fn error_line(message: &str) -> (r: String)
    ensures
        r@ == line_of(error_tree(message@)),
        is_line(r@),
        line_outcome(r@) == Err::<Tree, Seq<char>>(message@),
{
    let error = Json::Object(vec![("error".to_owned(), Json::String(message.to_owned()))]);
    proof {
        let members = seq![("error"@, Tree::String(message@))];
        assert(error.members() =~= members);
        lemma_object_reads_back(members, 126);
        lemma_insert_all_last(members, 0);
    }
    line(error)
}

/// What a reply says: the result, or the error that is reported in it.
pub fn reply_outcome(reply: Json) -> (r: Result<Json, String>)
    ensures
        viewed(r) == outcome(reply@),
{
    let error = match reply.get("error") {
        Some(error) => match error.as_str() {
            Some(message) => Some(message.to_owned()),
            None => None,
        },
        None => None,
    };
    match error {
        Some(message) => Err(message),
        None => Ok(reply.take("result")),
    }
}

/// What the line says that a host sent in reply: the result, or what went wrong. The
/// result stands inside a value that was read, so it is nested less deep than the
/// parser goes.
pub fn read_reply(line: &str) -> (r: Result<Json, String>)
    ensures
        viewed(r) == line_outcome(line@),
        r matches Ok(result) ==> nested_within(result@, 126),
{
    match Json::parse(trim(line)) {
        Ok(reply) => reply_outcome(reply),
        Err(error) => {
            let mut message = "bad reply from host: ".to_owned();
            message.append(error.as_str());
            Err(message)
        },
    }
}

/// A host understands a request as it was meant.
pub proof fn law_request_is_understood(method: Seq<char>, params: Tree)
    ensures
        method_of(request_tree(method, params)) == method,
        params_of(request_tree(method, params)) == params,
{
    reveal_strlit("method");
    reveal_strlit("params");
    let members = seq![("method"@, Tree::String(method)), ("params"@, params)];
    assert("method"@[0] != "params"@[0]);
    lemma_insert_all_last(members, 0);
    lemma_insert_all_last(members, 1);
}

/// The message to the extension says what the request said, under its identifier.
pub proof fn law_message_repeats_the_request(id: u64, method: Seq<char>, params: Tree)
    ensures
        message_tree(id, method, params).at("id"@).as_u64() == Some(id),
        method_of(message_tree(id, method, params)) == method,
        params_of(message_tree(id, method, params)) == params,
{
    reveal_strlit("id");
    reveal_strlit("method");
    reveal_strlit("params");
    let members = seq![
        ("id"@, Tree::Integer(id as int)),
        ("method"@, Tree::String(method)),
        ("params"@, params),
    ];
    assert("method"@[0] != "params"@[0]);
    assert("id"@.len() != "method"@.len() && "id"@.len() != "params"@.len());
    lemma_insert_all_last(members, 0);
    lemma_insert_all_last(members, 1);
    lemma_insert_all_last(members, 2);
}

/// The extension reads a message as it was meant, as long as the parameters are read
/// back one level down.
pub proof fn law_message_reads_back(id: u64, method: Seq<char>, params: Tree)
    requires
        reads_back_within(params, 126),
    ensures
        reads_back(message_tree(id, method, params)),
{
    lemma_object_reads_back(
        seq![
            ("id"@, Tree::Integer(id as int)),
            ("method"@, Tree::String(method)),
            ("params"@, params),
        ],
        126,
    );
}

/// Passing a request on nests nothing deeper, and the message is read back where the
/// request is.
pub proof fn law_message_is_no_deeper(id: u64, request: Tree)
    ensures
        nested_within(request, 127) ==> nested_within(
            message_tree(id, method_of(request), params_of(request)),
            127,
        ),
        reads_back(request) ==> reads_back(
            message_tree(id, method_of(request), params_of(request)),
        ),
{
    let params = params_of(request);
    let none = Seq::<(Seq<char>, Tree)>::empty();
    lemma_object_reads_back(none, 125);
    if nested_within(request, 127) {
        lemma_object_nests(
            seq![
                ("id"@, Tree::Integer(id as int)),
                ("method"@, Tree::String(method_of(request))),
                ("params"@, params),
            ],
            126,
        );
    }
    if reads_back(request) {
        law_message_reads_back(id, method_of(request), params);
    }
}

/// A client gets the result that the extension replied with, and the error where
/// the extension replied with one.
pub proof fn law_reply_is_understood(id: u64, result: Tree, error: Seq<char>)
    ensures
        outcome(object(seq![("id"@, Tree::Integer(id as int)), ("result"@, result)])) == Ok::<
            Tree,
            Seq<char>,
        >(result),
        outcome(object(seq![("id"@, Tree::Integer(id as int)), ("error"@, Tree::String(error))]))
            == Err::<Tree, Seq<char>>(error),
{
    reveal_strlit("id");
    reveal_strlit("result");
    reveal_strlit("error");
    let good = seq![("id"@, Tree::Integer(id as int)), ("result"@, result)];
    let bad = seq![("id"@, Tree::Integer(id as int)), ("error"@, Tree::String(error))];
    assert("error"@.len() != "id"@.len() && "error"@.len() != "result"@.len());
    lemma_insert_all_keys(good);
    lemma_insert_all_last(good, 1);
    lemma_insert_all_last(bad, 1);
}

/// A line is the compact text of the value and a line end.
pub proof fn law_lines(tree: Tree)
    ensures
        line_of(tree) == printed(tree) + "\n"@,
{
}

/// What is sent has these members and no others.
pub proof fn law_layout(id: u64, method: Seq<char>, params: Tree, message: Seq<char>)
    ensures
        request_tree(method, params) == Tree::Object(
            map!["method"@ => Tree::String(method), "params"@ => params],
        ),
        message_tree(id, method, params) == Tree::Object(
            map![
                "id"@ => Tree::Integer(id as int),
                "method"@ => Tree::String(method),
                "params"@ => params,
            ],
        ),
        error_tree(message) == Tree::Object(map!["error"@ => Tree::String(message)]),
{
    reveal_with_fuel(insert_all, 4);
    let request = seq![("method"@, Tree::String(method)), ("params"@, params)];
    assert(request.drop_last() =~= seq![("method"@, Tree::String(method))]);
    assert(request.drop_last().drop_last() =~= Seq::empty());
    let message_members = seq![
        ("id"@, Tree::Integer(id as int)),
        ("method"@, Tree::String(method)),
        ("params"@, params),
    ];
    assert(message_members.drop_last() =~= seq![
        ("id"@, Tree::Integer(id as int)),
        ("method"@, Tree::String(method)),
    ]);
    assert(message_members.drop_last().drop_last() =~= seq![("id"@, Tree::Integer(id as int))]);
    assert(message_members.drop_last().drop_last().drop_last() =~= Seq::empty());
    let error = seq![("error"@, Tree::String(message))];
    assert(error.drop_last() =~= Seq::empty());
}

/// A host reads what stands between the white space of a line, and takes a line of
/// nothing but white space for blank.
pub proof fn law_host_reads_the_line(before: Seq<char>, core: Seq<char>, after: Seq<char>)
    requires
        forall|i: int| 0 <= i < before.len() ==> is_white_space(#[trigger] before[i]),
        forall|i: int| 0 <= i < after.len() ==> is_white_space(#[trigger] after[i]),
        core.len() > 0 ==> !is_white_space(core.first()) && !is_white_space(core.last()),
    ensures
        core.len() == 0 ==> reading(before + core + after) == Reading::Blank,
        core.len() > 0 ==> reading(before + core + after) == match parsed(core) {
            Ok(tree) => Reading::Request(tree),
            Err(message) => Reading::Malformed(message),
        },
{
    law_trimming(before, core, after);
}

/// A request names its method by a string and its parameters by any value. Without such
/// a method it names the empty one, without parameters an empty object.
pub proof fn law_request_members(request: Tree, members: Map<Seq<char>, Tree>, method: Seq<char>)
    requires
        request == Tree::Object(members),
    ensures
        members.contains_key("method"@) && members["method"@] == Tree::String(method)
            ==> method_of(request) == method,
        !members.contains_key("method"@) || !(members["method"@] is String) ==> method_of(request)
            == ""@,
        members.contains_key("params"@) ==> params_of(request) == members["params"@],
        !members.contains_key("params"@) ==> params_of(request) == Tree::Object(Map::empty()),
{
}

/// A request that is no object names the empty method and no parameters.
pub proof fn law_request_without_members(request: Tree)
    requires
        !(request is Object),
    ensures
        method_of(request) == ""@,
        params_of(request) == Tree::Object(Map::empty()),
{
}

/// A client reads what stands between the white space of a line. A string under `error`
/// is the error, whatever else the reply holds; otherwise what stands under `result` is
/// the result, and null where nothing does.
pub proof fn law_client_reads_the_line(
    before: Seq<char>,
    core: Seq<char>,
    after: Seq<char>,
    members: Map<Seq<char>, Tree>,
)
    requires
        forall|i: int| 0 <= i < before.len() ==> is_white_space(#[trigger] before[i]),
        forall|i: int| 0 <= i < after.len() ==> is_white_space(#[trigger] after[i]),
        core.len() > 0 ==> !is_white_space(core.first()) && !is_white_space(core.last()),
    ensures
        ({
            let line = before + core + after;
            let reads = parsed(core) == Ok::<Tree, Seq<char>>(Tree::Object(members));
            let error = members.contains_key("error"@) && members["error"@] is String;
            &&& reads && error ==> line_outcome(line) == Err::<Tree, Seq<char>>(
                members["error"@]->String_0,
            )
            &&& reads && !error && members.contains_key("result"@) ==> line_outcome(line) == Ok::<
                Tree,
                Seq<char>,
            >(members["result"@])
            &&& reads && !error && !members.contains_key("result"@) ==> line_outcome(line) == Ok::<
                Tree,
                Seq<char>,
            >(Tree::Null)
            &&& parsed(core) matches Ok(reply) ==> !(reply is Object) ==> line_outcome(line)
                == Ok::<Tree, Seq<char>>(Tree::Null)
            &&& parsed(core) matches Err(message) ==> line_outcome(line) == Err::<Tree, Seq<char>>(
                "bad reply from host: "@ + message,
            )
        }),
{
    law_trimming(before, core, after);
}

/// A string under `error` is the error, and the only one; otherwise what stands under
/// `result` is the result, and null where nothing does.
pub proof fn law_outcome(
    reply: Tree,
    members: Map<Seq<char>, Tree>,
    message: Seq<char>,
    other: Tree,
)
    requires
        reply == Tree::Object(members),
    ensures
        !(other is Object) ==> outcome(other) == Ok::<Tree, Seq<char>>(Tree::Null),
        outcome(reply) == Err::<Tree, Seq<char>>(message) <==> members.contains_key("error"@)
            && members["error"@] == Tree::String(message),
        outcome(reply) matches Ok(result) ==> if members.contains_key("result"@) {
            result == members["result"@]
        } else {
            result == Tree::Null
        },
{
}

} // verus!
