//! The host's part between clients and the extension.
//!
//! Many clients wait at one time. Each request goes to the extension under an
//! identifier of its own, and the reply that bears the identifier goes to the
//! client that waits on it.

use crate::json::outside::{printed, reads_back};
use crate::json::tree::{lemma_insert_all_last, nested_within, Tree};
use crate::json::value::Json;
use crate::protocol::{
    error_line, error_tree, is_line, law_layout, law_message_is_no_deeper, law_reply_is_understood,
    law_request_is_understood, line_of, line_outcome, message, message_tree, method_of, object,
    outcome, params_of, read_request, reading, request_parts, request_tree, Reading,
};
use crate::text::viewed;
use std::collections::HashMap;
use vstd::prelude::*;
use vstd::string::StringExecFns;

verus! {

/// How long a client waits for the extension, in seconds.
pub const REPLY_TIMEOUT_SECONDS: u64 = 30;

/// The clients that wait on a reply, each by the identifier of its request, and the
/// identifier that the next request gets. What stands for a client is up to the
/// caller.
pub struct Relay<T> {
    next_id: u64,
    pending: HashMap<u64, T>,
}

/// What a relay is.
#[verifier::ext_equal]
pub ghost struct RelayView<T> {
    pub next_id: u64,
    pub pending: Map<u64, T>,
}

impl<T> View for Relay<T> {
    type V = RelayView<T>;

    closed spec fn view(&self) -> RelayView<T> {
        RelayView { next_id: self.next_id, pending: self.pending@ }
    }
}

impl<T> RelayView<T> {
    /// A client begins to wait.
    pub open spec fn with_client(self, client: T) -> RelayView<T> {
        RelayView {
            next_id: if self.next_id == u64::MAX {
                0
            } else {
                (self.next_id + 1) as u64
            },
            pending: self.pending.insert(self.next_id, client),
        }
    }

    /// Nobody waits on an identifier any more.
    pub open spec fn without(self, id: u64) -> RelayView<T> {
        RelayView { next_id: self.next_id, pending: self.pending.remove(id) }
    }

    /// The client that waits on an identifier.
    pub open spec fn client(self, id: u64) -> Option<T> {
        if self.pending.contains_key(id) {
            Some(self.pending[id])
        } else {
            None
        }
    }

    /// The client that a message from the extension is for: the one that waits on
    /// the identifier in it.
    pub open spec fn addressee(self, message: Tree) -> Option<T> {
        match message.at("id"@).as_u64() {
            Some(id) => self.client(id),
            None => None,
        }
    }

    /// The message has been handed to its addressee.
    pub open spec fn after_message(self, message: Tree) -> RelayView<T> {
        match message.at("id"@).as_u64() {
            Some(id) => self.without(id),
            None => self,
        }
    }

    /// Each identifier on which a client waits has been given out, and none of them
    /// will be given out next.
    pub open spec fn orderly(self) -> bool {
        forall|id: u64| #[trigger] self.pending.contains_key(id) ==> 0 < id < self.next_id
    }
}

/// What a host does about the line that a client sent.
pub enum Accepted {
    /// Nothing: the line is blank.
    Ignored,
    /// Answer the client with this line.
    Rejected(String),
    /// Pass the message on to the extension; the client waits on the identifier.
    Forwarded(u64, Json),
}

/// What a host does about the line that a client sent.
pub ghost enum AcceptedView {
    Ignored,
    Rejected(Seq<char>),
    Forwarded(u64, Tree),
}

impl View for Accepted {
    type V = AcceptedView;

    open spec fn view(&self) -> AcceptedView {
        match self {
            Accepted::Ignored => AcceptedView::Ignored,
            Accepted::Rejected(line) => AcceptedView::Rejected(line@),
            Accepted::Forwarded(id, message) => AcceptedView::Forwarded(*id, message@),
        }
    }
}

/// What a host whose next identifier is `next_id` does about a line.
pub open spec fn acceptance(reading: Reading, next_id: u64) -> AcceptedView {
    match reading {
        Reading::Blank => AcceptedView::Ignored,
        Reading::Malformed(message) => AcceptedView::Rejected(
            line_of(error_tree("bad request: "@ + message)),
        ),
        Reading::Request(request) => AcceptedView::Forwarded(
            next_id,
            message_tree(next_id, method_of(request), params_of(request)),
        ),
    }
}

/// The client that gets the line reads from it that its request was malformed, and
/// why.
pub open spec fn tells_bad_request(line: Seq<char>, message: Seq<char>) -> bool {
    is_line(line) && line_outcome(line) == Err::<Tree, Seq<char>>("bad request: "@ + message)
}

impl<T> Relay<T> {
    /// Nobody waits yet.
    pub fn new() -> (relay: Relay<T>)
        ensures
            relay@.next_id == 1,
            relay@.pending == Map::<u64, T>::empty(),
            relay@.orderly(),
    {
        Relay { next_id: 1, pending: HashMap::new() }
    }

    /// Take what was read from a client's line. Only a request makes the client
    /// wait. The message is nested no deeper than the parser goes, and is read back
    /// where the request is.
    pub fn accept_parsed(&mut self, request: Result<Json, String>, client: T) -> (r: Accepted)
        ensures
            match viewed(request) {
                Ok(tree) => {
                    &&& r@ == acceptance(Reading::Request(tree), old(self)@.next_id)
                    &&& nested_within(tree, 127) ==> (r matches Accepted::Forwarded(_, message)
                        && nested_within(message@, 127))
                    &&& reads_back(tree) ==> (r matches Accepted::Forwarded(_, message)
                        && reads_back(message@))
                    &&& final(self)@ == old(self)@.with_client(client)
                },
                Err(message) => {
                    &&& r@ == acceptance(Reading::Malformed(message), old(self)@.next_id)
                    &&& r matches Accepted::Rejected(line) && tells_bad_request(line@, message)
                    &&& final(self)@ == old(self)@
                },
            },
    {
        match request {
            Ok(request) => {
                proof {
                    law_message_is_no_deeper(self@.next_id, request@);
                }
                let (method, params) = request_parts(request);
                let id = self.next_id;
                self.next_id = id.wrapping_add(1);
                self.pending.insert(id, client);
                Accepted::Forwarded(id, message(id, method, params))
            },
            Err(error) => {
                let mut message = "bad request: ".to_owned();
                message.append(error.as_str());
                Accepted::Rejected(error_line(message.as_str()))
            },
        }
    }

    /// Take a client's line. Only a request makes the client wait. The message is nested
    /// no deeper than the parser goes.
    pub fn accept(&mut self, line: &str, client: T) -> (r: Accepted)
        ensures
            r@ == acceptance(reading(line@), old(self)@.next_id),
            r matches Accepted::Forwarded(_, message) ==> nested_within(message@, 127),
            reading(line@) matches Reading::Malformed(message) ==> (r matches Accepted::Rejected(
                answer,
            ) && tells_bad_request(answer@, message)),
            final(self)@ == (if reading(line@) is Request {
                old(self)@.with_client(client)
            } else {
                old(self)@
            }),
    {
        match read_request(line) {
            None => Accepted::Ignored,
            Some(request) => self.accept_parsed(request, client),
        }
    }

    /// The extension is gone: the client stops waiting, and is told so.
    pub fn not_connected(&mut self, id: u64) -> (line: String)
        ensures
            final(self)@ == old(self)@.without(id),
            line@ == line_of(error_tree("extension not connected"@)),
            is_line(line@),
            line_outcome(line@) == Err::<Tree, Seq<char>>("extension not connected"@),
    {
        self.pending.remove(&id);
        error_line("extension not connected")
    }

    /// No reply came in time: the client stops waiting, and is told so.
    pub fn timed_out(&mut self, id: u64) -> (line: String)
        ensures
            final(self)@ == old(self)@.without(id),
            line@ == line_of(error_tree("timed out waiting for extension"@)),
            is_line(line@),
            line_outcome(line@) == Err::<Tree, Seq<char>>("timed out waiting for extension"@),
    {
        self.pending.remove(&id);
        error_line("timed out waiting for extension")
    }

    /// Find the client that a message from the extension is for. It stops waiting.
    pub fn route(&mut self, message: &Json) -> (client: Option<T>)
        ensures
            client == old(self)@.addressee(message@),
            final(self)@ == old(self)@.after_message(message@),
    {
        match message.get("id") {
            Some(id) => match id.as_u64() {
                Some(id) => self.pending.remove(&id),
                None => None,
            },
            None => None,
        }
    }
}

/// The host passes a request on to the extension as it was meant, under its next
/// identifier.
pub proof fn law_request_is_forwarded(method: Seq<char>, params: Tree, next_id: u64)
    ensures
        acceptance(Reading::Request(request_tree(method, params)), next_id)
            == AcceptedView::Forwarded(next_id, message_tree(next_id, method, params)),
{
    law_request_is_understood(method, params);
}

/// A request gets an identifier on which nobody waits. The next identifier is a
/// higher one and the relay stays orderly, until all identifiers have been given out
/// and they start again.
pub proof fn law_identifiers_are_fresh<T>(relay: RelayView<T>, client: T)
    requires
        relay.orderly(),
    ensures
        relay.client(relay.next_id) is None,
        0 < relay.next_id < u64::MAX ==> relay.with_client(client).orderly()
            && relay.with_client(client).next_id > relay.next_id,
{
}

/// A relay stays orderly when clients stop waiting and when messages are routed.
pub proof fn law_relay_stays_orderly<T>(relay: RelayView<T>, id: u64, message: Tree)
    requires
        relay.orderly(),
    ensures
        relay.without(id).orderly(),
        relay.after_message(message).orderly(),
{
}

/// The reply that bears the identifier of a request goes to the client that made
/// the request.
pub proof fn law_reply_reaches_its_client<T>(relay: RelayView<T>, client: T, message: Tree)
    requires
        message.at("id"@).as_u64() == Some(relay.next_id),
    ensures
        relay.with_client(client).addressee(message) == Some(client),
{
}

/// A message is handed over once: nobody waits on its identifier afterwards.
pub proof fn law_reply_is_handed_over_once<T>(relay: RelayView<T>, message: Tree)
    ensures
        relay.after_message(message).addressee(message) is None,
        relay.after_message(message).after_message(message) == relay.after_message(message),
{
}

/// A client that stopped waiting gets no reply.
pub proof fn law_no_reply_after_the_wait<T>(relay: RelayView<T>, id: u64, message: Tree)
    requires
        message.at("id"@).as_u64() == Some(id),
    ensures
        relay.without(id).addressee(message) is None,
{
}

/// What happens to other requests does not touch a client that waits.
pub proof fn law_other_clients_keep_waiting<T>(
    relay: RelayView<T>,
    id: u64,
    other: u64,
    newcomer: T,
    message: Tree,
)
    requires
        other != id,
        relay.next_id != id,
        message.at("id"@).as_u64() != Some(id),
    ensures
        relay.with_client(newcomer).client(id) == relay.client(id),
        relay.without(other).client(id) == relay.client(id),
        relay.after_message(message).client(id) == relay.client(id),
{
}

/// What can happen to a relay.
pub ghost enum Event<T> {
    /// A client makes a request.
    Request(T),
    /// The client that waits on an identifier stops waiting.
    Left(u64),
    /// The extension sends a message.
    Message(Tree),
}

impl<T> RelayView<T> {
    /// Something happens.
    pub open spec fn after(self, event: Event<T>) -> RelayView<T> {
        match event {
            Event::Request(client) => self.with_client(client),
            Event::Left(id) => self.without(id),
            Event::Message(message) => self.after_message(message),
        }
    }

    /// Things happen one after the other.
    pub open spec fn after_all(self, events: Seq<Event<T>>) -> RelayView<T>
        decreases events.len(),
    {
        if events.len() == 0 {
            self
        } else {
            self.after_all(events.drop_last()).after(events.last())
        }
    }
}

/// How many of some events are requests.
pub open spec fn requests<T>(events: Seq<Event<T>>) -> nat
    decreases events.len(),
{
    if events.len() == 0 {
        0
    } else {
        requests(events.drop_last()) + if events.last() is Request {
            1nat
        } else {
            0nat
        }
    }
}

/// The event ends the wait on an identifier.
pub open spec fn ends_wait<T>(event: Event<T>, id: u64) -> bool {
    match event {
        Event::Request(_) => false,
        Event::Left(other) => other == id,
        Event::Message(message) => message.at("id"@).as_u64() == Some(id),
    }
}

/// Whatever happens between a request and the reply to it, with other clients and in
/// any order, the reply reaches the client that made the request. This holds until so
/// many others have made requests that the identifier is given out once more.
pub proof fn law_reply_reaches_its_client_in_time<T>(
    relay: RelayView<T>,
    client: T,
    events: Seq<Event<T>>,
    reply: Tree,
)
    requires
        requests(events) <= u64::MAX,
        forall|i: int| 0 <= i < events.len() ==> !ends_wait(#[trigger] events[i], relay.next_id),
        reply.at("id"@).as_u64() == Some(relay.next_id),
    ensures
        relay.with_client(client).after_all(events).addressee(reply) == Some(client),
{
    lemma_client_keeps_waiting(relay, client, events);
}

proof fn lemma_client_keeps_waiting<T>(relay: RelayView<T>, client: T, events: Seq<Event<T>>)
    requires
        requests(events) <= u64::MAX,
        forall|i: int| 0 <= i < events.len() ==> !ends_wait(#[trigger] events[i], relay.next_id),
    ensures
        ({
            let later = relay.with_client(client).after_all(events);
            &&& later.client(relay.next_id) == Some(client)
            &&& later.next_id == (relay.next_id + 1 + requests(events)) % (u64::MAX + 1)
        }),
    decreases events.len(),
{
    if events.len() > 0 {
        lemma_client_keeps_waiting(relay, client, events.drop_last());
        assert(!ends_wait(events[events.len() - 1], relay.next_id));
    }
}

/// A client gets the outcome of its own request: the host passes on what was asked,
/// and whatever happens before the extension replies, its reply goes to that client,
/// which reads from it the result, or the error, that the extension gave. This holds
/// until so many others have made requests that the identifier is given out once more.
pub proof fn law_client_gets_its_outcome<T>(
    relay: RelayView<T>,
    client: T,
    method: Seq<char>,
    params: Tree,
    events: Seq<Event<T>>,
    result: Tree,
    error: Seq<char>,
)
    requires
        requests(events) <= u64::MAX,
        forall|i: int| 0 <= i < events.len() ==> !ends_wait(#[trigger] events[i], relay.next_id),
    ensures
        ({
            let id = relay.next_id;
            let later = relay.with_client(client).after_all(events);
            let good = object(seq![("id"@, Tree::Integer(id as int)), ("result"@, result)]);
            let bad = object(
                seq![("id"@, Tree::Integer(id as int)), ("error"@, Tree::String(error))],
            );
            &&& acceptance(Reading::Request(request_tree(method, params)), id)
                == AcceptedView::Forwarded(id, message_tree(id, method, params))
            &&& later.addressee(good) == Some(client)
            &&& later.addressee(bad) == Some(client)
            &&& outcome(good) == Ok::<Tree, Seq<char>>(result)
            &&& outcome(bad) == Err::<Tree, Seq<char>>(error)
        }),
{
    let id = relay.next_id;
    let good = seq![("id"@, Tree::Integer(id as int)), ("result"@, result)];
    let bad = seq![("id"@, Tree::Integer(id as int)), ("error"@, Tree::String(error))];
    reveal_strlit("id");
    reveal_strlit("result");
    reveal_strlit("error");
    assert("id"@.len() != "result"@.len() && "id"@.len() != "error"@.len());
    lemma_insert_all_last(good, 0);
    lemma_insert_all_last(bad, 0);
    law_request_is_forwarded(method, params, id);
    law_reply_is_understood(id, result, error);
    law_reply_reaches_its_client_in_time(relay, client, events, object(good));
    law_reply_reaches_its_client_in_time(relay, client, events, object(bad));
}

/// A host passes a request on under its next identifier, with the method and the
/// parameters under their names; answers what is no JSON with the reason; and lets a
/// blank line be.
pub proof fn law_acceptance(request: Tree, message: Seq<char>, next_id: u64)
    ensures
        acceptance(Reading::Request(request), next_id) == AcceptedView::Forwarded(
            next_id,
            Tree::Object(
                map![
                    "id"@ => Tree::Integer(next_id as int),
                    "method"@ => Tree::String(method_of(request)),
                    "params"@ => params_of(request),
                ],
            ),
        ),
        acceptance(Reading::Malformed(message), next_id) == AcceptedView::Rejected(
            printed(Tree::Object(map!["error"@ => Tree::String("bad request: "@ + message)]))
                + "\n"@,
        ),
        acceptance(Reading::Blank, next_id) == AcceptedView::Ignored,
{
    law_layout(next_id, method_of(request), params_of(request), "bad request: "@ + message);
}

/// A client that begins to wait gets the next identifier, and the one after it comes
/// next. Nobody else is touched.
pub proof fn law_clients_are_numbered<T>(relay: RelayView<T>, client: T, other: u64)
    ensures
        relay.with_client(client).next_id == (relay.next_id + 1) % (u64::MAX + 1),
        relay.with_client(client).client(relay.next_id) == Some(client),
        other != relay.next_id ==> relay.with_client(client).client(other) == relay.client(other),
{
}

/// A message is for the client that waits on the number under `id`, whatever else it
/// holds, and for nobody where there is none. That client stops waiting, all others go
/// on, and no identifier is used up.
pub proof fn law_routing<T>(
    relay: RelayView<T>,
    members: Map<Seq<char>, Tree>,
    id: u64,
    other: u64,
)
    ensures
        ({
            let message = Tree::Object(members);
            let named = members.contains_key("id"@) && members["id"@] == Tree::Integer(id as int);
            &&& named && relay.pending.contains_key(id) ==> relay.addressee(message) == Some(
                relay.pending[id],
            )
            &&& named && !relay.pending.contains_key(id) ==> relay.addressee(message) is None
            &&& named ==> relay.after_message(message).client(id) is None
            &&& named && other != id ==> relay.after_message(message).client(other)
                == relay.client(other)
            &&& relay.after_message(message).next_id == relay.next_id
        }),
{
}

/// A message without such a number is for nobody, and nobody stops waiting.
pub proof fn law_messages_for_nobody<T>(relay: RelayView<T>, message: Tree)
    requires
        message.at("id"@) matches Tree::Integer(n) ==> n < 0 || n > u64::MAX,
    ensures
        relay.addressee(message) is None,
        relay.after_message(message) == relay,
{
}

/// A client that leaves stops waiting, and nobody else does.
pub proof fn law_leaving<T>(relay: RelayView<T>, id: u64, other: u64)
    ensures
        relay.without(id).client(id) is None,
        other != id ==> relay.without(id).client(other) == relay.client(other),
        relay.without(id).next_id == relay.next_id,
        relay.pending.contains_key(other) ==> relay.client(other) == Some(relay.pending[other]),
        !relay.pending.contains_key(other) ==> relay.client(other) is None,
{
}

/// What a host does is seen as it is.
pub proof fn law_accepted_is_seen_whole(accepted: Accepted)
    ensures
        match accepted {
            Accepted::Ignored => accepted@ == AcceptedView::Ignored,
            Accepted::Rejected(line) => accepted@ == AcceptedView::Rejected(line@),
            Accepted::Forwarded(id, message) => accepted@ == AcceptedView::Forwarded(id, message@),
        },
{
}

} // verus!
