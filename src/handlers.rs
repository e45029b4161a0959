//! The request handlers: what the broker answers to each action, how it
//! changes the event registry, and which subscribers an invoke reaches.
use vstd::prelude::*;
use vstd::utf8::*;

use crate::events::{
    CreateOutcome, EventRegistry, SubscribeOutcome, UnsubscribeOutcome, lemma_without_distinct, without,
};
use crate::head::{CURRENT_MAJOR, CURRENT_PATCH, Head, HeadView, Version};
use crate::request::{Action, ActionType, ActionView, Request, RequestView};
use crate::response::{Response, Status, StatusType};
use crate::session::Error;
use crate::text::texts;

verus! {

/// The event registry's contents: event name to subscriber names.
pub type EventMap = Map<Seq<char>, Seq<Seq<char>>>;

/// Body of the answer to a callback sent by a client.
pub const CALLBACK_REJECTED: &'static str = "Server doesn't handle callbacks. Clients receive them when someone does an invoke request";

/// The version this broker speaks.
pub open spec fn current_version() -> Version {
    Version { major: CURRENT_MAJOR, patch: CURRENT_PATCH }
}

/// `r` answers `caller` with `status` and an empty body.
pub open spec fn answers(r: crate::response::ResponseView, caller: Seq<char>, status: StatusType) -> bool {
    &&& r.head.version == current_version()
    &&& r.head.caller == caller
    &&& r.status == status
    &&& r.body.len() == 0
}

/// Registry and status after a create of `e`.
pub open spec fn after_create(m: EventMap, e: Seq<char>) -> (EventMap, StatusType) {
    if m.contains_key(e) {
        (m, StatusType::EventAlreadyExists)
    } else {
        (m.insert(e, seq![]), StatusType::OK)
    }
}

/// Registry and status after `who` listens to `e`.
pub open spec fn after_listen(m: EventMap, e: Seq<char>, who: Seq<char>) -> (EventMap, StatusType) {
    if !m.contains_key(e) {
        (m, StatusType::EventNotFound)
    } else if m[e].contains(who) {
        (m, StatusType::AlreadySubscribed)
    } else {
        (m.insert(e, m[e].push(who)), StatusType::OK)
    }
}

/// Registry and status after `who` leaves `e`: the last subscriber takes
/// the leaver's place.
pub open spec fn after_leave(m: EventMap, e: Seq<char>, who: Seq<char>) -> (EventMap, StatusType) {
    if !m.contains_key(e) {
        (m, StatusType::EventNotFound)
    } else if !m[e].contains(who) {
        (m, StatusType::ListenerNotFound)
    } else {
        (m.insert(e, without(m[e], who)), StatusType::OK)
    }
}

/// Status of an invoke of `e`.
pub open spec fn invoke_status(m: EventMap, e: Seq<char>) -> StatusType {
    if m.contains_key(e) {
        StatusType::OK
    } else {
        StatusType::EventNotFound
    }
}

/// Registry and status after the broker serves `req` on a connected session.
pub open spec fn broker_step(m: EventMap, req: RequestView) -> (EventMap, StatusType) {
    let e = req.action.event_name();
    let who = req.head.caller;
    match req.action.action_type {
        ActionType::Connect => (m, StatusType::AlreadyConnected),
        ActionType::Listen => after_listen(m, e, who),
        ActionType::Invoke => (m, invoke_status(m, e)),
        ActionType::Leave => after_leave(m, e, who),
        ActionType::Create => after_create(m, e),
        ActionType::Callback => (m, StatusType::InvalidRequest),
    }
}

/// No subscriber list holds a name twice.
pub open spec fn lists_distinct(m: EventMap) -> bool {
    forall|e: Seq<char>| #[trigger] m.contains_key(e) ==> m[e].no_duplicates()
}

/// Serving any request keeps every subscriber list free of duplicates.
pub proof fn lemma_step_keeps_lists_distinct(m: EventMap, req: RequestView)
    requires
        lists_distinct(m),
    ensures
        lists_distinct(broker_step(m, req).0),
{
    let e = req.action.event_name();
    let who = req.head.caller;
    let n = broker_step(m, req).0;
    assert forall|k: Seq<char>| #[trigger] n.contains_key(k) implies n[k].no_duplicates() by {
        if k != e {
            assert(m.contains_key(k));
        } else if m.contains_key(e) {
            let s = m[e];
            if req.action.action_type == ActionType::Listen && !s.contains(who) {
                let t = s.push(who);
                assert forall|a: int, b: int| 0 <= a < b < t.len() implies t[a] != t[b] by {
                    if b == s.len() {
                        assert(s[a] == t[a]);
                    }
                }
            } else if req.action.action_type == ActionType::Leave {
                lemma_without_distinct(s, who);
            }
        }
    }
}

/// The callback frame that an invoke fans out: the invoker as caller, the
/// same event, the same body.
pub open spec fn callback_of(req: RequestView) -> RequestView {
    RequestView {
        head: HeadView { version: current_version(), caller: req.head.caller },
        action: ActionView { action_type: ActionType::Callback, module: req.action.module, id: req.action.id },
        body: req.body,
    }
}

/// One callback to deliver: its encoded frame and the names it goes to.
pub struct Fanout {
    pub frame: Vec<u8>,
    pub subscribers: Vec<String>,
}

/// What serving a request produces: the answer to the caller, and for an
/// invoke of an existing event the callback to deliver.
pub struct Outcome {
    pub response: Response,
    pub fanout: Option<Fanout>,
}

/// Answers every request with one fixed status.
pub struct InvalidHandler {
    status_type: StatusType,
}

impl InvalidHandler {
    pub fn new(status_type: StatusType) -> (r: Self)
        ensures
            r.status() == status_type,
    {
        InvalidHandler { status_type }
    }

    /// The status this handler answers with.
    pub closed spec fn status(&self) -> StatusType {
        self.status_type
    }

    pub fn handle(&self, request: &Request) -> (r: Response)
        ensures
            answers(r@, request@.head.caller, self.status()),
    {
        Response::with_status(request.head.caller.as_str(), self.status_type)
    }
}

/// Creates the event that the request names.
pub fn handle_create(events: &mut EventRegistry, request: &Request) -> (r: Response)
    requires
        old(events).wf(),
    ensures
        final(events).wf(),
        final(events)@ == after_create(old(events)@, request@.action.event_name()).0,
        answers(r@, request@.head.caller, after_create(old(events)@, request@.action.event_name()).1),
{
    let name = request.action.event_name();
    let status = match events.create(name.as_str()) {
        CreateOutcome::Created => StatusType::OK,
        CreateOutcome::AlreadyExists => StatusType::EventAlreadyExists,
    };
    Response::with_status(request.head.caller.as_str(), status)
}

/// Subscribes the caller to the event that the request names.
pub fn handle_listen(events: &mut EventRegistry, request: &Request) -> (r: Response)
    requires
        old(events).wf(),
    ensures
        final(events).wf(),
        final(events)@ == after_listen(old(events)@, request@.action.event_name(), request@.head.caller).0,
        answers(r@, request@.head.caller, after_listen(old(events)@, request@.action.event_name(), request@.head.caller).1),
{
    let name = request.action.event_name();
    let caller = request.head.caller.as_str();
    let status = match events.subscribe(name.as_str(), caller) {
        SubscribeOutcome::Subscribed => StatusType::OK,
        SubscribeOutcome::NotFound => StatusType::EventNotFound,
        SubscribeOutcome::AlreadySubscribed => StatusType::AlreadySubscribed,
    };
    Response::with_status(caller, status)
}

/// Unsubscribes the caller from the event that the request names.
pub fn handle_leave(events: &mut EventRegistry, request: &Request) -> (r: Response)
    requires
        old(events).wf(),
    ensures
        final(events).wf(),
        final(events)@ == after_leave(old(events)@, request@.action.event_name(), request@.head.caller).0,
        answers(r@, request@.head.caller, after_leave(old(events)@, request@.action.event_name(), request@.head.caller).1),
{
    let name = request.action.event_name();
    let caller = request.head.caller.as_str();
    let status = match events.unsubscribe(name.as_str(), caller) {
        UnsubscribeOutcome::Unsubscribed => StatusType::OK,
        UnsubscribeOutcome::NotFound => StatusType::EventNotFound,
        UnsubscribeOutcome::NotASubscriber => StatusType::ListenerNotFound,
    };
    Response::with_status(caller, status)
}

/// The answer to a callback sent by a client: the broker only emits them.
pub fn handle_callback(request: &Request) -> (r: Response)
    ensures
        r@.head.version == current_version(),
        r@.head.caller == request@.head.caller,
        r@.status == StatusType::InvalidRequest,
        r@.body == encode_utf8(CALLBACK_REJECTED@),
{
    Response::new(
        Head::new_with_version(request.head.caller.as_str()),
        Status::new(StatusType::InvalidRequest),
        CALLBACK_REJECTED.as_bytes(),
    )
}

/// Invokes the event that the request names: answers `OK` and hands out the
/// callback for the event's current subscribers, or answers
/// `EventNotFound`.
pub fn handle_invoke(events: &EventRegistry, request: &Request) -> (r: Outcome)
    requires
        events.wf(),
        request@.fits(),
    ensures
        answers(
            r.response@,
            request@.head.caller,
            invoke_status(events@, request@.action.event_name()),
        ),
        r.fanout is Some <==> events@.contains_key(request@.action.event_name()),
        r.fanout matches Some(f) ==> texts(f.subscribers@) == events@[request@.action.event_name()]
            && f.frame@ == callback_of(request@).spec_bytes(),
{
    let name = request.action.event_name();
    let caller = request.head.caller.as_str();
    match events.snapshot_subscribers(name.as_str()) {
        None => Outcome {
            response: Response::with_status(caller, StatusType::EventNotFound),
            fanout: None,
        },
        Some(subscribers) => {
            let callback = Request::new(
                Head::new_with_version(caller),
                Action::new(ActionType::Callback, request.action.module.as_str(), request.action.id.as_str()),
                request.body.as_slice(),
            );
            assert(callback@ == callback_of(request@));
            assert(callback@.payload().len() == request@.payload().len());
            let frame = callback.to_bytes();
            Outcome {
                response: Response::new_ok(caller),
                fanout: Some(Fanout { frame, subscribers }),
            }
        },
    }
}

/// Serves one request of a connected session. A major version other than
/// the broker's ends the session; otherwise each action type goes to its
/// handler, and a connect on a live session is refused with
/// `AlreadyConnected`.
pub fn handle_request(events: &mut EventRegistry, request: &Request) -> (r: Result<Outcome, Error>)
    requires
        old(events).wf(),
        request@.fits(),
    ensures
        final(events).wf(),
        request@.head.version.major != CURRENT_MAJOR ==> r == Err::<Outcome, Error>(
            Error::UnsupportedVersion,
        ) && final(events)@ == old(events)@,
        request@.head.version.major == CURRENT_MAJOR ==> r is Ok,
        r matches Ok(o) ==> {
            &&& final(events)@ == broker_step(old(events)@, request@).0
            &&& o.response@.head.version == current_version()
            &&& o.response@.head.caller == request@.head.caller
            &&& o.response@.status == broker_step(old(events)@, request@).1
            &&& request@.action.action_type != ActionType::Callback ==> o.response@.body.len() == 0
            &&& request@.action.action_type == ActionType::Callback ==> o.response@.body
                == encode_utf8(CALLBACK_REJECTED@)
            &&& o.fanout is Some <==> request@.action.action_type == ActionType::Invoke
                && old(events)@.contains_key(request@.action.event_name())
            &&& o.fanout matches Some(f) ==> texts(f.subscribers@) == old(
                events,
            )@[request@.action.event_name()] && f.frame@ == callback_of(request@).spec_bytes()
        },
{
    if request.head.version.major != CURRENT_MAJOR {
        return Err(Error::UnsupportedVersion);
    }
    let outcome = match request.action.action_type {
        ActionType::Connect => Outcome {
            response: InvalidHandler::new(StatusType::AlreadyConnected).handle(request),
            fanout: None,
        },
        ActionType::Listen => Outcome { response: handle_listen(events, request), fanout: None },
        ActionType::Invoke => handle_invoke(events, request),
        ActionType::Leave => Outcome { response: handle_leave(events, request), fanout: None },
        ActionType::Create => Outcome { response: handle_create(events, request), fanout: None },
        ActionType::Callback => Outcome { response: handle_callback(request), fanout: None },
    };
    Ok(outcome)
}

} // verus!
