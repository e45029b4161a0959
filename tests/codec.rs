use camelot::call::Call;
use camelot::wire::complete_frame_len;
use camelot::{Action, ActionType, Error, Head, Request, Response, Status, StatusType, Version};

#[test]
fn test_head_into_bytes() {
    let head = Head::new(Version::new(1, 2), "345");

    let bytes: Vec<u8> = head.to_bytes();

    assert_eq!(
        bytes,
        vec![
            0, 1, // major (1)
            0, 2, // patch (2)
            51, 52, 53, // caller ("345")
        ]
    );
}

#[test]
fn test_bytes_into_head() {
    let head: &[u8] = &[
        0, 1, // major (1)
        0, 2, // patch (2)
        51, 52, 53, // caller ("345")
    ];

    let head = Head::from_bytes(head).unwrap();

    assert_eq!(head.version().major(), 1);
    assert_eq!(head.version().patch(), 2);
    assert_eq!(head.caller(), "345");
}

#[test]
fn test_version_into_bytes() {
    let version = Version::new(1, 2);

    let bytes: Vec<u8> = version.to_bytes();

    assert_eq!(
        bytes,
        vec![
            0, 1, // major (1)
            0, 2, // patch (2)
        ]
    );
}

#[test]
fn test_bytes_into_version() {
    let version: &[u8] = &[
        0, 1, // major (1)
        0, 2, // patch (2)
    ];

    let version = Version::from_bytes(version).unwrap();

    assert_eq!(version.major(), 1);
    assert_eq!(version.patch(), 2);
}

#[test]
fn test_req_into_req() {
    let request = Request::new(
        Head::new(Version::new(1, 2), "345"),
        Action::new(ActionType::Listen, "ns", "id"),
        "hello".as_bytes(),
    );

    let bytes: Vec<u8> = request.to_bytes();

    let request = Request::from_bytes(&bytes[..]).unwrap();

    let head = request.head();
    assert_eq!(head.version().major(), 1);
    assert_eq!(head.version().patch(), 2);
    assert_eq!(head.caller(), "345");

    let action = request.action();
    assert_eq!(action.action_type(), ActionType::Listen);
    assert_eq!(action.module(), "ns");
    assert_eq!(action.id(), "id");

    assert_eq!(request.body(), "hello".as_bytes());
}

#[test]
fn test_bytes_into_request() {
    let request: &[u8] = &[
        0x00, // start byte
        0, 0, 0, 20, // length (20)
        0, 1, // major (1)
        0, 2, // patch (2)
        51, 52, 53, // caller ("345")
        0x1F, // separator
        2,    // type Invoke
        0x6e, 115, 0x3a, 105, 100, // namespace ("ns:id")
        0x1F, // separator
        104, 101, 108, 108, 111, // body ("hello")
    ];

    let request = Request::from_bytes(request).unwrap();

    let head = request.head();
    assert_eq!(head.version().major(), 1);
    assert_eq!(head.version().patch(), 2);
    assert_eq!(head.caller(), "345");

    let action = request.action();
    assert_eq!(action.action_type(), ActionType::Invoke);
    assert_eq!(action.module(), "ns");
    assert_eq!(action.id(), "id");

    assert_eq!(request.body(), "hello".as_bytes());
}

#[test]
fn test_request_into_bytes() {
    let request = Request::new(
        Head::new(Version::new(1, 2), "345"),
        Action::new(ActionType::Leave, "ns", "id"),
        "hello".as_bytes(),
    );

    let bytes: Vec<u8> = request.to_bytes();

    assert_eq!(
        bytes,
        vec![
            0x00, // start byte
            0, 0, 0, 20, // length (20)
            0, 1, // major (1)
            0, 2, // patch (2)
            51, 52, 53, // caller ("345")
            0x1F, // separator
            4,    // type Leave
            0x6e, 115, 0x3a, 105, 100, // namespace ("ns:id")
            0x1F, // separator
            104, 101, 108, 108, 111, // body ("hello")
        ]
    );
}

#[test]
fn test_bytes_into_action() {
    let action: &[u8] = &[
        2, // type Invoke
        0x6e, 115, 0x3a, 105, 100, // namespace ("ns:id")
    ];

    let action = Action::from_bytes(action).unwrap();

    assert_eq!(action.action_type(), ActionType::Invoke);
    assert_eq!(action.module(), "ns");
    assert_eq!(action.id(), "id");
}

#[test]
fn test_action_into_bytes() {
    let action = Action::new(ActionType::Connect, "ns", "id");

    let bytes: Vec<u8> = action.to_bytes();

    assert_eq!(
        bytes,
        vec![
            0, // type Connect
            0x6e, 115, 0x3a, 105, 100, // namespace ("ns:id")
        ]
    );
}

#[test]
fn test_response_into_response() {
    let response = Response::new(
        Head::new(Version::new(1, 2), "345"),
        Status::new(StatusType::GenericError),
        "345".as_bytes(),
    );

    let bytes: Vec<u8> = response.to_bytes();

    let response = Response::from_bytes(bytes.as_slice()).unwrap();

    assert_eq!(response.head().version().major(), 1);
    assert_eq!(response.head().version().patch(), 2);
    assert_eq!(response.head().caller(), "345");
    assert_eq!(response.status().status_type(), StatusType::GenericError);
    assert_eq!(response.body(), "345".as_bytes());
}

#[test]
fn test_bytes_into_response() {
    let response: &[u8] = &[
        0x01, // start byte
        0, 0, 0, 13, // length (13)
        0, 1, // major (1)
        0, 2, // patch (2)
        51, 52, 53, // caller ("345")
        0x1F, // separator
        0,    // code (0)
        0x1F, // separator
        51, 52, 53, // body ("345")
    ];

    let response = Response::from_bytes(response).unwrap();

    assert_eq!(response.head().version().major(), 1);
    assert_eq!(response.head().version().patch(), 2);
    assert_eq!(response.head().caller(), "345");
    assert_eq!(response.status().status_type(), StatusType::OK);
    assert_eq!(response.body(), "345".as_bytes());
}

#[test]
fn test_response_into_bytes() {
    let response = Response::new(
        Head::new(Version::new(1, 2), "345"),
        Status::new(StatusType::OK),
        "345".as_bytes(),
    );

    let bytes: Vec<u8> = response.to_bytes();

    assert_eq!(
        bytes,
        vec![
            0x01, // start byte
            0, 0, 0, 13, // length (13)
            0, 1, // major (1)
            0, 2, // patch (2)
            51, 52, 53, // caller ("345")
            0x1F, // separator
            0,    // code (0)
            0x1F, // separator
            51, 52, 53, // body ("345")
        ]
    );
}

#[test]
fn test_bytes_into_status() {
    let status: &[u8] = &[0, 0];
    let status = Status::from_bytes(status).unwrap();

    assert_eq!(status.status_type(), StatusType::OK);
}

#[test]
fn test_status_into_bytes() {
    let status = Status::new(StatusType::OK);
    let bytes: Vec<u8> = status.to_bytes();

    assert_eq!(bytes, vec![0]);
}

const ALL_STATUS: [StatusType; 10] = [
    StatusType::OK,
    StatusType::GenericError,
    StatusType::NeedConnection,
    StatusType::InternalServerError,
    StatusType::AlreadyConnected,
    StatusType::InvalidRequest,
    StatusType::EventNotFound,
    StatusType::ListenerNotFound,
    StatusType::EventAlreadyExists,
    StatusType::AlreadySubscribed,
];

const ALL_ACTIONS: [ActionType; 6] = [
    ActionType::Connect,
    ActionType::Listen,
    ActionType::Invoke,
    ActionType::Leave,
    ActionType::Create,
    ActionType::Callback,
];

#[test]
fn status_codes_are_a_bijection() {
    for s in ALL_STATUS {
        assert_eq!(StatusType::from_code(s.code()), Ok(s));
    }
    let mut decoded = 0;
    for c in i8::MIN..=i8::MAX {
        if let Ok(s) = StatusType::from_code(c) {
            assert_eq!(s.code(), c);
            decoded += 1;
        } else {
            assert_eq!(StatusType::from_code(c), Err(Error::InvalidStatus));
        }
    }
    assert_eq!(decoded, 10);
    assert_eq!(StatusType::GenericError.code(), -1);
    assert_eq!(StatusType::NeedConnection.code(), -2);
    assert_eq!(StatusType::InternalServerError.code(), -3);
    assert_eq!(StatusType::AlreadySubscribed.code(), 6);
}

#[test]
fn action_codes_are_a_bijection() {
    for t in ALL_ACTIONS {
        assert_eq!(ActionType::from_code(t.code()), Ok(t));
    }
    let mut decoded = 0;
    for c in u8::MIN..=u8::MAX {
        if let Ok(t) = ActionType::from_code(c) {
            assert_eq!(t.code(), c);
            decoded += 1;
        } else {
            assert_eq!(ActionType::from_code(c), Err(Error::InvalidActionType));
        }
    }
    assert_eq!(decoded, 6);
    assert_eq!(ActionType::Create.code(), 3);
    assert_eq!(ActionType::Leave.code(), 4);
    assert_eq!(ActionType::Callback.code(), 5);
}

#[test]
fn request_round_trip_keeps_every_field() {
    for t in ALL_ACTIONS {
        let request = Request::new(
            Head::new(Version::new(1, 0), "alice"),
            Action::new(t, "test", "ping:x"),
            &[0x1F, 0, 0x1F, 255],
        );
        let back = Request::from_bytes(&request.to_bytes()).unwrap();
        assert_eq!(back.head().caller(), "alice");
        assert_eq!(back.action().action_type(), t);
        assert_eq!(back.action().module(), "test");
        assert_eq!(back.action().id(), "ping:x");
        assert_eq!(back.body(), &[0x1F, 0, 0x1F, 255]);
    }
}

#[test]
fn response_round_trip_keeps_every_status() {
    for s in ALL_STATUS {
        let response = Response::new(Head::new(Version::new(1, 7), "bob"), Status::new(s), &[0x1F]);
        let back = Response::from_bytes(&response.to_bytes()).unwrap();
        assert_eq!(back.status().status_type(), s);
        assert_eq!(back.head().version().patch(), 7);
        assert_eq!(back.head().caller(), "bob");
        assert_eq!(back.body(), &[0x1F]);
    }
}

#[test]
fn length_field_counts_the_payload() {
    let request = Request::new(
        Head::new(Version::actual(), "alice"),
        Action::new(ActionType::Invoke, "test", "ping"),
        "Hi".as_bytes(),
    );
    let bytes = request.to_bytes();
    let len = u32::from_be_bytes([bytes[1], bytes[2], bytes[3], bytes[4]]) as usize;
    assert_eq!(len, bytes.len() - 5);
    assert_eq!(complete_frame_len(&bytes), Some(bytes.len()));
    assert_eq!(complete_frame_len(&bytes[..bytes.len() - 1]), None);
    assert_eq!(complete_frame_len(&bytes[..4]), None);
    let mut two = bytes.clone();
    two.extend_from_slice(&bytes);
    assert_eq!(complete_frame_len(&two), Some(bytes.len()));
}

#[test]
fn empty_body_and_empty_names() {
    let request = Request::new(
        Head::new(Version::actual(), ""),
        Action::new(ActionType::Connect, "", ""),
        &[],
    );
    let bytes = request.to_bytes();
    assert_eq!(bytes, vec![0, 0, 0, 0, 8, 0, 1, 0, 0, 0x1F, 0, 0x3A, 0x1F]);
    let back = Request::from_bytes(&bytes).unwrap();
    assert_eq!(back.head().caller(), "");
    assert_eq!(back.action().module(), "");
    assert_eq!(back.action().id(), "");
    assert!(back.body().is_empty());
}

#[test]
fn long_caller_round_trips() {
    let caller = "c".repeat(100_000);
    let request = Request::new(
        Head::new(Version::actual(), &caller),
        Action::new(ActionType::Invoke, "m", "i"),
        &[],
    );
    assert!(request.fits_in_frame());
    let back = Request::from_bytes(&request.to_bytes()).unwrap();
    assert_eq!(back.head().caller(), caller);
}

#[test]
fn request_decode_errors() {
    let good = Request::new(
        Head::new(Version::actual(), "a"),
        Action::new(ActionType::Listen, "m", "i"),
        &[],
    )
    .to_bytes();
    assert_eq!(Request::from_bytes(&[]).unwrap_err(), Error::InvalidRequest);
    let mut wrong_start = good.clone();
    wrong_start[0] = 1;
    assert_eq!(Request::from_bytes(&wrong_start).unwrap_err(), Error::InvalidRequest);
    assert_eq!(Request::from_bytes(&good[..good.len() - 1]).unwrap_err(), Error::InvalidRequest);
    // one separator only
    assert_eq!(
        Request::from_bytes(&[0, 0, 0, 0, 6, 0, 1, 0, 0, 0x1F, 1]).unwrap_err(),
        Error::InvalidRequest
    );
    // head shorter than a version
    assert_eq!(
        Request::from_bytes(&[0, 0, 0, 0, 7, 0, 1, 0x1F, 1, 0x3A, 0x1F, 9]).unwrap_err(),
        Error::InvalidHead
    );
    // caller not UTF-8
    assert_eq!(
        Request::from_bytes(&[0, 0, 0, 0, 9, 0, 1, 0, 0, 0xFF, 0x1F, 1, 0x3A, 0x1F]).unwrap_err(),
        Error::InvalidHead
    );
    // unknown action type
    assert_eq!(
        Request::from_bytes(&[0, 0, 0, 0, 8, 0, 1, 0, 0, 0x1F, 9, 0x3A, 0x1F]).unwrap_err(),
        Error::InvalidActionType
    );
    // no ':' in the event name
    assert_eq!(
        Request::from_bytes(&[0, 0, 0, 0, 8, 0, 1, 0, 0, 0x1F, 1, 0x61, 0x1F]).unwrap_err(),
        Error::InvalidAction
    );
    assert_eq!(Action::from_bytes(&[]).unwrap_err(), Error::InvalidActionType);
    assert_eq!(Action::from_bytes(&[1, 0xC3, 0x3A]).unwrap_err(), Error::InvalidAction);
}

#[test]
fn response_decode_errors() {
    let good = Response::new_ok("a").to_bytes();
    assert_eq!(Response::from_bytes(&[]).unwrap_err(), Error::InvalidResponse);
    let mut wrong_start = good.clone();
    wrong_start[0] = 0;
    assert_eq!(Response::from_bytes(&wrong_start).unwrap_err(), Error::InvalidResponse);
    assert_eq!(
        Response::from_bytes(&[1, 0, 0, 0, 6, 0, 1, 0, 0, 0x1F, 0]).unwrap_err(),
        Error::InvalidResponse
    );
    assert_eq!(
        Response::from_bytes(&[1, 0, 0, 0, 7, 0, 1, 0, 0, 0x1F, 7, 0x1F]).unwrap_err(),
        Error::InvalidStatus
    );
    assert_eq!(
        Response::from_bytes(&[1, 0, 0, 0, 8, 0, 1, 0, 0, 0x1F, 0, 0, 0x1F]).unwrap_err(),
        Error::InvalidStatus
    );
    assert_eq!(Status::from_bytes(&[]).unwrap_err(), Error::InvalidStatus);
    assert_eq!(Version::from_bytes(&[0, 1, 0]).unwrap_err(), Error::InvalidHead);
    let negative = Response::from_bytes(&[1, 0, 0, 0, 7, 0, 1, 0, 0, 0x1F, 0xFD, 0x1F]).unwrap();
    assert_eq!(negative.status().status_type(), StatusType::InternalServerError);
}

#[test]
fn unexpected_error_carries_its_message() {
    let response = Response::new_unexpected_error("bob", "gone");
    assert_eq!(response.status().status_type(), StatusType::InternalServerError);
    assert_eq!(response.body_as_str().unwrap(), "gone");
    assert_eq!(response.head().caller(), "bob");
    assert_eq!(response.head().version().major(), 1);
}

#[test]
fn body_as_str_checks_utf8() {
    let request = Request::new(
        Head::new(Version::actual(), "a"),
        Action::new(ActionType::Invoke, "m", "i"),
        "héllo".as_bytes(),
    );
    assert_eq!(request.body_as_str().unwrap(), "héllo");
    let bad = Request::new(
        Head::new(Version::actual(), "a"),
        Action::new(ActionType::Invoke, "m", "i"),
        &[0xFF, 0xFE],
    );
    assert!(bad.body_as_str().is_err());
}

#[test]
fn non_ascii_names_round_trip() {
    let request = Request::new(
        Head::new(Version::actual(), "ünïcödé"),
        Action::new(ActionType::Create, "módulo", "ídé"),
        &[],
    );
    let back = Request::from_bytes(&request.to_bytes()).unwrap();
    assert_eq!(back.head().caller(), "ünïcödé");
    assert_eq!(back.action().module(), "módulo");
    assert_eq!(back.action().id(), "ídé");
}

#[test]
fn call_round_trip_and_errors() {
    let call = Call::new(Head::new(Version::new(1, 2), "345"), "hello".as_bytes());
    let bytes = call.to_bytes();
    assert_eq!(bytes, vec![0, 1, 0, 2, 51, 52, 53, 0x1F, 104, 101, 108, 108, 111]);
    let back = Call::from_bytes(&bytes).unwrap();
    assert_eq!(back.head().caller(), "345");
    assert_eq!(back.body_as_str().unwrap(), "hello");
    assert_eq!(Call::from_bytes(&[0, 1, 0, 2]).unwrap_err(), Error::InvalidCall);
    assert_eq!(Call::from_bytes(&[0, 1, 0, 2, 0x1F, 1, 0x1F]).unwrap_err(), Error::InvalidCall);
    assert_eq!(Call::from_bytes(&[0, 1, 0x1F, 1]).unwrap_err(), Error::InvalidHead);
}

#[test]
fn encode_refuses_fields_that_would_not_read_back() {
    let good = Request::new(
        Head::new(Version::actual(), "alice"),
        Action::new(ActionType::Invoke, "test", "a:b"),
        &[0x1F],
    );
    assert_eq!(good.encode(), Some(good.to_bytes()));
    let separator_in_caller = Request::new(
        Head::new(Version::actual(), "al\u{1f}ice"),
        Action::new(ActionType::Invoke, "test", "ping"),
        &[],
    );
    assert_eq!(separator_in_caller.encode(), None);
    let colon_in_module = Request::new(
        Head::new(Version::actual(), "alice"),
        Action::new(ActionType::Invoke, "te:st", "ping"),
        &[],
    );
    assert_eq!(colon_in_module.encode(), None);
    let separator_in_id = Request::new(
        Head::new(Version::actual(), "alice"),
        Action::new(ActionType::Invoke, "test", "pi\u{1f}ng"),
        &[],
    );
    assert_eq!(separator_in_id.encode(), None);
    let separator_in_version = Request::new(
        Head::new(Version::new(0x1F00, 0), "alice"),
        Action::new(ActionType::Invoke, "test", "ping"),
        &[],
    );
    assert_eq!(separator_in_version.encode(), None);
    let response = Response::new_ok("bob");
    assert_eq!(response.encode(), Some(response.to_bytes()));
    assert_eq!(Response::new_ok("b\u{1f}ob").encode(), None);
}
