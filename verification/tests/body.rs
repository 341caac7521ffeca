use hyper::body::Bytes;
use load_balancer::body::{
    handle_body, plan_body, AttemptBody, BodyBuffer, BodyEvent, BodyStep, PrefixBody, RequestBody,
    MAX_BUFFER_BYTES,
};

const REST: &str = "rest";

fn read(buffer: BodyBuffer, event: BodyEvent) -> BodyBuffer {
    match handle_body(buffer, event, REST) {
        BodyStep::Read(more, rest) => {
            assert_eq!(rest, REST);
            more
        }
        _ => panic!("expected to read on"),
    }
}

fn kept(buffer: BodyBuffer) -> Bytes {
    match handle_body(buffer, BodyEvent::End, REST) {
        BodyStep::Send(RequestBody::Retriable { bytes }) => bytes,
        _ => panic!("expected the whole body"),
    }
}

fn overflow(buffer: BodyBuffer, event: BodyEvent) -> Bytes {
    match handle_body(buffer, event, REST) {
        BodyStep::Send(RequestBody::OneShot(mut stream)) => {
            let prefix = stream.poll_prefix().unwrap();
            assert_eq!(stream.poll_prefix(), None);
            assert_eq!(stream.rest, REST);
            prefix
        }
        _ => panic!("expected to send once"),
    }
}

fn data(bytes: &'static [u8]) -> BodyEvent {
    BodyEvent::Data(Bytes::from_static(bytes))
}

#[test]
fn small_body_is_kept_whole() {
    let buffer = read(BodyBuffer::new(), data(b"hello "));
    let buffer = read(buffer, BodyEvent::NotData);
    let buffer = read(buffer, data(b""));
    let buffer = read(buffer, data(b"world"));
    assert_eq!(&kept(buffer)[..], b"hello world");
}

#[test]
fn empty_body_is_kept() {
    assert!(kept(BodyBuffer::new()).is_empty());
}

#[test]
fn body_of_just_the_limit_is_kept() {
    assert_eq!(MAX_BUFFER_BYTES, 1048576);
    let all = vec![7u8; MAX_BUFFER_BYTES];
    let buffer = read(BodyBuffer::new(), BodyEvent::Data(Bytes::from(all.clone())));
    assert_eq!(&kept(buffer)[..], &all[..]);
}

#[test]
fn body_past_the_limit_goes_once_with_what_was_read() {
    let most = vec![7u8; MAX_BUFFER_BYTES];
    let buffer = read(BodyBuffer::new(), BodyEvent::Data(Bytes::from(most.clone())));
    let prefix = overflow(buffer, data(b"end"));
    assert_eq!(prefix.len(), MAX_BUFFER_BYTES + 3);
    assert_eq!(&prefix[..MAX_BUFFER_BYTES], &most[..]);
    assert_eq!(&prefix[MAX_BUFFER_BYTES..], b"end");
}

#[test]
fn single_frame_past_the_limit_goes_once() {
    let all = vec![1u8; MAX_BUFFER_BYTES + 1];
    let prefix = overflow(BodyBuffer::new(), BodyEvent::Data(Bytes::from(all.clone())));
    assert_eq!(&prefix[..], &all[..]);
}

#[test]
fn broken_body_is_refused() {
    let buffer = read(BodyBuffer::new(), data(b"half"));
    match handle_body(buffer, BodyEvent::Failed, REST) {
        BodyStep::Refuse(response) => {
            assert_eq!(response.status, 400);
            assert_eq!(&response.body[..], b"recieve request failed");
        }
        _ => panic!("expected a refusal"),
    }
}

#[test]
fn only_repeatable_requests_have_their_bodies_kept() {
    for method in ["GET", "HEAD", "OPTIONS", "PUT", "DELETE"] {
        match plan_body(method, REST) {
            BodyStep::Read(buffer, rest) => {
                assert_eq!(rest, REST);
                assert!(kept(buffer).is_empty());
            }
            _ => panic!("expected to read the body"),
        }
    }
    for method in ["POST", "PATCH", "get"] {
        match plan_body(method, REST) {
            BodyStep::Send(body) => {
                assert_eq!(body.max_attempts(), 1);
                match body {
                    RequestBody::OneShot(mut stream) => {
                        assert_eq!(stream.poll_prefix(), None);
                        assert_eq!(stream.rest, REST);
                    }
                    RequestBody::Retriable { .. } => panic!("expected a stream"),
                }
            }
            _ => panic!("expected to pass the body on"),
        }
    }
}

#[test]
fn reshaping_a_stream_leaves_the_kind_of_body_alone() {
    let kept: RequestBody<u8> = RequestBody::Retriable {
        bytes: Bytes::from_static(b"x"),
    };
    match kept.map_stream(|_| 0u32) {
        RequestBody::Retriable { bytes } => assert_eq!(&bytes[..], b"x"),
        RequestBody::OneShot(_) => panic!("expected the kept bytes"),
    }
    match RequestBody::OneShot(4u8).map_stream(|stream| u32::from(stream) + 1) {
        RequestBody::OneShot(stream) => assert_eq!(stream, 5),
        RequestBody::Retriable { .. } => panic!("expected a stream"),
    }
}

#[test]
fn attempts_depend_on_the_body() {
    let kept: RequestBody<u8> = RequestBody::Retriable {
        bytes: Bytes::from_static(b"x"),
    };
    assert_eq!(kept.max_attempts(), 3);
    assert_eq!(RequestBody::OneShot(1u8).max_attempts(), 1);
}

#[test]
fn kept_body_is_the_same_every_time() {
    let mut body: RequestBody<&str> = RequestBody::Retriable {
        bytes: Bytes::from_static(b"payload"),
    };
    for _ in 0..3 {
        match body.attempt_body("empty") {
            AttemptBody::Buffered(bytes) => assert_eq!(&bytes[..], b"payload"),
            AttemptBody::Streamed(_) => panic!("expected the kept bytes"),
        }
    }
}

#[test]
fn stream_is_moved_out_once() {
    let mut body = RequestBody::OneShot("stream");
    assert!(matches!(body.attempt_body("empty"), AttemptBody::Streamed("stream")));
    assert!(matches!(body.attempt_body("other"), AttemptBody::Streamed("empty")));
    assert_eq!(body.max_attempts(), 1);
}

#[test]
fn prefix_comes_before_the_rest_and_once() {
    let mut body = PrefixBody::new(Bytes::from_static(b"head"), 5u32);
    assert_eq!(body.poll_prefix(), Some(Bytes::from_static(b"head")));
    assert_eq!(body.poll_prefix(), None);
    assert_eq!(body.rest, 5);
}
