use hyper::body::Bytes;
use load_balancer::balancer::Balancer;
use load_balancer::body::{AttemptBody, RequestBody};
use load_balancer::exchange::{handle_connection, Connecting, RequestError, Step};
use load_balancer::http::ErrorResponse;
use load_balancer::retry_budget::RetryBudget;

fn balancer(addresses: &[&'static str], max_tokens: u8) -> Balancer {
    Balancer::new(&addresses.to_vec(), RetryBudget::new(max_tokens, 10))
}

fn kept() -> RequestBody<&'static str> {
    RequestBody::Retriable {
        bytes: Bytes::from_static(b"payload"),
    }
}

fn connect(step: Step<&'static str>) -> Connecting<&'static str> {
    match step {
        Step::Connect(connecting) => connecting,
        Step::Reply(response) => panic!("unexpected reply {}", response.status),
    }
}

fn answer(step: Step<&'static str>) -> ErrorResponse {
    match step {
        Step::Connect(connecting) => panic!("unexpected try at {}", connecting.backend_addr()),
        Step::Reply(response) => response,
    }
}

fn assert_answer(step: Step<&'static str>, status: u16, message: &str) {
    let response = answer(step);
    assert_eq!(response.status, status);
    assert_eq!(&response.body[..], message.as_bytes());
}

fn paid_for(balancer: &mut Balancer) -> u32 {
    let mut retries = 0;
    while balancer.retry_budget.try_withdraw() {
        retries += 1;
    }
    retries
}

#[test]
fn new_balancer_has_fresh_backends_in_order() {
    let balancer = balancer(&["a:1", "b:2"], 100);
    assert_eq!(balancer.backends.len(), 2);
    assert_eq!(balancer.backends[0].addr, "a:1");
    assert_eq!(balancer.backends[1].addr, "b:2");
    assert!(balancer.backends.iter().all(|b| b.is_enabled_and_healthy()));
    assert_eq!(balancer.index, 0);
}

#[test]
fn request_is_accepted_while_a_backend_is_healthy() {
    let mut balancer = balancer(&["a:1", "b:2"], 10);
    assert!(balancer.retry_budget.try_withdraw());
    balancer.backends[0].healthy = false;
    for _ in 0..10 {
        assert!(balancer.accept_request().is_ok());
    }
    assert_eq!(paid_for(&mut balancer), 1);
}

#[test]
fn request_is_refused_when_no_backend_is_healthy() {
    let mut balancer = balancer(&["a:1", "b:2"], 10);
    assert!(balancer.retry_budget.try_withdraw());
    balancer.backends[0].healthy = false;
    balancer.backends[1].healthy = false;
    for _ in 0..10 {
        match balancer.accept_request() {
            Ok(()) => panic!("expected a refusal"),
            Err(response) => {
                assert_eq!(response.status, 503);
                assert_eq!(&response.body[..], b"no healthy backend available");
            }
        }
    }
    assert_eq!(paid_for(&mut balancer), 0);
}

#[test]
fn backends_take_turns() {
    let mut balancer = balancer(&["a:1", "b:2", "c:3"], 100);
    let none = Vec::new();
    let picked: Vec<Option<usize>> = (0..7).map(|_| balancer.pick_backend(&none)).collect();
    assert_eq!(
        picked,
        vec![Some(0), Some(1), Some(2), Some(0), Some(1), Some(2), Some(0)]
    );
    assert_eq!(balancer.index, 7);
}

#[test]
fn turns_skip_unusable_backends() {
    let mut balancer = balancer(&["a:1", "b:2", "c:3", "d:4"], 100);
    balancer.backends[0].healthy = false;
    balancer.backends[2].disable();
    let none = Vec::new();
    assert_eq!(balancer.pick_backend(&none), Some(1));
    assert_eq!(balancer.pick_backend(&none), Some(3));
    let tried = vec![String::from("d:4")];
    assert_eq!(balancer.pick_backend(&tried), Some(1));
    let tried = vec![String::from("d:4"), String::from("b:2")];
    assert_eq!(balancer.pick_backend(&tried), None);
    assert_eq!(balancer.index, 3);
}

#[test]
fn backends_at_a_tried_address_are_skipped() {
    let mut balancer = balancer(&["a:1", "a:1", "b:2"], 100);
    let tried = vec![String::from("a:1")];
    assert_eq!(balancer.pick_backend(&tried), Some(2));
}

#[test]
fn turn_wraps_around() {
    let mut balancer = balancer(&["a:1", "b:2"], 100);
    balancer.index = usize::MAX;
    let none = Vec::new();
    assert_eq!(balancer.pick_backend(&none), Some(1));
    assert_eq!(balancer.index, 0);
    assert_eq!(balancer.pick_backend(&none), Some(0));
}

#[test]
fn answered_request_clears_the_backend() {
    let mut balancer = balancer(&["a:1", "b:2"], 100);
    balancer.backends[0].record_failure();
    balancer.backends[1].record_failure();
    let connecting = connect(handle_connection(&mut balancer, kept()));
    assert_eq!(connecting.backend_addr(), "a:1");
    assert_eq!(connecting.backend(), 0);
    let (sending, body) = connecting.connected("empty");
    assert!(matches!(body, AttemptBody::Buffered(bytes) if &bytes[..] == b"payload"));
    assert_eq!(sending.backend(), 0);
    assert_eq!(sending.answered(&mut balancer), "a:1");
    assert_eq!(balancer.backends[0].consecutive_failures, 0);
    assert_eq!(balancer.backends[1].consecutive_failures, 1);
    assert_eq!(paid_for(&mut balancer), 10);
}

#[test]
fn disabled_backends_get_no_requests() {
    let mut balancer = balancer(&["a:1", "b:2"], 100);
    balancer.backends[0].disable();
    for _ in 0..4 {
        let connecting = connect(handle_connection(&mut balancer, kept()));
        assert_eq!(connecting.backend_addr(), "b:2");
    }
    balancer.backends[1].disable();
    assert!(balancer.accept_request().is_ok());
    let step = handle_connection(&mut balancer, kept());
    assert_answer(step, 503, "no healthy backend available");
}

#[test]
fn unreachable_backends_are_tried_one_after_another() {
    let mut balancer = balancer(&["a:1", "b:2", "c:3", "d:4"], 100);
    let first = connect(handle_connection(&mut balancer, kept()));
    assert_eq!(first.backend_addr(), "a:1");
    let second = connect(first.failed(&mut balancer));
    assert_eq!(second.backend_addr(), "c:3");
    let third = connect(second.failed(&mut balancer));
    assert_eq!(third.backend_addr(), "b:2");
    let step = third.failed(&mut balancer);
    assert_answer(step, 502, "could not connect to backend");
    let failures: Vec<u8> = balancer.backends.iter().map(|b| b.consecutive_failures).collect();
    assert_eq!(failures, vec![1, 1, 1, 0]);
    assert_eq!(paid_for(&mut balancer), 8);
}

#[test]
fn retries_stop_when_the_budget_is_spent() {
    let mut balancer = balancer(&["a:1", "b:2", "c:3"], 10);
    let first = connect(handle_connection(&mut balancer, kept()));
    let second = connect(first.failed(&mut balancer));
    let step = second.failed(&mut balancer);
    assert_answer(step, 502, "could not connect to backend");

    let first = connect(handle_connection(&mut balancer, kept()));
    let (sending, _) = first.connected("empty");
    let step = sending.failed(RequestError::TimedOut, &mut balancer);
    assert_answer(step, 504, "request to backend timed out");
}

#[test]
fn search_ends_when_no_backend_is_left() {
    let mut balancer = balancer(&["a:1", "b:2"], 100);
    let first = connect(handle_connection(&mut balancer, kept()));
    let second = connect(first.failed(&mut balancer));
    let step = second.failed(&mut balancer);
    assert_answer(step, 503, "no healthy backend available");
    assert_eq!(paid_for(&mut balancer), 8);
}

#[test]
fn lost_request_is_sent_again_with_the_same_body() {
    let mut balancer = balancer(&["a:1", "b:2", "c:3", "d:4"], 100);
    let mut connecting = connect(handle_connection(&mut balancer, kept()));
    for _ in 0..2 {
        let (sending, body) = connecting.connected("empty");
        assert!(matches!(body, AttemptBody::Buffered(bytes) if &bytes[..] == b"payload"));
        connecting = connect(sending.failed(RequestError::Failed, &mut balancer));
    }
    let (sending, body) = connecting.connected("empty");
    assert!(matches!(body, AttemptBody::Buffered(bytes) if &bytes[..] == b"payload"));
    let step = sending.failed(RequestError::Failed, &mut balancer);
    assert_answer(step, 502, "backend closed connection or failed mid-request");
    assert_eq!(paid_for(&mut balancer), 8);
}

#[test]
fn one_shot_request_is_sent_once() {
    let mut balancer = balancer(&["a:1", "b:2"], 100);
    let connecting = connect(handle_connection(&mut balancer, RequestBody::OneShot("stream")));
    let (sending, body) = connecting.connected("empty");
    assert!(matches!(body, AttemptBody::Streamed("stream")));
    let step = sending.failed(RequestError::TimedOut, &mut balancer);
    assert_answer(step, 504, "request to backend timed out");
    assert_eq!(balancer.backends[0].consecutive_failures, 1);
    assert_eq!(paid_for(&mut balancer), 10);
}

#[test]
fn one_shot_request_may_look_for_another_connection() {
    let mut balancer = balancer(&["a:1", "b:2"], 100);
    let first = connect(handle_connection(&mut balancer, RequestBody::OneShot("stream")));
    let second = connect(first.failed(&mut balancer));
    let (_, body) = second.connected("empty");
    assert!(matches!(body, AttemptBody::Streamed("stream")));
}

#[test]
fn three_failures_of_either_kind_end_a_request() {
    let mut balancer = balancer(&["a:1", "b:2", "c:3", "d:4"], 100);
    let first = connect(handle_connection(&mut balancer, kept()));
    let second = connect(first.failed(&mut balancer));
    let third = connect(second.failed(&mut balancer));
    let (sending, _) = third.connected("empty");
    let step = sending.failed(RequestError::Failed, &mut balancer);
    assert_answer(step, 502, "could not connect to backend");
    assert_eq!(paid_for(&mut balancer), 7);
}

#[test]
fn request_failures_take_a_backend_down() {
    let mut balancer = balancer(&["a:1"], 100);
    for left in [2, 1, 0] {
        let connecting = connect(handle_connection(&mut balancer, RequestBody::OneShot("s")));
        let (sending, _) = connecting.connected("empty");
        let step = sending.failed(RequestError::Failed, &mut balancer);
        assert_answer(step, 502, "backend closed connection or failed mid-request");
        assert_eq!(balancer.backends[0].healthy, left > 0);
    }
    assert!(balancer.accept_request().is_err());
}
