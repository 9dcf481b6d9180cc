//! Requests to and replies from the server.

use poker_ai::play::slumbot::{
    act_body, after_reply, backoff, endpoint_url, login_body, login_token, new_hand_body,
    HandResponse, PostStep, Reply,
};

fn text(r: PostStep) -> String {
    match r {
        PostStep::Finish(Err(text)) => text,
        _ => panic!("expected an error"),
    }
}

#[test]
fn bodies_are_json_objects() {
    assert_eq!(new_hand_body(None), "{}");
    assert_eq!(new_hand_body(Some("a-b")), r#"{"token":"a-b"}"#);
    assert_eq!(act_body("t", "b200"), r#"{"incr":"b200","token":"t"}"#);
    assert_eq!(
        login_body("me", "a\"b\\c\n"),
        r#"{"password":"a\"b\\c\n","username":"me"}"#
    );
}

#[test]
fn failures_are_retried_with_backoff_and_then_told() {
    for (attempt, delay) in [(0u32, 4u64), (1, 8), (2, 16)] {
        match after_reply(attempt, Reply::Transport("down".to_string())) {
            PostStep::Retry { attempt: next, delay_secs } => {
                assert_eq!(next, attempt + 1);
                assert_eq!(delay_secs, delay);
                assert_eq!(backoff(next), delay);
            }
            PostStep::Finish(_) => panic!("attempt {attempt} is not the last"),
        }
    }
    assert_eq!(backoff(0), 0);
    assert_eq!(text(after_reply(3, Reply::Transport("down".to_string()))), "transport error: down");
    assert_eq!(text(after_reply(3, Reply::Unreadable("eof".to_string()))), "read error: eof");
    assert_eq!(
        text(after_reply(3, Reply::BadJson("no".to_string(), "<html>".to_string()))),
        "bad JSON (no): <html>"
    );
}

#[test]
fn answers_end_the_exchange() {
    let answer = HandResponse { action: Some("b200".to_string()), ..HandResponse::default() };
    match after_reply(0, Reply::Answer(answer)) {
        PostStep::Finish(Ok(r)) => assert_eq!(r.action.as_deref(), Some("b200")),
        _ => panic!("an answer is final"),
    }
    let refused = HandResponse { error_msg: Some("bad token".to_string()), ..HandResponse::default() };
    assert_eq!(text(after_reply(0, Reply::Answer(refused))), "server error: bad token");
}

#[test]
fn a_login_needs_a_token() {
    let with = HandResponse { token: Some("tok".to_string()), ..HandResponse::default() };
    assert_eq!(login_token(with), Ok("tok".to_string()));
    assert_eq!(
        login_token(HandResponse::default()),
        Err("login response had no token".to_string())
    );
}

#[test]
fn endpoints_hang_under_the_base() {
    assert_eq!(endpoint_url("https://host/api", "act"), "https://host/api/act");
}
