//! Which failures are worth another go. **Telegram says it in words, not
//! codes.**

use nsc_work_man::trouble::{judge_reply, Answer, Pause, SendError};

#[test]
fn telegram_being_busy_is_worth_trying_again() {
    let busy = SendError::Refused("Too Many Requests: retry after 30".into());
    let bad_token = SendError::Refused("Unauthorized".into());

    assert!(busy.answer().worth_trying_again());
    assert_eq!(bad_token.answer(), Answer::GiveUp);
}

#[test]
fn a_missing_picture_is_settled() {
    let missing = SendError::NoPicture {
        path: "preview/chart.png".into(),
        detail: "no such file".into(),
    };

    assert_eq!(missing.answer(), Answer::GiveUp);
}

#[test]
fn a_missing_token_is_settled() {
    assert_eq!(
        SendError::NotSet("TELEGRAM_BOT_TOKEN").answer(),
        Answer::GiveUp
    );
}

/// Either phrase on its own is enough.
#[test]
fn retry_after_alone_is_worth_waiting_for() {
    let later = SendError::Refused("Bad Request: retry after 5".into());

    assert_eq!(later.answer(), Answer::in_a_while());
    assert_eq!(later.answer().wait(), Some(Pause::from_millis(30_000)));
}

/// A line that would not connect is worth another go soon.
#[test]
fn an_unreachable_telegram_is_tried_again_soon() {
    let gone = SendError::Unreachable("connection reset".into());

    assert_eq!(gone.answer(), Answer::soon());
    assert_eq!(gone.answer().wait(), Some(Pause::from_millis(3_000)));
    assert_eq!(Answer::GiveUp.wait(), None);
}

/// The words are the ones the error has always said.
#[test]
fn each_trouble_says_what_it_is() {
    assert_eq!(
        SendError::NotSet("TELEGRAM_CHAT_ID").message(),
        "TELEGRAM_CHAT_ID is not set"
    );
    assert_eq!(
        SendError::NoPicture {
            path: "preview/chart.png".into(),
            detail: "no such file".into()
        }
        .message(),
        "could not read preview/chart.png: no such file"
    );
    assert_eq!(
        SendError::Unreachable("timed out".into()).message(),
        "could not reach Telegram: timed out"
    );
    assert_eq!(
        SendError::Refused("Unauthorized".into()).message(),
        "Telegram refused: Unauthorized"
    );
}

/// **Refused is not sent.** A reply that parses is not a message that
/// arrived.
#[test]
fn a_reply_that_is_not_ok_is_refused() {
    assert!(judge_reply(true, None).is_ok());

    match judge_reply(false, Some("chat not found".to_string())) {
        Err(SendError::Refused(why)) => assert_eq!(why, "chat not found"),
        other => panic!("expected a refusal, got {other:?}"),
    }

    match judge_reply(false, None) {
        Err(SendError::Refused(why)) => assert_eq!(why, "no reason given"),
        other => panic!("expected a refusal, got {other:?}"),
    }
}
