use ywpm::action::Action;
use ywpm::daemon::{confirmation_question, next_loop_step, read_answer, Answer, LoopStep, PollOutcome};

#[test]
fn loop_steps() {
    assert_eq!(
        next_loop_step(PollOutcome::TimedOut),
        LoopStep { set_random: true, serve_client: false, shut_down: false, fail: false }
    );
    assert_eq!(
        next_loop_step(PollOutcome::Ready { client: true, signal: true }),
        LoopStep { set_random: false, serve_client: true, shut_down: true, fail: false }
    );
    assert_eq!(
        next_loop_step(PollOutcome::Interrupted),
        LoopStep { set_random: false, serve_client: false, shut_down: false, fail: false }
    );
    assert!(next_loop_step(PollOutcome::Failed).fail);
}

#[test]
fn answers() {
    assert_eq!(read_answer(" Y \n"), Answer::Yes);
    assert_eq!(read_answer("yes"), Answer::Yes);
    assert_eq!(read_answer("NO"), Answer::No);
    assert_eq!(read_answer("n"), Answer::No);
    assert_eq!(read_answer("maybe"), Answer::Unclear);
    assert_eq!(read_answer(""), Answer::Unclear);
}

#[test]
fn questions() {
    assert_eq!(
        confirmation_question(&Action::ClearNodes, false),
        Some("Do you really want to remove all data from database?".to_string())
    );
    assert_eq!(
        confirmation_question(&Action::RemoveGroup { name: "g".to_string() }, true),
        Some("Вы действительно хотите удалить группу из базы данных?".to_string())
    );
    assert_eq!(confirmation_question(&Action::GetNodeList, false), None);
    assert!(Action::ClearNodes.needs_config_update());
    assert!(!Action::GetNodeList.needs_config_update());
}
