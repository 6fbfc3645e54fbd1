use sudo_pop::helper::{after_answer, after_socket, split_tag, Action, Attempt, Outcome};

fn pair(a: &str, b: &str) -> (String, String) {
    (a.to_owned(), b.to_owned())
}

#[test]
fn a_tag_splits_off_its_body_on_the_first_space() {
    assert_eq!(
        split_tag("PAM_PROMPT_ECHO_OFF Password:"),
        pair("PAM_PROMPT_ECHO_OFF", "Password:")
    );
    assert_eq!(
        split_tag("PAM_TEXT_INFO Place your finger"),
        pair("PAM_TEXT_INFO", "Place your finger")
    );
}

#[test]
fn a_bare_tag_has_an_empty_body() {
    assert_eq!(split_tag("SUCCESS"), pair("SUCCESS", ""));
    assert_eq!(split_tag("FAILURE"), pair("FAILURE", ""));
}

#[test]
fn only_the_first_space_is_the_separator() {
    assert_eq!(
        split_tag("PAM_ERROR_MSG  two spaces"),
        pair("PAM_ERROR_MSG", " two spaces")
    );
}

#[test]
fn a_prompt_marks_the_attempt_and_says_whether_to_echo() {
    let mut a = Attempt::new();
    assert_eq!(a.finish(), Outcome::RefusedWithoutPrompt, "nothing asked, nothing failed");
    match a.on_line("PAM_PROMPT_ECHO_ON Username:\n") {
        Action::Ask { prompt, echo } => {
            assert_eq!(prompt, "Username:");
            assert!(echo, "an echo-on prompt is shown as typed");
        }
        _ => panic!("a prompt asks"),
    }
    match a.on_line("PAM_PROMPT_ECHO_OFF Password:\n") {
        Action::Ask { prompt, echo } => {
            assert_eq!(prompt, "Password:");
            assert!(!echo);
        }
        _ => panic!("a prompt asks"),
    }
    assert!(matches!(a.on_line("FAILURE\n"), Action::End));
    assert_eq!(a.finish(), Outcome::Failed, "asked and rejected is worth retrying");
}

#[test]
fn messages_and_verdicts_are_told_apart() {
    let mut a = Attempt::new();
    assert!(matches!(a.on_line("PAM_ERROR_MSG bad\n"), Action::Error(t) if t == "bad"));
    assert!(matches!(a.on_line("PAM_TEXT_INFO hi\n"), Action::Info(t) if t == "hi"));
    assert!(matches!(a.on_line("SUCCESS\n"), Action::Succeeded));
    assert!(matches!(a.on_line("SOMETHING else\n"), Action::Skip));
    assert!(!a.saw_prompt, "messages are not prompts");
}

#[test]
fn a_closed_prompt_cancels_and_a_lost_answer_fails() {
    assert_eq!(after_answer(false, false), Some(Outcome::Cancelled));
    assert_eq!(after_answer(true, false), Some(Outcome::Failed));
    assert_eq!(after_answer(true, true), None);
}

#[test]
fn only_a_silent_refusal_tries_the_other_door() {
    assert_eq!(after_socket(Outcome::RefusedWithoutPrompt), None);
    assert_eq!(after_socket(Outcome::Success), Some(Outcome::Success));
    assert_eq!(after_socket(Outcome::Failed), Some(Outcome::Failed));
    assert_eq!(after_socket(Outcome::Cancelled), Some(Outcome::Cancelled));
}
