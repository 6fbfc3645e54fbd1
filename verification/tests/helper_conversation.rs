use sudo_pop::helper::{after_answer, Action, Attempt, Outcome};

/// What the window was shown and asked during one pass.
#[derive(Default)]
struct Shown {
    prompts: Vec<(String, bool)>,
    infos: Vec<String>,
    errors: Vec<String>,
}

/// One pass through a helper that prints `lines`, answered from `answers`
/// (running out of answers is the window closing), the way the prompt
/// process reads the helper.
fn converse(lines: &[&str], answers: &[&str]) -> (Outcome, Shown) {
    let mut answers: Vec<&str> = answers.iter().rev().copied().collect();
    let mut shown = Shown::default();
    let mut state = Attempt::new();
    for line in lines {
        match state.on_line(&format!("{line}\n")) {
            Action::Ask { prompt, echo } => {
                shown.prompts.push((prompt, echo));
                let answered = answers.pop().is_some();
                if let Some(outcome) = after_answer(answered, true) {
                    return (outcome, shown);
                }
            }
            Action::Error(text) => shown.errors.push(text),
            Action::Info(text) => shown.infos.push(text),
            Action::Succeeded => return (Outcome::Success, shown),
            Action::End => break,
            Action::Skip => {}
        }
    }
    (state.finish(), shown)
}

#[test]
fn a_right_answer_ends_in_success() {
    let (outcome, shown) = converse(&["PAM_PROMPT_ECHO_OFF Password:", "SUCCESS"], &["hunter2"]);
    assert_eq!(outcome, Outcome::Success);
    assert_eq!(shown.prompts, vec![("Password:".to_owned(), false)]);
}

#[test]
fn a_wrong_answer_ends_as_a_failure_worth_retrying() {
    let (outcome, _) = converse(
        &["PAM_PROMPT_ECHO_OFF Password:", "PAM_ERROR_MSG Sorry", "FAILURE"],
        &["nope"],
    );
    assert_eq!(outcome, Outcome::Failed);
}

#[test]
fn a_refusal_before_any_prompt_is_no_failure() {
    let (outcome, shown) = converse(&["FAILURE"], &[]);
    assert_eq!(outcome, Outcome::RefusedWithoutPrompt);
    assert!(shown.prompts.is_empty());
    let (outcome, _) = converse(&[], &[]);
    assert_eq!(outcome, Outcome::RefusedWithoutPrompt, "a helper that closes at once");
}

#[test]
fn closing_the_window_mid_conversation_cancels() {
    let (outcome, _) = converse(&["PAM_PROMPT_ECHO_OFF Password:", "SUCCESS"], &[]);
    assert_eq!(outcome, Outcome::Cancelled);
}

#[test]
fn an_echoed_prompt_is_shown_as_typed() {
    let (outcome, shown) = converse(&["PAM_PROMPT_ECHO_ON Username:", "SUCCESS"], &["tester"]);
    assert_eq!(outcome, Outcome::Success);
    assert_eq!(shown.prompts, vec![("Username:".to_owned(), true)]);
}

#[test]
fn pam_messages_reach_the_window() {
    let (_, shown) = converse(
        &["PAM_TEXT_INFO Place your finger", "PAM_PROMPT_ECHO_OFF Password:", "SUCCESS"],
        &["hunter2"],
    );
    assert_eq!(shown.infos, vec!["Place your finger".to_owned()]);
    let (_, shown) = converse(
        &["PAM_ERROR_MSG Try again", "PAM_PROMPT_ECHO_OFF Password:", "SUCCESS"],
        &["hunter2"],
    );
    assert_eq!(shown.errors, vec!["Try again".to_owned()]);
}
