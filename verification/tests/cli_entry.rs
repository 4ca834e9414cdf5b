use vibe_check::cli::{event_variable, not_yet_implemented, refuse_pull_request_target, Env, FAILURE};

/// An environment with exactly the variables a test names.
struct FakeEnv<'a>(&'a [(&'a str, &'a str)]);

impl Env for FakeEnv<'_> {
    fn var(&self, name: &str) -> Option<String> {
        self.0
            .iter()
            .find(|(key, _)| *key == name)
            .map(|(_, value)| (*value).to_owned())
    }
}

#[test]
fn pull_request_target_is_refused_by_name() {
    let message =
        refuse_pull_request_target(&FakeEnv(&[("GITHUB_EVENT_NAME", "pull_request_target")]))
            .expect_err("the trigger is refused");
    assert!(message.contains("pull_request_target"), "names the trigger: {message}");
    assert!(
        message.contains("no option that permits this"),
        "says there is no escape hatch, because there is not: {message}"
    );
}

#[test]
fn every_other_trigger_is_allowed() {
    for event in ["pull_request", "push", "merge_group", "schedule", ""] {
        let bindings = [("GITHUB_EVENT_NAME", event)];
        let allowed = refuse_pull_request_target(&FakeEnv(&bindings)).is_ok();
        assert!(allowed, "`{event}` must be allowed");
    }
    assert!(
        refuse_pull_request_target(&FakeEnv(&[])).is_ok(),
        "an unset GITHUB_EVENT_NAME is the local case and must be allowed"
    );
}

#[test]
fn the_error_explains_itself() {
    let message = not_yet_implemented("classify");
    assert!(message.contains("classify"), "names the command: {message}");
    assert!(message.contains("milestone"), "says why: {message}");
    assert!(message.contains(&format!("Exiting {FAILURE} rather than 0")));
}

#[test]
fn the_event_is_read_from_the_actions_variable() {
    assert_eq!(event_variable(), "GITHUB_EVENT_NAME");
    assert!(refuse_pull_request_target(&FakeEnv(&[("GITHUB_EVENT", "pull_request_target")])).is_ok());
}
