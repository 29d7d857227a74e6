use tuser::directory::interpret_fetch;
use tuser::directory::render_request_url;
use tuser::directory::DirectoryRecord;
use tuser::handler::plan;
use tuser::handler::InboundCommand;
use tuser::handler::PlanOutcome;

fn ninja_record() -> DirectoryRecord {
    DirectoryRecord {
        kind: "".to_string(),
        id: "19571641".to_string(),
        login: "ninja".to_string(),
        display_name: "Ninja".to_string(),
        account_type: "partner".to_string(),
        description: "".to_string(),
        avatar_url: "http://x/y.png".to_string(),
        offline_image_url: "".to_string(),
    }
}

fn command(token: &str, text: &str) -> InboundCommand {
    InboundCommand { token: token.to_string(), text: text.to_string() }
}

#[test]
fn matching_secret_and_one_resolved_login() {
    let cmd = command("secret", "ninja");
    let q = match plan(&cmd, "secret") {
        PlanOutcome::Fetch(q) => q,
        PlanOutcome::Respond(_) => panic!("expected a fetch"),
    };
    assert!(q.numeric_ids.is_empty());
    assert_eq!(q.login_names, vec!["ninja".to_string()]);
    assert_eq!(render_request_url(&q), "https://api.twitch.tv/helix/users?login=ninja");

    let outcome = interpret_fetch(true, 200, Some(vec![ninja_record()]));
    let m = tuser::message::format(outcome, &cmd.text);
    assert_eq!(m.response_type, "in_channel");
    assert_eq!(m.text, "");
    assert_eq!(m.attachments.len(), 1);
    assert_eq!(m.attachments[0].color, "#73535ad");
    assert_eq!(m.attachments[0].author_name, "Ninja: 19571641");
    assert_eq!(m.attachments[0].author_icon, "http://x/y.png");
}

#[test]
fn directory_status_500_yields_failure_message() {
    let cmd = command("secret", "ninja");
    let q = match plan(&cmd, "secret") {
        PlanOutcome::Fetch(q) => q,
        PlanOutcome::Respond(_) => panic!("expected a fetch"),
    };
    let _ = render_request_url(&q);
    let outcome = interpret_fetch(true, 500, None);
    let m = tuser::message::format(outcome, &cmd.text);
    assert_eq!(m.response_type, "in_channel");
    assert_eq!(m.text, "User lookup failed for ninja");
    assert!(m.attachments.is_empty());
}

#[test]
fn comma_only_text_fails_before_any_directory_call() {
    let cmd = command("secret", ",");
    let m = match plan(&cmd, "secret") {
        PlanOutcome::Respond(m) => m,
        PlanOutcome::Fetch(_) => panic!("no directory call may be planned"),
    };
    assert_eq!(m.response_type, "in_channel");
    assert_eq!(m.text, "User lookup failed for ,");
    assert!(m.attachments.is_empty());
}

#[test]
fn wrong_secret_fails_before_any_directory_call() {
    let cmd = command("wrong", "ninja");
    let m = match plan(&cmd, "secret") {
        PlanOutcome::Respond(m) => m,
        PlanOutcome::Fetch(_) => panic!("no directory call may be planned"),
    };
    assert_eq!(m.text, "User lookup failed for ninja");
    assert!(m.attachments.is_empty());
}

#[test]
fn transport_failure_yields_failure_message() {
    let cmd = command("secret", "123");
    let q = match plan(&cmd, "secret") {
        PlanOutcome::Fetch(q) => q,
        PlanOutcome::Respond(_) => panic!("expected a fetch"),
    };
    assert_eq!(render_request_url(&q), "https://api.twitch.tv/helix/users?id=123&");
    let m = tuser::message::format(interpret_fetch(false, 0, None), &cmd.text);
    assert_eq!(m.text, "User lookup failed for 123");
    assert!(m.attachments.is_empty());
}
