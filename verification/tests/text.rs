use swec::api_util::{not_found_response, put_action_response, ApiError};
use swec::checker::{Checker, ParsedUrl, ProbeOutcome};
use swec::names::{compare, NameOrder};
use swec::service::ServiceAction;
use swec::spec::Spec;
use swec::state_actor::{ServiceNotFoundError, WriteError};
use swec::status::{Status, TimedStatus};
use swec::text::{decimal_string, find_from, same, split_once};
use swec::time::Timestamp;

fn pair(key: &str, value: &str) -> (String, String) {
    (key.to_string(), value.to_string())
}

fn some(s: &str) -> Option<String> {
    Some(s.to_string())
}

#[test]
fn decimal_string_writes_numbers() {
    assert_eq!(decimal_string(0), "0");
    assert_eq!(decimal_string(7), "7");
    assert_eq!(decimal_string(10), "10");
    assert_eq!(decimal_string(1905), "1905");
    assert_eq!(decimal_string(u32::MAX), "4294967295");
    for n in [9u32, 99, 100, 101, 65_536, 1_000_000_000] {
        assert_eq!(decimal_string(n), n.to_string());
    }
}

#[test]
fn find_from_counts_characters() {
    assert_eq!(find_from("a#b#c", '#', 0), 1);
    assert_eq!(find_from("a#b#c", '#', 1), 1);
    assert_eq!(find_from("a#b#c", '#', 2), 3);
    assert_eq!(find_from("a#b#c", '#', 4), 5);
    assert_eq!(find_from("a#b#c", '#', 5), 5);
    assert_eq!(find_from("", '#', 0), 0);
    assert_eq!(find_from("héé#", '#', 0), 3);
}

#[test]
fn split_once_splits_at_the_first() {
    assert_eq!(split_once("up#all#good", '#'), Some(("up", "all#good")));
    assert_eq!(split_once("#", '#'), Some(("", "")));
    assert_eq!(split_once("é#ü", '#'), Some(("é", "ü")));
    assert_eq!(split_once("nothing", '#'), None);
}

#[test]
fn same_compares_texts() {
    assert!(same("up", "up"));
    assert!(same("", ""));
    assert!(!same("up", "Up"));
    assert!(!same("up", "upp"));
    assert!(!same("upp", "up"));
}

#[test]
fn compare_orders_names_by_bytes() {
    assert_eq!(compare("a", "b"), NameOrder::Before);
    assert_eq!(compare("b", "a"), NameOrder::After);
    assert_eq!(compare("a", "a"), NameOrder::Same);
    assert_eq!(compare("", "a"), NameOrder::Before);
    assert_eq!(compare("a", ""), NameOrder::After);
    assert_eq!(compare("ab", "abc"), NameOrder::Before);
    assert_eq!(compare("B", "a"), NameOrder::Before);
    assert_eq!(compare("z", "é"), NameOrder::Before);
    assert_eq!(compare("", ""), NameOrder::Same);
}

#[test]
fn spec_from_str_reads_every_shape() {
    assert_eq!(Spec::from_str("web"), Ok(Spec::new("web".to_string(), None, None)));
    assert_eq!(
        Spec::from_str("web@http://x"),
        Ok(Spec::new("web".to_string(), some("http://x"), None))
    );
    assert_eq!(Spec::from_str("web#prod"), Ok(Spec::new("web".to_string(), None, some("prod"))));
    assert_eq!(
        Spec::from_str("web@http://x#prod"),
        Ok(Spec::new("web".to_string(), some("http://x"), some("prod")))
    );
    assert_eq!(
        Spec::from_str("web#prod@http://x"),
        Ok(Spec::new("web".to_string(), some("http://x"), some("prod")))
    );
    assert_eq!(Spec::from_str(""), Ok(Spec::new(String::new(), None, None)));
    assert_eq!(Spec::from_str("@#"), Ok(Spec::new(String::new(), some(""), some(""))));
    assert_eq!(Spec::from_str("#@"), Ok(Spec::new(String::new(), some(""), some(""))));
    assert_eq!(Spec::from_str("wéb@ü"), Ok(Spec::new("wéb".to_string(), some("ü"), None)));
}

#[test]
fn spec_from_str_refuses_repeated_marks() {
    let expected = |s: &str| {
        Err(format!(
            "Invalid spec: {s}. Expected format: <description>[@<url>][#<group>] or <description>[#<group>][@<url>]"
        ))
    };
    assert_eq!(Spec::from_str("a@b@c"), expected("a@b@c"));
    assert_eq!(Spec::from_str("a#b#c"), expected("a#b#c"));
    assert_eq!(Spec::from_str("a@b#c@d"), expected("a@b#c@d"));
    assert_eq!(Spec::from_str("##"), expected("##"));
}

#[test]
fn spec_to_string_writes_what_from_str_reads() {
    let full = Spec::new("web".to_string(), some("http://x"), some("prod"));
    assert_eq!(full.to_string(), "web@http://x#prod");
    assert_eq!(Spec::new("web".to_string(), None, some("prod")).to_string(), "web#prod");
    assert_eq!(Spec::new("web".to_string(), some("u"), None).to_string(), "web@u");
    assert_eq!(Spec::new("web".to_string(), None, None).to_string(), "web");
    assert_eq!(Spec::from_str(&full.to_string()), Ok(full));
}

#[test]
fn status_to_map_lists_kind_and_reason() {
    assert_eq!(
        Status::Unknown("no probe".to_string()).to_map().to_vec(),
        vec![pair("kind", "unknown"), pair("reason", "no probe")]
    );
    assert_eq!(
        Status::Down("refused".to_string()).to_map().to_vec(),
        vec![pair("kind", "down"), pair("reason", "refused")]
    );
    assert_eq!(
        Status::Up(120).to_map().to_vec(),
        vec![pair("kind", "unknown"), pair("reason", "120")]
    );
}

#[test]
fn status_in_words() {
    assert_eq!(Status::Up(35).to_string(), "Up, latency 35ms");
    assert_eq!(Status::Down("refused".to_string()).to_string(), "Down: refused");
    assert_eq!(Status::Unknown("?".to_string()).to_string(), "Unknown: ?");
}

#[test]
fn clones_are_equal() {
    let status = TimedStatus { time: Timestamp::new(3, 4), inner: Status::Down("x".to_string()) };
    assert_eq!(status.clone(), status);
    let spec = Spec::new("d".to_string(), some("u"), None);
    assert_eq!(spec.clone(), spec);
    let action = ServiceAction::AddStatus(status);
    assert_eq!(action.clone(), action);
    let create = ServiceAction::CreateService(spec);
    assert_eq!(create.clone(), create);
    assert_eq!(ServiceAction::DeleteService.clone(), ServiceAction::DeleteService);
}

#[test]
fn probe_status_from_str() {
    let up = swec::checker::Status::from_str("up#all good").unwrap();
    assert!(up.is_up);
    assert_eq!(up.message, "all good");
    let down = swec::checker::Status::from_str("down#a#b").unwrap();
    assert!(!down.is_up);
    assert_eq!(down.message, "a#b");
    assert_eq!(swec::checker::Status::from_str("up#").unwrap().message, "");
    for bad in ["up", "", "Up#x", "maybe#x", "#up", "down"] {
        assert_eq!(
            swec::checker::Status::from_str(bad),
            Err(format!("Invalid status: {bad}. Expected format: <up|down>#<message>"))
        );
    }
}

#[test]
fn probe_status_in_words() {
    let up = swec::checker::Status { is_up: true, message: "fine".to_string() };
    let down = swec::checker::Status { is_up: false, message: "gone".to_string() };
    assert_eq!(up.to_string(), "Up: fine");
    assert_eq!(down.to_string(), "Down: gone");
    assert_eq!(up.clone(), up);
}

#[test]
fn checker_from_str_parses_the_url() {
    assert_eq!(
        Checker::from_str("http#http://example.com"),
        Ok(Checker::Http { url: "http://example.com/".to_string() })
    );
    assert_eq!(
        Checker::from_str("http#HTTPS://Example.com/a b"),
        Ok(Checker::Http { url: "https://example.com/a%20b".to_string() })
    );
    assert_eq!(
        Checker::from_str("http#ftp://example.com"),
        Err("Invalid scheme: ftp".to_string())
    );
    assert_eq!(
        Checker::from_str("http#not a url"),
        Err("Invalid URL: relative URL without a base".to_string())
    );
    assert_eq!(Checker::from_str("http"), Err("Invalid checker: http".to_string()));
    assert_eq!(
        Checker::from_str("tcp#http://example.com"),
        Err("Invalid checker: tcp#http://example.com".to_string())
    );
    assert_eq!(Checker::from_str(""), Err("Invalid checker: ".to_string()));
}

#[test]
fn checker_from_parsed_url_checks_the_scheme() {
    let parsed = |scheme: &str| ParsedUrl { scheme: scheme.to_string(), text: "text".to_string() };
    assert_eq!(
        Checker::from_parsed_url(Ok(parsed("http"))),
        Ok(Checker::Http { url: "text".to_string() })
    );
    assert_eq!(
        Checker::from_parsed_url(Ok(parsed("https"))),
        Ok(Checker::Http { url: "text".to_string() })
    );
    assert_eq!(
        Checker::from_parsed_url(Ok(parsed("file"))),
        Err("Invalid scheme: file".to_string())
    );
    assert_eq!(
        Checker::from_parsed_url(Ok(parsed("httpss"))),
        Err("Invalid scheme: httpss".to_string())
    );
    assert_eq!(
        Checker::from_parsed_url(Err("empty host".to_string())),
        Err("Invalid URL: empty host".to_string())
    );
}

#[test]
fn probe_outcome_becomes_a_status() {
    let answered =
        |code: u16, status: &str| ProbeOutcome::Answered { code, status: status.to_string() };
    let up = swec::checker::Status { is_up: true, message: "Success".to_string() };
    let down = |message: &str| swec::checker::Status { is_up: false, message: message.to_string() };
    assert_eq!(answered(200, "200 OK").into_status(), up);
    assert_eq!(answered(299, "299").into_status(), up);
    assert_eq!(
        answered(199, "199").into_status(),
        down("HTTP error: 199")
    );
    assert_eq!(
        answered(300, "300 Multiple Choices").into_status(),
        down("HTTP error: 300 Multiple Choices")
    );
    assert_eq!(
        answered(404, "404 Not Found").into_status(),
        down("HTTP error: 404 Not Found")
    );
    assert_eq!(
        ProbeOutcome::Failed { error: "timed out".to_string() }.into_status(),
        down("Error: timed out")
    );
}

#[test]
fn api_errors_become_responses() {
    assert_eq!(
        ApiError::from(WriteError::NameConflict),
        ApiError::WriteError(WriteError::NameConflict)
    );
    assert_eq!(ApiError::from(ServiceNotFoundError), ApiError::ServiceNotFoundError);
    assert_eq!(
        ApiError::WriteError(WriteError::NameConflict).into_response(),
        (409, "Service name conflict".to_string())
    );
    assert_eq!(
        ApiError::WriteError(WriteError::NotFound).into_response(),
        (404, "Service not found".to_string())
    );
    assert_eq!(
        ApiError::ServiceNotFoundError.into_response(),
        (404, "Service not found".to_string())
    );
    assert_eq!(ApiError::ServiceNotFoundError.to_string(), "Service not found");
    assert_eq!(ApiError::WriteError(WriteError::NameConflict).to_string(), "Service name conflict");
    assert_eq!(ApiError::WriteError(WriteError::NotFound).to_string(), "Service not found");
}

#[test]
fn writes_become_responses() {
    let create = ServiceAction::CreateService(Spec::new("d".to_string(), None, None));
    let add = ServiceAction::AddStatus(TimedStatus {
        time: Timestamp::new(0, 0),
        inner: Status::Up(1),
    });
    assert_eq!(put_action_response(&create, Ok(())), (201, "Action executed".to_string()));
    assert_eq!(
        put_action_response(&ServiceAction::DeleteService, Ok(())),
        (204, "Action executed".to_string())
    );
    assert_eq!(put_action_response(&add, Ok(())), (204, "Action executed".to_string()));
    assert_eq!(
        put_action_response(&create, Err(WriteError::NameConflict)),
        (409, "Service name conflict".to_string())
    );
    assert_eq!(
        put_action_response(&add, Err(WriteError::NotFound)),
        (404, "Service not found".to_string())
    );
    assert_eq!(not_found_response(ServiceNotFoundError), (404, "Not found".to_string()));
}
