//! Requests, answers, sessions and the worker.
use valira_desktop::api::{
    check, read, Account, Client, Coords, Device, Error, Granted, Method, Refusal, Relay, TIMEOUT,
};
use valira_desktop::client::{Outcome, Task};
use valira_desktop::flow::{sign_in_with, start, Action, Call, Event, Job, Step};
use valira_desktop::keys::Pair;
use valira_desktop::store::{
    first_relay, leaving_by, mode_for, open_session, profile_for, reloaded, renewed, Session,
};
use valira_desktop::worker::{
    backend, force_render_failure, gpu, next, relaunches, Teardown, Wait, Work,
};

fn device(key: &str) -> Device {
    Device {
        id: 9,
        name: "Keen Viper".to_string(),
        public_key: key.to_string(),
        tunnel_ip: "10.64.0.9/32".to_string(),
        tunnel_ip6: "fda8::9/128".to_string(),
    }
}

fn granted(key: &str) -> Granted {
    Granted { token: "fresh".to_string(), device: device(key) }
}

fn session() -> Session {
    Session {
        account_number: "1234567890123456".to_string(),
        token: "stale".to_string(),
        private_key: "secret".to_string(),
        public_key: "key".to_string(),
        device_id: 1,
        device_name: "Old".to_string(),
        tunnel_ip: "10.64.0.1/32".to_string(),
        tunnel_ip6: "fda8::1/128".to_string(),
        exit_id: Some(4),
    }
}

fn relay() -> Relay {
    Relay {
        country: "fr".to_string(),
        city: "Paris".to_string(),
        endpoint: "203.0.113.7".to_string(),
        port: 51820,
        public_key: "relay".to_string(),
        coords: Coords::default(),
    }
}

fn refusal(error: Option<&str>, devices: Option<Vec<Device>>) -> Refusal {
    Refusal { error: error.map(str::to_string), devices }
}

#[test]
fn requests_go_where_the_service_is() {
    let client = Client::new("https://valiravpn.com//");
    assert_eq!(client.timeout(), TIMEOUT);
    let request = client.sign_in("1234567890123456", "a+b/c=");
    assert_eq!(request.method, Method::Post);
    assert_eq!(request.url, "https://valiravpn.com/api/v1/login");
    assert_eq!(request.token, None);
    assert_eq!(
        request.body.as_deref(),
        Some("{\"account_number\":\"1234567890123456\",\"public_key\":\"a+b/c=\"}")
    );
    let poll = Client::with_timeout("http://x", 5);
    assert_eq!(poll.timeout(), 5);
    let request = poll.exits("t");
    assert_eq!((request.method, request.url.as_str()), (Method::Get, "http://x/api/v1/exits"));
    assert_eq!((request.token.as_deref(), request.body), (Some("t"), None));
    assert_eq!(poll.account("t").url, "http://x/api/v1/account");
    assert_eq!(poll.relays().token, None);
    assert_eq!(poll.relays().url, "http://x/api/v1/relays");
    assert_eq!(poll.sign_out("t").url, "http://x/api/v1/logout");
    assert_eq!(poll.choose_exit("t", Some(-3)).body.as_deref(), Some("{\"exit_id\":-3}"));
    assert_eq!(poll.choose_exit("t", None).body.as_deref(), Some("{\"exit_id\":null}"));
    assert_eq!(poll.choose_exit("t", None).url, "http://x/api/v1/exit");
}

#[test]
fn what_goes_up_is_json() {
    let body = Client::new("x").sign_in("a\"b\\c\nd", "é").body.unwrap();
    let value: serde_json::Value = serde_json::from_str(&body).unwrap();
    assert_eq!(value["account_number"], "a\"b\\c\nd");
    assert_eq!(value["public_key"], "é");
    let body = Client::new("x").sign_in("\u{8}\t\u{c}\r\u{1}\u{1f}", "/\u{7f}").body.unwrap();
    assert_eq!(
        body,
        "{\"account_number\":\"\\b\\t\\f\\r\\u0001\\u001f\",\"public_key\":\"/\u{7f}\"}"
    );
}

#[test]
fn answers_mean_what_their_status_says() {
    assert!(check(204, "204 No Content", refusal(Some("x"), None)).is_ok());
    assert!(matches!(check(401, "401", refusal(None, None)), Err(Error::Unauthorised)));
    let said = check(500, "500 Internal Server Error", refusal(None, None)).unwrap_err();
    assert_eq!(said.message(), "the service answered 500 Internal Server Error");
    let said = check(403, "403", refusal(Some("not yours"), None)).unwrap_err();
    assert_eq!(said.message(), "not yours");

    assert_eq!(read(200, "200 OK", Ok(5), refusal(None, None)).unwrap(), 5);
    let said = read::<u8>(200, "200 OK", Err("eof".to_string()), refusal(None, None)).unwrap_err();
    assert_eq!(said.message(), "unreadable response: eof");
    let said = read(401, "401", Ok(5), refusal(None, None)).unwrap_err();
    assert_eq!(said.message(), "Session expired.");
    let devices = Some(vec![device("a"), Device { name: "Other".to_string(), ..device("b") }]);
    let said = read(409, "409", Ok(5), refusal(Some("x"), devices)).unwrap_err();
    assert_eq!(
        said.message(),
        "Device limit reached. Revoke one of these: Keen Viper, Other"
    );
    let said = read(404, "404 Not Found", Ok(5), refusal(None, None)).unwrap_err();
    assert_eq!(said.message(), "the service answered 404 Not Found");
    let gone = Error::Unreachable("no route".to_string());
    assert_eq!(gone.message(), "Service unreachable: no route");
}

#[test]
fn a_session_opens_on_its_own_key_only() {
    let pair = || Pair { private: "secret".to_string(), public: "key".to_string() };
    let opened = open_session("1234567890123456", pair(), granted("key")).ok().unwrap();
    assert_eq!((opened.token.as_str(), opened.private_key.as_str()), ("fresh", "secret"));
    assert_eq!((opened.device_id, opened.exit_id), (9, None));
    let refused = open_session("1", pair(), granted("other")).err().unwrap();
    assert_eq!(
        refused,
        "This device already exists under a different key. Revoke it and try again."
    );
}

#[test]
fn a_renewal_keeps_the_key_and_the_exit() {
    let kept = renewed(session(), Ok(granted("key"))).ok().unwrap();
    assert_eq!((kept.private_key.as_str(), kept.public_key.as_str()), ("secret", "key"));
    assert_eq!((kept.exit_id, kept.device_id), (Some(4), 9));
    assert_eq!((kept.token.as_str(), kept.tunnel_ip.as_str()), ("fresh", "10.64.0.9/32"));
}

#[test]
fn a_renewal_as_another_device_is_refused() {
    let said = renewed(session(), Ok(granted("other"))).err().unwrap();
    assert_eq!(said.message(), "The service returned a different device on renewal.");
    let said = renewed(session(), Err(Error::Unreachable("x".to_string()))).err().unwrap();
    assert_eq!(said.message(), "Service unreachable: x");
}

#[test]
fn the_first_entry_node_is_used() {
    let other = Relay { city: "Lyon".to_string(), ..relay() };
    assert_eq!(first_relay(Ok(vec![relay(), other])).ok().unwrap().city, "Paris");
    assert_eq!(first_relay(Ok(Vec::new())).err().unwrap(), "No entry node available.");
    assert_eq!(first_relay(Err(Error::Unauthorised)).err().unwrap(), "Session expired.");
    let profile = profile_for(&session(), &relay());
    assert_eq!(profile.endpoint, "203.0.113.7:51820");
    assert_eq!(profile.addresses, vec!["10.64.0.1/32", "fda8::1/128"]);
    assert_eq!(profile.dns, vec!["10.64.0.1", "fda8:75e8:355::1"]);
    assert_eq!((profile.private_key.as_str(), profile.peer_public_key.as_str()), ("secret", "relay"));
    assert_eq!(reloaded(None).err().unwrap(), "No session. Sign in again.");
    assert_eq!(leaving_by(reloaded(Some(session())).ok().unwrap(), 12).exit_id, Some(12));
    assert_eq!((mode_for(true), mode_for(false)), (0o700, 0o600));
}

#[test]
fn the_worker_takes_tasks_and_refreshes_between_them() {
    assert!(matches!(next(Wait::Task(Task::SignIn("1".to_string()))), Work::SignIn(_)));
    assert!(matches!(next(Wait::Task(Task::LoadExits)), Work::Refresh));
    assert!(matches!(next(Wait::Task(Task::PickExit(3))), Work::PickExit(3)));
    assert!(matches!(next(Wait::Task(Task::SignOut)), Work::SignOut));
    assert!(matches!(next(Wait::Timeout), Work::Refresh));
    assert!(matches!(next(Wait::Disconnected), Work::Stop));
}

fn account() -> Account {
    Account { expires_at: String::new(), active: true, devices: 1, max_devices: 5 }
}

fn pair() -> Pair {
    Pair { private: "secret".to_string(), public: "key".to_string() }
}

/// What the last of some events comes to, with nothing reported before it.
fn led(first: Step, events: Vec<Event>) -> Step {
    let mut step = first;
    for event in events {
        assert!(step.report.is_none());
        step = step.job.step(event);
    }
    step
}

fn said(step: &Step) -> &str {
    assert!(matches!(step.job, Job::Done));
    match &step.report {
        Some(Outcome::Failed(reason)) => reason,
        _ => panic!("it did not fail"),
    }
}

#[test]
fn signing_in_asks_for_one_thing_after_the_other() {
    let step = sign_in_with("42".to_string(), Ok(pair()));
    assert!(matches!(step.job.action(), Action::Login("42", "key")));
    let step = step.job.step(Event::Granted(Ok(granted("key"))));
    assert!(matches!(step.job.action(), Action::Account("fresh")));
    let step = step.job.step(Event::Account(Ok(account())));
    assert!(matches!(step.job.action(), Action::Relays));
    let step = step.job.step(Event::Relays(Ok(vec![relay()])));
    assert!(matches!(step.job.action(), Action::Save(_)));
    let step = step.job.step(Event::Saved(Ok(())));
    assert!(matches!(step.job.action(), Action::Nothing));
    match step.report {
        Some(Outcome::SignedIn(session, _, relay)) => {
            assert_eq!((session.account_number.as_str(), session.token.as_str()), ("42", "fresh"));
            assert_eq!(relay.city, "Paris");
        }
        _ => panic!("nobody signed in"),
    }
}

#[test]
fn signing_in_fails_where_a_step_does() {
    let begin = || sign_in_with("42".to_string(), Ok(pair()));
    let refused = || Error::Refused("no".to_string());
    assert_eq!(said(&sign_in_with(String::new(), Err("none".to_string()))), "none");
    assert_eq!(said(&led(begin(), vec![Event::Granted(Err(refused()))])), "no");
    let other = led(begin(), vec![Event::Granted(Ok(granted("other")))]);
    assert!(said(&other).starts_with("This device already exists"));
    let opened = || Event::Granted(Ok(granted("key")));
    assert_eq!(said(&led(begin(), vec![opened(), Event::Account(Err(refused()))])), "no");
    let seen = || Event::Account(Ok(account()));
    let none = led(begin(), vec![opened(), seen(), Event::Relays(Ok(Vec::new()))]);
    assert_eq!(said(&none), "No entry node available.");
    let found = || Event::Relays(Ok(vec![relay()]));
    let full = Event::Saved(Err("disk full".to_string()));
    assert_eq!(said(&led(begin(), vec![opened(), seen(), found(), full])), "disk full");
}

/// What an action sends the service.
fn sent(job: &Job) -> Option<String> {
    match job.action() {
        Action::Login(number, key) => Some(format!("login {number} {key}")),
        Action::Account(token) => Some(format!("account {token}")),
        Action::Relays => Some("relays".to_string()),
        Action::Exits(token) => Some(format!("exits {token}")),
        Action::Choose(token, id) => Some(format!("choose {token} {id}")),
        Action::Revoke(token) => Some(format!("revoke {token}")),
        _ => None,
    }
}

#[test]
fn the_private_key_stays_on_the_machine() {
    let signed_in = |private: &str| {
        let pair = Pair { private: private.to_string(), public: "key".to_string() };
        let mut requests = Vec::new();
        let mut step = sign_in_with("42".to_string(), Ok(pair));
        for event in [
            Event::Granted(Ok(granted("key"))),
            Event::Account(Ok(account())),
            Event::Relays(Ok(vec![relay()])),
        ] {
            requests.extend(sent(&step.job));
            step = step.job.step(event);
        }
        requests
    };
    assert_eq!(signed_in("secret"), vec!["login 42 key", "account fresh", "relays"]);
    assert_eq!(signed_in("secret"), signed_in("another"));

    let picked = |private: &str| {
        let stored = || Session { private_key: private.to_string(), ..session() };
        let mut requests = Vec::new();
        let mut step = start(Work::PickExit(7));
        for event in [
            Event::Loaded(Some(stored())),
            Event::Checked(Err(Error::Unauthorised)),
            Event::Granted(Ok(granted("key"))),
            Event::Saved(Ok(())),
            Event::Checked(Ok(())),
            Event::Loaded(Some(stored())),
            Event::Relays(Ok(vec![relay()])),
            Event::Raised(Ok(())),
        ] {
            requests.extend(sent(&step.job));
            step = step.job.step(event);
        }
        requests
    };
    assert_eq!(
        picked("secret"),
        vec!["choose stale 7", "login 1234567890123456 key", "choose fresh 7", "relays"]
    );
    assert_eq!(picked("secret"), picked("another"));
}

#[test]
fn a_fresh_pair_is_drawn_for_signing_in() {
    let drawn = |step: Step| match step.job {
        Job::Login { pair, .. } => pair.private,
        _ => panic!("no pair was drawn"),
    };
    let first = drawn(start(Work::SignIn("42".to_string())));
    let second = drawn(start(Work::SignIn("42".to_string())));
    assert_eq!(first.len(), 44);
    assert_ne!(first, second);
}

#[test]
fn an_exit_is_picked_once_the_service_accepts_it() {
    let step = start(Work::PickExit(7));
    assert!(matches!(step.job.action(), Action::Load));
    let step = step.job.step(Event::Loaded(Some(session())));
    assert!(matches!(step.job.action(), Action::Choose("stale", 7)));
    let step = step.job.step(Event::Checked(Ok(())));
    assert!(matches!(step.job.action(), Action::Load));
    let step = step.job.step(Event::Loaded(Some(session())));
    let step = step.job.step(Event::Relays(Ok(vec![relay()])));
    match step.job.action() {
        Action::Raise(profile) => assert_eq!(profile.endpoint, "203.0.113.7:51820"),
        _ => panic!("the tunnel is not asked for"),
    }
    let step = step.job.step(Event::Raised(Ok(())));
    match step.job.action() {
        Action::Save(session) => assert_eq!(session.exit_id, Some(7)),
        _ => panic!("the exit is not remembered"),
    }
    let step = step.job.step(Event::Saved(Ok(())));
    assert!(matches!(step.report, Some(Outcome::ExitPicked(7))));
}

#[test]
fn a_refused_exit_brings_nothing_up() {
    let refused = Event::Checked(Err(Error::Refused("taken".to_string())));
    let step = led(start(Work::PickExit(7)), vec![Event::Loaded(Some(session())), refused]);
    assert_eq!(said(&step), "taken");
    assert_eq!(said(&led(start(Work::PickExit(7)), vec![Event::Loaded(None)])), "Session expired.");
    let accepted = || vec![Event::Loaded(Some(session())), Event::Checked(Ok(()))];
    let mut gone = accepted();
    gone.push(Event::Loaded(None));
    assert_eq!(said(&led(start(Work::PickExit(7)), gone)), "No session. Sign in again.");
    let mut down = accepted();
    down.push(Event::Loaded(Some(session())));
    down.push(Event::Relays(Ok(vec![relay()])));
    down.push(Event::Raised(Err("no rights".to_string())));
    assert_eq!(said(&led(start(Work::PickExit(7)), down)), "no rights");
}

#[test]
fn a_lapsed_token_is_renewed_once_with_the_same_key() {
    let lapsed = || Event::Checked(Err(Error::Unauthorised));
    let step = led(start(Work::PickExit(7)), vec![Event::Loaded(Some(session())), lapsed()]);
    assert!(matches!(step.job.action(), Action::Login("1234567890123456", "key")));
    let step = step.job.step(Event::Granted(Ok(granted("key"))));
    match step.job.action() {
        Action::Save(session) => assert_eq!(session.token, "fresh"),
        _ => panic!("the renewed session is not stored"),
    }
    // Whether it could be stored does not matter here.
    let step = step.job.step(Event::Saved(Err("disk full".to_string())));
    assert!(matches!(step.job.action(), Action::Choose("fresh", 7)));
    let step = step.job.step(lapsed());
    assert_eq!(said(&step), "Session expired.");
}

#[test]
fn signing_out_forgets_whatever_the_service_says() {
    let begin = || start(Work::SignOut);
    for events in [
        vec![Event::Loaded(None)],
        vec![Event::Loaded(Some(session())), Event::Checked(Ok(()))],
        vec![
            Event::Loaded(Some(session())),
            Event::Checked(Err(Error::Unreachable("x".to_string()))),
        ],
        vec![
            Event::Loaded(Some(session())),
            Event::Checked(Err(Error::Unauthorised)),
            Event::Granted(Err(Error::Unauthorised)),
        ],
    ] {
        let step = led(begin(), events);
        assert!(matches!(step.job.action(), Action::Clear));
        let step = step.job.step(Event::Cleared);
        assert!(matches!((step.job, step.report), (Job::Done, Some(Outcome::SignedOut))));
    }
}

#[test]
fn a_refresh_reports_what_came() {
    assert!(matches!(led(start(Work::Refresh), vec![Event::Loaded(None)]).job, Job::Done));
    let step = led(start(Work::Refresh), vec![Event::Loaded(Some(session()))]);
    assert!(matches!(step.job.action(), Action::Exits("stale")));
    let step = step.job.step(Event::Exits(Ok(Vec::new())));
    assert!(matches!(step.report, Some(Outcome::Exits(_))));
    assert!(matches!(step.job, Job::Open { call: Call::Look }));
    let step = step.job.step(Event::Loaded(Some(session())));
    let step = step.job.step(Event::Account(Ok(account())));
    assert!(matches!(step.report, Some(Outcome::Account(_))));
    let step = step.job.step(Event::Relays(Ok(vec![relay()])));
    assert!(matches!((step.job, step.report), (Job::Done, Some(Outcome::Relay(_)))));
    // And nothing of what did not come.
    let step = led(
        start(Work::Refresh),
        vec![
            Event::Loaded(Some(session())),
            Event::Exits(Err(Error::Unauthorised)),
            Event::Loaded(Some(session())),
            Event::Account(Err(Error::Refused("x".to_string()))),
            Event::Relays(Err(Error::Unauthorised)),
        ],
    );
    assert!(matches!((step.job, step.report), (Job::Done, None)));
}

#[test]
fn there_is_one_teardown_at_a_time() {
    let mut teardown = Teardown::new();
    assert!(teardown.begin());
    assert!(!teardown.begin());
    assert!(teardown.end(Ok(())).is_none());
    assert!(teardown.begin());
    assert!(matches!(teardown.end(Err("x".to_string())), Some(Outcome::Failed(_))));
}

#[test]
fn the_gpu_draws_unless_it_is_told_not_to() {
    assert!(gpu(None) && gpu(Some("gpu".to_string())));
    assert!(!gpu(Some("software".to_string())) && !gpu(Some("cpu".to_string())));
    assert_eq!((backend(true), backend(false)), ("winit-femtovg", "winit-software"));
    assert!(relaunches(false, true) && !relaunches(true, true) && !relaunches(false, false));
    assert!(force_render_failure(true, true) && !force_render_failure(false, true));
}
