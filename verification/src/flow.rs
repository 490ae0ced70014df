//! What the worker's tasks do, one step after the other.
//!
//! A job says what is to be done next, and what came of that takes it on to the
//! step after. Nothing here asks the service, touches a file or brings a tunnel
//! up: a job only says so.
use crate::api;
use crate::api::{Account, Error, Exit, Granted, Relay};
use crate::client::Outcome;
use crate::keys;
use crate::keys::{generate, Pair};
use crate::store;
use crate::store::{
    first_relay, leaving_by, open_session, profile_for, reloaded, renewed, Session,
};
use crate::tunnel;
use crate::tunnel::Profile;
use crate::worker::Work;
use vstd::prelude::*;
use vstd::string::*;

verus! {

/// A call that needs a token.
#[derive(Clone, Copy, PartialEq, Eq, Structural, Debug)]
pub enum Call {
    /// Leave by that exit.
    Choose(i64),
    /// Revoke this device.
    Revoke,
    /// Say what the account is.
    Look,
}

/// A task under way, by what it waits for.
pub enum Job {
    /// Signing in: a device for a fresh pair,
    Login { number: String, pair: Pair },
    /// what the account is,
    Account { session: Session },
    /// which entry nodes there are,
    Relays { session: Session, account: Account },
    /// and the session stored.
    Keep { session: Session, account: Account, relay: Relay },
    /// A call that needs a token: the session it is made in,
    Open { call: Call },
    /// the call,
    Make { call: Call, session: Session },
    /// and where the token had lapsed a fresh one,
    Renew { call: Call, session: Session },
    /// the session it came with stored,
    Store { call: Call, session: Session },
    /// and the call again.
    Again { call: Call, session: Session },
    /// Picking an exit, once the service has accepted it: the session,
    Reload { id: i64 },
    /// an entry node,
    Entry { id: i64, session: Session },
    /// the tunnel up,
    Raise { id: i64, session: Session, profile: Profile },
    /// and the exit remembered.
    Remember { id: i64, session: Session },
    /// Signing out, once the service has answered: the session forgotten.
    Forget,
    /// A refresh: the session,
    Poll,
    /// which exits there are,
    List { session: Session },
    /// and, once it has looked at the account, which entry nodes.
    Find,
    /// Nothing more.
    Done,
}

/// A task under way, apart from how it is held.
#[verifier::ext_equal]
pub enum Stage {
    Login { number: Seq<char>, private: Seq<char>, public: Seq<char> },
    Account { session: store::Kept },
    Relays { session: store::Kept, account: Account },
    Keep { session: store::Kept, account: Account, relay: Relay },
    Open { call: Call },
    Make { call: Call, session: store::Kept },
    Renew { call: Call, session: store::Kept },
    Store { call: Call, session: store::Kept },
    Again { call: Call, session: store::Kept },
    Reload { id: i64 },
    Entry { id: i64, session: store::Kept },
    Raise { id: i64, session: store::Kept, profile: tunnel::Wanted },
    Remember { id: i64, session: store::Kept },
    Forget,
    Poll,
    List { session: store::Kept },
    Find,
    Done,
}

impl View for Job {
    type V = Stage;

    open spec fn view(&self) -> Stage {
        match self {
            Job::Login { number, pair } => Stage::Login {
                number: number@,
                private: pair.private@,
                public: pair.public@,
            },
            Job::Account { session } => Stage::Account { session: session@ },
            Job::Relays { session, account } => Stage::Relays {
                session: session@,
                account: *account,
            },
            Job::Keep { session, account, relay } => Stage::Keep {
                session: session@,
                account: *account,
                relay: *relay,
            },
            Job::Open { call } => Stage::Open { call: *call },
            Job::Make { call, session } => Stage::Make { call: *call, session: session@ },
            Job::Renew { call, session } => Stage::Renew { call: *call, session: session@ },
            Job::Store { call, session } => Stage::Store { call: *call, session: session@ },
            Job::Again { call, session } => Stage::Again { call: *call, session: session@ },
            Job::Reload { id } => Stage::Reload { id: *id },
            Job::Entry { id, session } => Stage::Entry { id: *id, session: session@ },
            Job::Raise { id, session, profile } => Stage::Raise {
                id: *id,
                session: session@,
                profile: profile@,
            },
            Job::Remember { id, session } => Stage::Remember { id: *id, session: session@ },
            Job::Forget => Stage::Forget,
            Job::Poll => Stage::Poll,
            Job::List { session } => Stage::List { session: session@ },
            Job::Find => Stage::Find,
            Job::Done => Stage::Done,
        }
    }
}

// What is to be done

/// What is to be done next.
pub enum Action<'a> {
    /// Sign in with this account and this public key.
    Login(&'a str, &'a str),
    /// Ask what the account is, with this token.
    Account(&'a str),
    /// Ask which entry nodes there are.
    Relays,
    /// Ask which exits there are, with this token.
    Exits(&'a str),
    /// Pick this exit, with this token.
    Choose(&'a str, i64),
    /// Revoke the device, with this token.
    Revoke(&'a str),
    /// Read the stored session.
    Load,
    /// Store this session.
    Save(&'a Session),
    /// Remove the stored session.
    Clear,
    /// Bring the tunnel up.
    Raise(&'a Profile),
    /// Nothing: the task is over.
    Nothing,
}

/// What is to be done, apart from how it is held.
#[verifier::ext_equal]
pub enum Deed {
    Login(Seq<char>, Seq<char>),
    Account(Seq<char>),
    Relays,
    Exits(Seq<char>),
    Choose(Seq<char>, i64),
    Revoke(Seq<char>),
    Load,
    Save(store::Kept),
    Clear,
    Raise(tunnel::Wanted),
    Nothing,
}

impl<'a> View for Action<'a> {
    type V = Deed;

    open spec fn view(&self) -> Deed {
        match self {
            Action::Login(number, key) => Deed::Login(number@, key@),
            Action::Account(token) => Deed::Account(token@),
            Action::Relays => Deed::Relays,
            Action::Exits(token) => Deed::Exits(token@),
            Action::Choose(token, id) => Deed::Choose(token@, *id),
            Action::Revoke(token) => Deed::Revoke(token@),
            Action::Load => Deed::Load,
            Action::Save(session) => Deed::Save(session@),
            Action::Clear => Deed::Clear,
            Action::Raise(profile) => Deed::Raise(profile@),
            Action::Nothing => Deed::Nothing,
        }
    }
}

/// How a call is made with a token.
pub open spec fn made(call: Call, token: Seq<char>) -> Deed {
    match call {
        Call::Choose(id) => Deed::Choose(token, id),
        Call::Revoke => Deed::Revoke(token),
        Call::Look => Deed::Account(token),
    }
}

/// What a stage asks for.
pub open spec fn asked(stage: Stage) -> Deed {
    match stage {
        Stage::Login { number, public, .. } => Deed::Login(number, public),
        Stage::Account { session } => Deed::Account(session.token),
        Stage::Relays { .. } => Deed::Relays,
        Stage::Keep { session, .. } => Deed::Save(session),
        Stage::Open { .. } => Deed::Load,
        Stage::Make { call, session } => made(call, session.token),
        Stage::Renew { session, .. } => Deed::Login(session.account_number, session.public_key),
        Stage::Store { session, .. } => Deed::Save(session),
        Stage::Again { call, session } => made(call, session.token),
        Stage::Reload { .. } => Deed::Load,
        Stage::Entry { .. } => Deed::Relays,
        Stage::Raise { profile, .. } => Deed::Raise(profile),
        Stage::Remember { session, .. } => Deed::Save(session),
        Stage::Forget => Deed::Clear,
        Stage::Poll => Deed::Load,
        Stage::List { session } => Deed::Exits(session.token),
        Stage::Find => Deed::Relays,
        Stage::Done => Deed::Nothing,
    }
}

fn make<'a>(call: Call, token: &'a str) -> (r: Action<'a>)
    ensures
        r@ == made(call, token@),
{
    match call {
        Call::Choose(id) => Action::Choose(token, id),
        Call::Revoke => Action::Revoke(token),
        Call::Look => Action::Account(token),
    }
}

impl Job {
    /// What is to be done next.
    pub fn action<'a>(&'a self) -> (r: Action<'a>)
        ensures
            r@ == asked(self@),
    {
        match self {
            Job::Login { number, pair } => Action::Login(number.as_str(), pair.public.as_str()),
            Job::Account { session } => Action::Account(session.token.as_str()),
            Job::Relays { .. } => Action::Relays,
            Job::Keep { session, .. } => Action::Save(session),
            Job::Open { .. } => Action::Load,
            Job::Make { call, session } => make(*call, session.token.as_str()),
            Job::Renew { session, .. } => Action::Login(
                session.account_number.as_str(),
                session.public_key.as_str(),
            ),
            Job::Store { session, .. } => Action::Save(session),
            Job::Again { call, session } => make(*call, session.token.as_str()),
            Job::Reload { .. } => Action::Load,
            Job::Entry { .. } => Action::Relays,
            Job::Raise { profile, .. } => Action::Raise(profile),
            Job::Remember { session, .. } => Action::Save(session),
            Job::Forget => Action::Clear,
            Job::Poll => Action::Load,
            Job::List { session } => Action::Exits(session.token.as_str()),
            Job::Find => Action::Relays,
            Job::Done => Action::Nothing,
        }
    }
}

// What came of it

/// What came of an action.
pub enum Event {
    Granted(Result<Granted, Error>),
    Account(Result<Account, Error>),
    Relays(Result<Vec<Relay>, Error>),
    Exits(Result<Vec<Exit>, Error>),
    /// A call that returns nothing worth reading, but can still refuse.
    Checked(Result<(), Error>),
    Loaded(Option<Session>),
    Saved(Result<(), String>),
    Cleared,
    Raised(Result<(), String>),
}

/// Whether an event can come of what was done.
pub open spec fn can_come(deed: Deed, event: Event) -> bool {
    match deed {
        Deed::Login(..) => event is Granted,
        Deed::Account(_) => event is Account,
        Deed::Relays => event is Relays,
        Deed::Exits(_) => event is Exits,
        Deed::Choose(..) => event is Checked,
        Deed::Revoke(_) => event is Checked,
        Deed::Load => event is Loaded,
        Deed::Save(_) => event is Saved,
        Deed::Clear => event is Cleared,
        Deed::Raise(_) => event is Raised,
        Deed::Nothing => false,
    }
}

/// What is reported, apart from how it is held.
#[verifier::ext_equal]
pub enum Said {
    SignedIn(store::Kept, Account, Relay),
    Exits(Vec<Exit>),
    Relay(Relay),
    ExitPicked(i64),
    Account(Account),
    SignedOut,
    Failed(Seq<char>),
}

impl View for Outcome {
    type V = Said;

    open spec fn view(&self) -> Said {
        match self {
            Outcome::SignedIn(session, account, relay) => Said::SignedIn(
                session@,
                *account,
                *relay,
            ),
            Outcome::Exits(list) => Said::Exits(*list),
            Outcome::Relay(relay) => Said::Relay(*relay),
            Outcome::ExitPicked(id) => Said::ExitPicked(*id),
            Outcome::Account(account) => Said::Account(*account),
            Outcome::SignedOut => Said::SignedOut,
            Outcome::Failed(reason) => Said::Failed(reason@),
        }
    }
}

/// Where a step leads, and what it reports.
pub struct Step {
    pub job: Job,
    pub report: Option<Outcome>,
}

/// Where a step leads, apart from how it is held.
#[verifier::ext_equal]
pub struct Turn {
    pub stage: Stage,
    pub report: Option<Said>,
}

impl View for Step {
    type V = Turn;

    open spec fn view(&self) -> Turn {
        Turn {
            stage: self.job@,
            report: match self.report {
                Some(outcome) => Some(outcome@),
                None => None,
            },
        }
    }
}

/// On to another stage, with nothing to report.
pub open spec fn on(stage: Stage) -> Turn {
    Turn { stage, report: None }
}

/// The end, for that reason.
pub open spec fn failed(reason: Seq<char>) -> Turn {
    Turn { stage: Stage::Done, report: Some(Said::Failed(reason)) }
}

/// Whether a call was refused because its token had lapsed.
pub open spec fn is_lapsed(event: Event) -> bool {
    event matches Event::Checked(Err(Error::Unauthorised)) || event matches Event::Account(
        Err(Error::Unauthorised),
    )
}

/// What a call comes to that got no answer: picking an exit fails, signing out
/// goes on regardless, and a refresh does without the account.
pub open spec fn gone_without(call: Call, reason: Seq<char>) -> Turn {
    match call {
        Call::Choose(_) => failed(reason),
        Call::Revoke => on(Stage::Forget),
        Call::Look => on(Stage::Find),
    }
}

/// What the answer to a call comes to.
pub open spec fn answered(call: Call, event: Event) -> Turn {
    match event {
        Event::Checked(Err(error)) => gone_without(call, api::message_of(error)),
        Event::Account(Err(error)) => gone_without(call, api::message_of(error)),
        Event::Account(Ok(account)) => Turn {
            stage: Stage::Find,
            report: Some(Said::Account(account)),
        },
        _ => match call {
            Call::Choose(id) => on(Stage::Reload { id }),
            Call::Revoke => on(Stage::Forget),
            Call::Look => on(Stage::Find),
        },
    }
}

/// What the answer to a renewal comes to.
pub open spec fn after_renewal(
    call: Call,
    session: store::Kept,
    answer: Result<Granted, Error>,
) -> Turn {
    match answer {
        Ok(granted) => if granted.device.public_key@ == session.public_key {
            on(
                Stage::Store {
                    call,
                    session: store::on_device(session, granted.token@, granted.device),
                },
            )
        } else {
            gone_without(call, store::OTHER_DEVICE@)
        },
        Err(error) => gone_without(call, api::message_of(error)),
    }
}

/// The entry node in an answer, or why there is none.
pub open spec fn entry_in(answer: Result<Vec<Relay>, Error>) -> Result<Relay, Seq<char>> {
    match answer {
        Ok(relays) => if relays@.len() > 0 {
            Ok(relays@[0])
        } else {
            Err(store::NO_ENTRY@)
        },
        Err(error) => Err(api::message_of(error)),
    }
}

/// How signing in goes on. Signing in with a key the account already carries
/// returns that device untouched, and the fresh private key would not match it.
pub open spec fn signing_in(stage: Stage, event: Event) -> Turn {
    match (stage, event) {
        (Stage::Login { number, private, public }, Event::Granted(Ok(granted))) => {
            if granted.device.public_key@ == public {
                on(Stage::Account { session: store::opened(number, private, public, granted) })
            } else {
                failed(store::OTHER_KEY@)
            }
        },
        (Stage::Login { .. }, Event::Granted(Err(error))) => failed(api::message_of(error)),
        (Stage::Account { session }, Event::Account(Ok(account))) => on(
            Stage::Relays { session, account },
        ),
        (Stage::Account { .. }, Event::Account(Err(error))) => failed(api::message_of(error)),
        (Stage::Relays { session, account }, Event::Relays(answer)) => match entry_in(answer) {
            Ok(relay) => on(Stage::Keep { session, account, relay }),
            Err(reason) => failed(reason),
        },
        (Stage::Keep { session, account, relay }, Event::Saved(Ok(()))) => Turn {
            stage: Stage::Done,
            report: Some(Said::SignedIn(session, account, relay)),
        },
        (Stage::Keep { .. }, Event::Saved(Err(reason))) => failed(reason@),
        _ => on(Stage::Done),
    }
}

/// How a call that needs a token goes on. A token that has lapsed is renewed
/// once; whatever comes of the second call is its answer.
pub open spec fn calling(stage: Stage, event: Event) -> Turn {
    match (stage, event) {
        (Stage::Open { call }, Event::Loaded(Some(session))) => on(
            Stage::Make { call, session: session@ },
        ),
        (Stage::Open { call }, Event::Loaded(None)) => gone_without(
            call,
            api::message_of(Error::Unauthorised),
        ),
        (Stage::Make { call, session }, _) => if is_lapsed(event) {
            on(Stage::Renew { call, session })
        } else {
            answered(call, event)
        },
        (Stage::Renew { call, session }, Event::Granted(answer)) => after_renewal(
            call,
            session,
            answer,
        ),
        (Stage::Store { call, session }, _) => on(Stage::Again { call, session }),
        (Stage::Again { call, .. }, _) => answered(call, event),
        _ => on(Stage::Done),
    }
}

/// How picking an exit goes on, once the service has accepted it. The session is
/// read again: a lapsed one was renewed in place, and the tunnel addresses came
/// back with it.
pub open spec fn picking(stage: Stage, event: Event) -> Turn {
    match (stage, event) {
        (Stage::Reload { id }, Event::Loaded(Some(session))) => on(
            Stage::Entry { id, session: session@ },
        ),
        (Stage::Reload { .. }, Event::Loaded(None)) => failed(store::NO_SESSION@),
        (Stage::Entry { id, session }, Event::Relays(answer)) => match entry_in(answer) {
            Ok(relay) => on(
                Stage::Raise { id, session, profile: store::opens_to(session, relay) },
            ),
            Err(reason) => failed(reason),
        },
        (Stage::Raise { id, session, .. }, Event::Raised(Ok(()))) => on(
            Stage::Remember { id, session: store::Kept { exit_id: Some(id), ..session } },
        ),
        (Stage::Raise { .. }, Event::Raised(Err(reason))) => failed(reason@),
        (Stage::Remember { id, .. }, Event::Saved(Ok(()))) => Turn {
            stage: Stage::Done,
            report: Some(Said::ExitPicked(id)),
        },
        (Stage::Remember { .. }, Event::Saved(Err(reason))) => failed(reason@),
        _ => on(Stage::Done),
    }
}

/// How signing out and a refresh go on.
pub open spec fn rounding_off(stage: Stage, event: Event) -> Turn {
    match (stage, event) {
        (Stage::Forget, Event::Cleared) => Turn {
            stage: Stage::Done,
            report: Some(Said::SignedOut),
        },
        (Stage::Poll, Event::Loaded(Some(session))) => on(Stage::List { session: session@ }),
        (Stage::List { .. }, Event::Exits(Ok(list))) => Turn {
            stage: Stage::Open { call: Call::Look },
            report: Some(Said::Exits(list)),
        },
        (Stage::List { .. }, Event::Exits(Err(_))) => on(Stage::Open { call: Call::Look }),
        (Stage::Find, Event::Relays(answer)) => match entry_in(answer) {
            Ok(relay) => Turn { stage: Stage::Done, report: Some(Said::Relay(relay)) },
            Err(_) => on(Stage::Done),
        },
        _ => on(Stage::Done),
    }
}

/// Where an event takes a task.
pub open spec fn next(stage: Stage, event: Event) -> Turn {
    match stage {
        Stage::Login { .. } | Stage::Account { .. } | Stage::Relays { .. } | Stage::Keep { .. } =>
            signing_in(stage, event),
        Stage::Open { .. } | Stage::Make { .. } | Stage::Renew { .. } | Stage::Store { .. }
        | Stage::Again { .. } => calling(stage, event),
        Stage::Reload { .. } | Stage::Entry { .. } | Stage::Raise { .. } | Stage::Remember { .. } =>
            picking(stage, event),
        _ => rounding_off(stage, event),
    }
}

fn go(job: Job) -> (r: Step)
    ensures
        r@ == on(job@),
{
    Step { job, report: None }
}

fn fail(reason: String) -> (r: Step)
    ensures
        r@ == failed(reason@),
{
    Step { job: Job::Done, report: Some(Outcome::Failed(reason)) }
}

fn go_without(call: Call, reason: String) -> (r: Step)
    ensures
        r@ == gone_without(call, reason@),
{
    match call {
        Call::Choose(_) => fail(reason),
        Call::Revoke => go(Job::Forget),
        Call::Look => go(Job::Find),
    }
}

fn answer(call: Call, event: Event) -> (r: Step)
    ensures
        r@ == answered(call, event),
{
    match event {
        Event::Checked(Err(error)) => go_without(call, error.message()),
        Event::Account(Err(error)) => go_without(call, error.message()),
        Event::Account(Ok(account)) => Step {
            job: Job::Find,
            report: Some(Outcome::Account(account)),
        },
        _ => match call {
            Call::Choose(id) => go(Job::Reload { id }),
            Call::Revoke => go(Job::Forget),
            Call::Look => go(Job::Find),
        },
    }
}

fn lapsed(event: &Event) -> (r: bool)
    ensures
        r == is_lapsed(*event),
{
    match event {
        Event::Checked(Err(Error::Unauthorised)) => true,
        Event::Account(Err(Error::Unauthorised)) => true,
        _ => false,
    }
}

fn sign_in_step(job: Job, event: Event) -> (r: Step)
    ensures
        r@ == signing_in(job@, event),
{
    match (job, event) {
        (Job::Login { number, pair }, Event::Granted(Ok(granted))) => match open_session(
            number.as_str(),
            pair,
            granted,
        ) {
            Ok(session) => go(Job::Account { session }),
            Err(reason) => fail(reason),
        },
        (Job::Login { .. }, Event::Granted(Err(error))) => fail(error.message()),
        (Job::Account { session }, Event::Account(Ok(account))) => go(
            Job::Relays { session, account },
        ),
        (Job::Account { .. }, Event::Account(Err(error))) => fail(error.message()),
        (Job::Relays { session, account }, Event::Relays(answer)) => match first_relay(answer) {
            Ok(relay) => go(Job::Keep { session, account, relay }),
            Err(reason) => fail(reason),
        },
        (Job::Keep { session, account, relay }, Event::Saved(Ok(()))) => Step {
            job: Job::Done,
            report: Some(Outcome::SignedIn(session, account, relay)),
        },
        (Job::Keep { .. }, Event::Saved(Err(reason))) => fail(reason),
        _ => go(Job::Done),
    }
}

fn call_step(job: Job, event: Event) -> (r: Step)
    ensures
        r@ == calling(job@, event),
{
    match (job, event) {
        (Job::Open { call }, Event::Loaded(Some(session))) => go(Job::Make { call, session }),
        (Job::Open { call }, Event::Loaded(None)) => go_without(
            call,
            Error::Unauthorised.message(),
        ),
        (Job::Make { call, session }, event) => if lapsed(&event) {
            go(Job::Renew { call, session })
        } else {
            answer(call, event)
        },
        (Job::Renew { call, session }, Event::Granted(answer)) => match renewed(session, answer) {
            Ok(session) => go(Job::Store { call, session }),
            Err(error) => go_without(call, error.message()),
        },
        (Job::Store { call, session }, _) => go(Job::Again { call, session }),
        (Job::Again { call, .. }, event) => answer(call, event),
        _ => go(Job::Done),
    }
}

fn pick_step(job: Job, event: Event) -> (r: Step)
    ensures
        r@ == picking(job@, event),
{
    match (job, event) {
        (Job::Reload { id }, Event::Loaded(stored)) => match reloaded(stored) {
            Ok(session) => go(Job::Entry { id, session }),
            Err(reason) => fail(reason),
        },
        (Job::Entry { id, session }, Event::Relays(answer)) => match first_relay(answer) {
            Ok(relay) => {
                let profile = profile_for(&session, &relay);
                go(Job::Raise { id, session, profile })
            },
            Err(reason) => fail(reason),
        },
        (Job::Raise { id, session, .. }, Event::Raised(Ok(()))) => go(
            Job::Remember { id, session: leaving_by(session, id) },
        ),
        (Job::Raise { .. }, Event::Raised(Err(reason))) => fail(reason),
        (Job::Remember { id, .. }, Event::Saved(Ok(()))) => Step {
            job: Job::Done,
            report: Some(Outcome::ExitPicked(id)),
        },
        (Job::Remember { .. }, Event::Saved(Err(reason))) => fail(reason),
        _ => go(Job::Done),
    }
}

fn round_off(job: Job, event: Event) -> (r: Step)
    ensures
        r@ == rounding_off(job@, event),
{
    match (job, event) {
        (Job::Forget, Event::Cleared) => Step {
            job: Job::Done,
            report: Some(Outcome::SignedOut),
        },
        (Job::Poll, Event::Loaded(Some(session))) => go(Job::List { session }),
        (Job::List { .. }, Event::Exits(Ok(list))) => Step {
            job: Job::Open { call: Call::Look },
            report: Some(Outcome::Exits(list)),
        },
        (Job::List { .. }, Event::Exits(Err(_))) => go(Job::Open { call: Call::Look }),
        (Job::Find, Event::Relays(answer)) => match first_relay(answer) {
            Ok(relay) => Step { job: Job::Done, report: Some(Outcome::Relay(relay)) },
            Err(_) => go(Job::Done),
        },
        _ => go(Job::Done),
    }
}

impl Job {
    /// Where an event takes the task, and what is reported on the way.
    pub fn step(self, event: Event) -> (r: Step)
        requires
            can_come(asked(self@), event),
        ensures
            r@ == next(self@, event),
    {
        match self {
            Job::Login { .. } | Job::Account { .. } | Job::Relays { .. } | Job::Keep { .. } =>
                sign_in_step(self, event),
            Job::Open { .. } | Job::Make { .. } | Job::Renew { .. } | Job::Store { .. }
            | Job::Again { .. } => call_step(self, event),
            Job::Reload { .. } | Job::Entry { .. } | Job::Raise { .. } | Job::Remember { .. } =>
                pick_step(self, event),
            _ => round_off(self, event),
        }
    }
}

// How a task begins

/// What signing in begins with, given the pair that was drawn for it.
pub open spec fn sets_out(number: Seq<char>, draw: Result<Pair, String>) -> Turn {
    match draw {
        Ok(pair) => on(
            Stage::Login { number, private: pair.private@, public: pair.public@ },
        ),
        Err(reason) => failed(reason@),
    }
}

/// What signing in begins with, given the pair that was drawn for it.
pub fn sign_in_with(number: String, draw: Result<Pair, String>) -> (r: Step)
    ensures
        r@ == sets_out(number@, draw),
{
    match draw {
        Ok(pair) => go(Job::Login { number, pair }),
        Err(reason) => fail(reason),
    }
}

/// What a piece of work begins with. A pair is drawn at random for signing in.
pub fn start(work: Work) -> (r: Step)
    ensures
        match work {
            Work::SignIn(number) => exists|draw: Result<Pair, String>|
                keys::is_draw(draw) && r@ == #[trigger] sets_out(number@, draw),
            Work::Refresh => r@ == on(Stage::Poll),
            Work::PickExit(id) => r@ == on(Stage::Open { call: Call::Choose(id) }),
            Work::SignOut => r@ == on(Stage::Open { call: Call::Revoke }),
            Work::Stop => r@ == on(Stage::Done),
        },
{
    match work {
        Work::SignIn(number) => {
            let draw = generate();
            let ghost drawn = draw;
            let r = sign_in_with(number, draw);
            assert(keys::is_draw(drawn) && r@ == sets_out(number@, drawn));
            r
        },
        Work::Refresh => go(Job::Poll),
        Work::PickExit(id) => go(Job::Open { call: Call::Choose(id) }),
        Work::SignOut => go(Job::Open { call: Call::Revoke }),
        Work::Stop => go(Job::Done),
    }
}

// What holds of every task

/// Where some events take a task.
pub open spec fn after(stage: Stage, events: Seq<Event>) -> Stage
    decreases events.len(),
{
    if events.len() == 0 {
        stage
    } else {
        next(after(stage, events.drop_last()), events.last()).stage
    }
}

/// Whether these events can come of what a task asks for, one after the other.
pub open spec fn can_happen(stage: Stage, events: Seq<Event>) -> bool
    decreases events.len(),
{
    events.len() == 0 || (can_happen(stage, events.drop_last()) && can_come(
        asked(after(stage, events.drop_last())),
        events.last(),
    ))
}

/// How many steps a task has left at most.
pub open spec fn left(stage: Stage) -> nat {
    match stage {
        Stage::Login { .. } => 4,
        Stage::Account { .. } => 3,
        Stage::Relays { .. } => 2,
        Stage::Keep { .. } => 1,
        Stage::Open { .. } => 9,
        Stage::Make { .. } => 8,
        Stage::Renew { .. } => 7,
        Stage::Store { .. } => 6,
        Stage::Again { .. } => 5,
        Stage::Reload { .. } => 4,
        Stage::Entry { .. } => 3,
        Stage::Raise { .. } => 2,
        Stage::Remember { .. } => 1,
        Stage::Forget => 1,
        Stage::Poll => 11,
        Stage::List { .. } => 10,
        Stage::Find => 1,
        Stage::Done => 0,
    }
}

/// Every task ends: whatever comes of what it asks for, each step leaves fewer to
/// do, and only one that is over asks for nothing.
pub proof fn lemma_every_task_ends(stage: Stage, event: Event)
    ensures
        can_come(asked(stage), event) ==> left(next(stage, event).stage) < left(stage),
        asked(stage) is Nothing <==> left(stage) == 0,
{
}

/// What has been heard, in every stage that picking an exit can reach: the service
/// has accepted the exit before anything is done about the tunnel, and the tunnel
/// is up before the exit is remembered.
spec fn is_picking(id: i64, stage: Stage, events: Seq<Event>) -> bool {
    match stage {
        Stage::Open { call } => call == Call::Choose(id),
        Stage::Make { call, .. } => call == Call::Choose(id),
        Stage::Renew { call, .. } => call == Call::Choose(id),
        Stage::Store { call, .. } => call == Call::Choose(id),
        Stage::Again { call, .. } => call == Call::Choose(id),
        Stage::Reload { id: own } => own == id && heard_consent(id, events),
        Stage::Entry { id: own, .. } => own == id && heard_consent(id, events),
        Stage::Raise { id: own, .. } => own == id && heard_consent(id, events),
        Stage::Remember { id: own, session } => own == id && heard_consent(id, events) && heard_up(
            events,
        ) && session.exit_id == Some(id),
        Stage::Done => true,
        _ => false,
    }
}

/// Whether the service has accepted an exit: it was asked for that one, and did
/// not refuse.
pub open spec fn heard_consent(id: i64, events: Seq<Event>) -> bool {
    exists|i: int| #[trigger] is_consent(id, events, i)
}

/// Whether the event at `i` is the service's consent to that exit.
pub open spec fn is_consent(id: i64, events: Seq<Event>, i: int) -> bool {
    &&& 0 <= i < events.len()
    &&& events[i] matches Event::Checked(Ok(_))
    &&& asked(after(Stage::Open { call: Call::Choose(id) }, events.take(i))) matches Deed::Choose(
        _,
        own,
    )
    &&& own == id
}

/// Whether the tunnel has come up.
pub open spec fn heard_up(events: Seq<Event>) -> bool {
    exists|i: int| 0 <= i < events.len() && #[trigger] events[i] matches Event::Raised(Ok(_))
}

/// What has been heard stays heard.
proof fn lemma_heard_stays(id: i64, events: Seq<Event>)
    requires
        events.len() > 0,
    ensures
        heard_consent(id, events.drop_last()) ==> heard_consent(id, events),
        heard_up(events.drop_last()) ==> heard_up(events),
{
    let before = events.drop_last();
    if heard_consent(id, before) {
        let i = choose|i: int| is_consent(id, before, i);
        assert(events.take(i) =~= before.take(i));
        assert(is_consent(id, events, i));
    }
    if heard_up(before) {
        let i = choose|i: int|
            0 <= i < before.len() && #[trigger] before[i] matches Event::Raised(Ok(_));
        assert(events[i] == before[i]);
    }
}

/// A stage that asks the service for an exit hears its consent when the answer is no
/// refusal.
proof fn lemma_consent_is_heard(id: i64, events: Seq<Event>)
    requires
        events.len() > 0,
        asked(after(Stage::Open { call: Call::Choose(id) }, events.drop_last())) matches Deed::Choose(
            _,
            own,
        ) && own == id,
        events.last() matches Event::Checked(Ok(_)),
    ensures
        heard_consent(id, events),
{
    assert(events.take(events.len() - 1) =~= events.drop_last());
    assert(is_consent(id, events, events.len() - 1));
}

#[verifier::spinoff_prover]
proof fn lemma_picking(id: i64, events: Seq<Event>)
    requires
        can_happen(Stage::Open { call: Call::Choose(id) }, events),
    ensures
        is_picking(id, after(Stage::Open { call: Call::Choose(id) }, events), events),
    decreases events.len(),
{
    if events.len() > 0 {
        let before = events.drop_last();
        lemma_picking(id, before);
        lemma_heard_stays(id, events);
        match after(Stage::Open { call: Call::Choose(id) }, before) {
            Stage::Make { .. } | Stage::Again { .. } => {
                if events.last() matches Event::Checked(Ok(_)) {
                    lemma_consent_is_heard(id, events);
                }
            },
            Stage::Raise { .. } => {
                assert(events[events.len() - 1] == events.last());
            },
            _ => {},
        }
    }
}

/// The tunnel never comes up over a selection the service did not accept: by the
/// time it is asked for, the service has said yes to that exit. And what is stored
/// once it is up remembers that exit and no other.
pub proof fn lemma_no_tunnel_without_consent(id: i64, events: Seq<Event>)
    requires
        can_happen(Stage::Open { call: Call::Choose(id) }, events),
    ensures
        asked(after(Stage::Open { call: Call::Choose(id) }, events)) is Raise ==> heard_consent(
            id,
            events,
        ),
        after(Stage::Open { call: Call::Choose(id) }, events) matches Stage::Remember {
            session,
            ..
        } ==> heard_consent(id, events) && heard_up(events) && session.exit_id == Some(id),
{
    lemma_picking(id, events);
}

/// How many of these events answer a sign-in.
pub open spec fn sign_ins(events: Seq<Event>) -> nat
    decreases events.len(),
{
    if events.len() == 0 {
        0
    } else {
        sign_ins(events.drop_last()) + if events.last() is Granted {
            1nat
        } else {
            0nat
        }
    }
}

/// A call that needs a token signs in again once at most, however often it is told
/// that its token has lapsed.
pub proof fn lemma_one_renewal_at_most(call: Call, events: Seq<Event>)
    requires
        can_happen(Stage::Open { call }, events),
    ensures
        sign_ins(events) <= 1,
{
    lemma_renewing(call, events);
}

/// No sign-in has been answered up to the renewal, and none is asked for after it.
proof fn lemma_renewing(call: Call, events: Seq<Event>)
    requires
        can_happen(Stage::Open { call }, events),
    ensures
        sign_ins(events) <= 1,
        match after(Stage::Open { call }, events) {
            Stage::Open { .. } | Stage::Make { .. } | Stage::Renew { .. } => sign_ins(events) == 0,
            Stage::Login { .. } | Stage::Poll | Stage::List { .. } => false,
            _ => true,
        },
    decreases events.len(),
{
    if events.len() > 0 {
        lemma_renewing(call, events.drop_last());
    }
}

/// Signing out forgets the session whatever the service makes of it: a task that
/// revokes the device and is over has cleared what was stored.
pub proof fn lemma_signing_out_forgets(events: Seq<Event>)
    requires
        can_happen(Stage::Open { call: Call::Revoke }, events),
    ensures
        after(Stage::Open { call: Call::Revoke }, events) is Done ==> events.len() > 0
            && events.last() is Cleared && next(
            after(Stage::Open { call: Call::Revoke }, events.drop_last()),
            events.last(),
        ).report == Some(Said::SignedOut),
    decreases events.len(),
{
    lemma_revoking(events);
    if events.len() > 0 {
        lemma_revoking(events.drop_last());
    }
}

/// The stages that signing out can reach.
proof fn lemma_revoking(events: Seq<Event>)
    requires
        can_happen(Stage::Open { call: Call::Revoke }, events),
    ensures
        match after(Stage::Open { call: Call::Revoke }, events) {
            Stage::Open { call } => call == Call::Revoke,
            Stage::Make { call, .. } => call == Call::Revoke,
            Stage::Renew { call, .. } => call == Call::Revoke,
            Stage::Store { call, .. } => call == Call::Revoke,
            Stage::Again { call, .. } => call == Call::Revoke,
            Stage::Forget => true,
            Stage::Done => true,
            _ => false,
        },
    decreases events.len(),
{
    if events.len() > 0 {
        lemma_revoking(events.drop_last());
    }
}

/// A refresh reports nothing that concludes something the user started.
pub proof fn lemma_a_refresh_concludes_nothing(events: Seq<Event>, event: Event)
    requires
        can_happen(Stage::Poll, events),
        can_come(asked(after(Stage::Poll, events)), event),
    ensures
        next(after(Stage::Poll, events), event).report matches Some(said) ==> said is Exits
            || said is Account || said is Relay,
{
    lemma_polling(events);
}

/// The stages that a refresh can reach.
proof fn lemma_polling(events: Seq<Event>)
    requires
        can_happen(Stage::Poll, events),
    ensures
        match after(Stage::Poll, events) {
            Stage::Open { call } => call == Call::Look,
            Stage::Make { call, .. } => call == Call::Look,
            Stage::Renew { call, .. } => call == Call::Look,
            Stage::Store { call, .. } => call == Call::Look,
            Stage::Again { call, .. } => call == Call::Look,
            Stage::Poll => true,
            Stage::List { .. } => true,
            Stage::Find => true,
            Stage::Done => true,
            _ => false,
        },
    decreases events.len(),
{
    if events.len() > 0 {
        lemma_polling(events.drop_last());
    }
}

// What never leaves the machine

/// A session, but for the private key.
pub open spec fn keyless(session: store::Kept) -> store::Kept {
    store::Kept { private_key: Seq::empty(), ..session }
}

/// A stage, but for the private key.
pub open spec fn without_key(stage: Stage) -> Stage {
    match stage {
        Stage::Login { number, public, .. } => Stage::Login {
            number,
            private: Seq::empty(),
            public,
        },
        Stage::Account { session } => Stage::Account { session: keyless(session) },
        Stage::Relays { session, account } => Stage::Relays { session: keyless(session), account },
        Stage::Keep { session, account, relay } => Stage::Keep {
            session: keyless(session),
            account,
            relay,
        },
        Stage::Make { call, session } => Stage::Make { call, session: keyless(session) },
        Stage::Renew { call, session } => Stage::Renew { call, session: keyless(session) },
        Stage::Store { call, session } => Stage::Store { call, session: keyless(session) },
        Stage::Again { call, session } => Stage::Again { call, session: keyless(session) },
        Stage::Entry { id, session } => Stage::Entry { id, session: keyless(session) },
        Stage::Raise { id, session, profile } => Stage::Raise {
            id,
            session: keyless(session),
            profile: tunnel::Wanted { private_key: Seq::empty(), ..profile },
        },
        Stage::Remember { id, session } => Stage::Remember { id, session: keyless(session) },
        Stage::List { session } => Stage::List { session: keyless(session) },
        other => other,
    }
}

/// Whether two events are the same but for the private key in a stored session.
pub open spec fn are_alike(a: Event, b: Event) -> bool {
    match (a, b) {
        (Event::Loaded(Some(s)), Event::Loaded(Some(t))) => keyless(s@) == keyless(t@),
        _ => a == b,
    }
}

/// What goes to the service, of what is to be done. The rest stays on the machine.
pub open spec fn sent(deed: Deed) -> Option<Deed> {
    match deed {
        Deed::Load | Deed::Save(_) | Deed::Clear | Deed::Raise(_) | Deed::Nothing => None,
        _ => Some(deed),
    }
}

proof fn lemma_alike_stages(a: Stage, b: Stage, of_a: Event, of_b: Event)
    requires
        without_key(a) == without_key(b),
        are_alike(of_a, of_b),
    ensures
        without_key(next(a, of_a).stage) == without_key(next(b, of_b).stage),
{
    assert(without_key(next(a, of_a).stage) =~= without_key(next(b, of_b).stage));
}

/// The private key never leaves the machine: whatever it is, and whatever has
/// happened, what a task sends the service is the same. Only its public half
/// travels, and the account number, a token and the number of an exit.
pub proof fn lemma_the_private_key_stays(a: Stage, b: Stage, of_a: Seq<Event>, of_b: Seq<Event>)
    requires
        without_key(a) == without_key(b),
        of_a.len() == of_b.len(),
        forall|i: int| 0 <= i < of_a.len() ==> are_alike(#[trigger] of_a[i], of_b[i]),
    ensures
        sent(asked(after(a, of_a))) == sent(asked(after(b, of_b))),
        without_key(after(a, of_a)) == without_key(after(b, of_b)),
    decreases of_a.len(),
{
    if of_a.len() > 0 {
        let (before_a, before_b) = (of_a.drop_last(), of_b.drop_last());
        assert forall|i: int| 0 <= i < before_a.len() implies are_alike(
            #[trigger] before_a[i],
            before_b[i],
        ) by {
            assert(are_alike(of_a[i], of_b[i]));
        }
        lemma_the_private_key_stays(a, b, before_a, before_b);
        assert(are_alike(of_a[of_a.len() - 1], of_b[of_b.len() - 1]));
        lemma_alike_stages(after(a, before_a), after(b, before_b), of_a.last(), of_b.last());
    }
}

// How a task goes when all is well, and what ends it when it is not

/// Signing in asks for a device with the number and the public key, for the account with
/// the token that came with it, and for the entry nodes; it stores the session that
/// holds the device's own fields, and reports that session, the account as the service
/// described it and the first entry node.
pub proof fn lemma_how_a_sign_in_goes(
    number: Seq<char>,
    private: Seq<char>,
    public: Seq<char>,
    granted: Granted,
    account: Account,
    relays: Vec<Relay>,
)
    requires
        granted.device.public_key@ == public,
        relays@.len() > 0,
    ensures
        ({
            let first = Stage::Login { number, private, public };
            let second = next(first, Event::Granted(Ok(granted))).stage;
            let third = next(second, Event::Account(Ok(account))).stage;
            let fourth = next(third, Event::Relays(Ok(relays))).stage;
            let last = next(fourth, Event::Saved(Ok(())));
            &&& asked(first) == Deed::Login(number, public)
            &&& asked(second) == Deed::Account(granted.token@)
            &&& asked(third) == Deed::Relays
            &&& asked(fourth) matches Deed::Save(kept) && {
                &&& kept.account_number == number
                &&& kept.private_key == private
                &&& kept.public_key == public
                &&& kept.token == granted.token@
                &&& kept.device_id == granted.device.id
                &&& kept.device_name == granted.device.name@
                &&& kept.tunnel_ip == granted.device.tunnel_ip@
                &&& kept.tunnel_ip6 == granted.device.tunnel_ip6@
                &&& kept.exit_id is None
                &&& last.report == Some(Said::SignedIn(kept, account, relays@[0]))
            }
            &&& last.stage == Stage::Done
        }),
{
}

/// Signing in ends at the first thing that goes wrong, and says what it was; a device
/// under another key than the one drawn goes wrong too.
pub proof fn lemma_what_ends_a_sign_in(
    number: Seq<char>,
    private: Seq<char>,
    public: Seq<char>,
    session: store::Kept,
    account: Account,
    relay: Relay,
    granted: Granted,
    error: Error,
    reason: String,
    relays: Vec<Relay>,
)
    ensures
        next(Stage::Login { number, private, public }, Event::Granted(Err(error))) == (Turn {
            stage: Stage::Done,
            report: Some(Said::Failed(api::message_of(error))),
        }),
        granted.device.public_key@ != public ==> next(
            Stage::Login { number, private, public },
            Event::Granted(Ok(granted)),
        ) == (Turn { stage: Stage::Done, report: Some(Said::Failed(store::OTHER_KEY@)) }),
        next(Stage::Account { session }, Event::Account(Err(error))) == (Turn {
            stage: Stage::Done,
            report: Some(Said::Failed(api::message_of(error))),
        }),
        next(Stage::Relays { session, account }, Event::Relays(Err(error))) == (Turn {
            stage: Stage::Done,
            report: Some(Said::Failed(api::message_of(error))),
        }),
        relays@.len() == 0 ==> next(Stage::Relays { session, account }, Event::Relays(Ok(relays)))
            == (Turn { stage: Stage::Done, report: Some(Said::Failed(store::NO_ENTRY@)) }),
        next(Stage::Keep { session, account, relay }, Event::Saved(Err(reason))) == (Turn {
            stage: Stage::Done,
            report: Some(Said::Failed(reason@)),
        }),
{
}

/// Picking an exit asks the service for that exit with the stored token, reads the
/// session again, asks for the entry nodes, brings the tunnel up on that session's key
/// and addresses towards the first of them, and only then stores the exit and reports
/// it.
pub proof fn lemma_how_picking_goes(id: i64, stored: Session, again: Session, relays: Vec<Relay>)
    requires
        relays@.len() > 0,
    ensures
        ({
            let first = Stage::Open { call: Call::Choose(id) };
            let second = next(first, Event::Loaded(Some(stored))).stage;
            let third = next(second, Event::Checked(Ok(()))).stage;
            let fourth = next(third, Event::Loaded(Some(again))).stage;
            let fifth = next(fourth, Event::Relays(Ok(relays))).stage;
            let sixth = next(fifth, Event::Raised(Ok(()))).stage;
            let last = next(sixth, Event::Saved(Ok(())));
            &&& asked(first) == Deed::Load
            &&& asked(second) == Deed::Choose(stored.token@, id)
            &&& asked(third) == Deed::Load
            &&& asked(fourth) == Deed::Relays
            &&& asked(fifth) matches Deed::Raise(profile) && {
                &&& profile.private_key == again.private_key@
                &&& profile.addresses == seq![again.tunnel_ip@, again.tunnel_ip6@]
                &&& profile.peer_public_key == relays@[0].public_key@
                &&& profile.endpoint == relays@[0].endpoint@ + ":"@ + crate::text::decimal(
                    relays@[0].port as nat,
                )
            }
            &&& asked(sixth) matches Deed::Save(kept) && {
                &&& kept.exit_id == Some(id)
                &&& kept.account_number == again.account_number@
                &&& kept.token == again.token@
                &&& kept.private_key == again.private_key@
                &&& kept.public_key == again.public_key@
                &&& kept.device_id == again.device_id
                &&& kept.device_name == again.device_name@
                &&& kept.tunnel_ip == again.tunnel_ip@
                &&& kept.tunnel_ip6 == again.tunnel_ip6@
            }
            &&& last.stage == Stage::Done
            &&& last.report == Some(Said::ExitPicked(id))
        }),
{
}

/// Picking ends at the first thing that goes wrong, and says what it was.
pub proof fn lemma_what_ends_picking(
    id: i64,
    session: store::Kept,
    profile: tunnel::Wanted,
    error: Error,
    reason: String,
)
    ensures
        !(error is Unauthorised) ==> next(
            Stage::Make { call: Call::Choose(id), session },
            Event::Checked(Err(error)),
        ) == (Turn { stage: Stage::Done, report: Some(Said::Failed(api::message_of(error))) }),
        next(Stage::Again { call: Call::Choose(id), session }, Event::Checked(Err(error))) == (Turn {
            stage: Stage::Done,
            report: Some(Said::Failed(api::message_of(error))),
        }),
        next(Stage::Open { call: Call::Choose(id) }, Event::Loaded(None)) == (Turn {
            stage: Stage::Done,
            report: Some(Said::Failed(api::message_of(Error::Unauthorised))),
        }),
        next(Stage::Reload { id }, Event::Loaded(None)) == (Turn {
            stage: Stage::Done,
            report: Some(Said::Failed(store::NO_SESSION@)),
        }),
        next(Stage::Entry { id, session }, Event::Relays(Err(error))) == (Turn {
            stage: Stage::Done,
            report: Some(Said::Failed(api::message_of(error))),
        }),
        next(Stage::Raise { id, session, profile }, Event::Raised(Err(reason))) == (Turn {
            stage: Stage::Done,
            report: Some(Said::Failed(reason@)),
        }),
        next(Stage::Remember { id, session }, Event::Saved(Err(reason))) == (Turn {
            stage: Stage::Done,
            report: Some(Said::Failed(reason@)),
        }),
{
}

/// A call whose token has lapsed signs in again with the stored account and the stored
/// public key, stores the session with the fresh token and the device's own fields, and
/// makes the same call once more with that token, whether or not it could be stored.
pub proof fn lemma_how_a_renewal_goes(
    call: Call,
    stored: Session,
    lapse: Event,
    granted: Granted,
    saved: Result<(), String>,
)
    requires
        lapse == Event::Checked(Err(Error::Unauthorised)) || lapse == Event::Account(
            Err(Error::Unauthorised),
        ),
        granted.device.public_key@ == stored.public_key@,
    ensures
        ({
            let second = next(Stage::Open { call }, Event::Loaded(Some(stored))).stage;
            let third = next(second, lapse).stage;
            let fourth = next(third, Event::Granted(Ok(granted))).stage;
            let fifth = next(fourth, Event::Saved(saved)).stage;
            &&& asked(third) == Deed::Login(stored.account_number@, stored.public_key@)
            &&& asked(fourth) matches Deed::Save(kept) && {
                &&& kept.token == granted.token@
                &&& kept.device_id == granted.device.id
                &&& kept.device_name == granted.device.name@
                &&& kept.tunnel_ip == granted.device.tunnel_ip@
                &&& kept.tunnel_ip6 == granted.device.tunnel_ip6@
                &&& kept.account_number == stored.account_number@
                &&& kept.private_key == stored.private_key@
                &&& kept.public_key == stored.public_key@
                &&& kept.exit_id == stored.exit_id
            }
            &&& call matches Call::Choose(id) ==> asked(fifth) == Deed::Choose(granted.token@, id)
            &&& call is Revoke ==> asked(fifth) == Deed::Revoke(granted.token@)
            &&& call is Look ==> asked(fifth) == Deed::Account(granted.token@)
        }),
{
}

/// Signing out revokes the device with the stored token and forgets the session, and
/// does so though there is none, though the service refuses and though the token cannot
/// be renewed.
pub proof fn lemma_how_signing_out_goes(
    stored: Session,
    session: store::Kept,
    answer: Result<(), Error>,
    renewal: Result<Granted, Error>,
)
    ensures
        asked(next(Stage::Open { call: Call::Revoke }, Event::Loaded(Some(stored))).stage)
            == Deed::Revoke(stored.token@),
        asked(next(Stage::Open { call: Call::Revoke }, Event::Loaded(None)).stage) == Deed::Clear,
        answer != Err::<(), Error>(Error::Unauthorised) ==> asked(
            next(Stage::Make { call: Call::Revoke, session }, Event::Checked(answer)).stage,
        ) == Deed::Clear,
        asked(next(Stage::Again { call: Call::Revoke, session }, Event::Checked(answer)).stage)
            == Deed::Clear,
        renewal is Err ==> asked(
            next(Stage::Renew { call: Call::Revoke, session }, Event::Granted(renewal)).stage,
        ) == Deed::Clear,
        next(Stage::Forget, Event::Cleared) == (Turn {
            stage: Stage::Done,
            report: Some(Said::SignedOut),
        }),
{
}

/// A refresh asks for the exits with the stored token and reports them as they were
/// sent, then the account, then the first entry node; whatever it cannot have it goes
/// without, and with nobody signed in it does nothing.
pub proof fn lemma_how_a_refresh_goes(
    stored: Session,
    session: store::Kept,
    list: Vec<Exit>,
    account: Account,
    relays: Vec<Relay>,
    error: Error,
)
    ensures
        next(Stage::Poll, Event::Loaded(None)) == (Turn { stage: Stage::Done, report: None }),
        asked(next(Stage::Poll, Event::Loaded(Some(stored))).stage) == Deed::Exits(stored.token@),
        next(Stage::List { session }, Event::Exits(Ok(list))).report == Some(Said::Exits(list)),
        next(Stage::List { session }, Event::Exits(Err(error))).report is None,
        asked(next(Stage::List { session }, Event::Exits(Ok(list))).stage) == Deed::Load,
        asked(next(Stage::List { session }, Event::Exits(Err(error))).stage) == Deed::Load,
        asked(
            next(
                next(Stage::List { session }, Event::Exits(Ok(list))).stage,
                Event::Loaded(Some(stored)),
            ).stage,
        ) == Deed::Account(stored.token@),
        next(Stage::Make { call: Call::Look, session }, Event::Account(Ok(account))) == (Turn {
            stage: Stage::Find,
            report: Some(Said::Account(account)),
        }),
        next(Stage::Again { call: Call::Look, session }, Event::Account(Err(error))) == (Turn {
            stage: Stage::Find,
            report: None,
        }),
        asked(Stage::Find) == Deed::Relays,
        relays@.len() > 0 ==> next(Stage::Find, Event::Relays(Ok(relays))) == (Turn {
            stage: Stage::Done,
            report: Some(Said::Relay(relays@[0])),
        }),
        relays@.len() == 0 ==> next(Stage::Find, Event::Relays(Ok(relays))) == (Turn {
            stage: Stage::Done,
            report: None,
        }),
        next(Stage::Find, Event::Relays(Err(error))) == (Turn { stage: Stage::Done, report: None }),
{
}

/// Signing in sets out with the number as it was typed and the pair that was drawn, and
/// sends the public half of it; without a pair it ends there and says why.
pub proof fn lemma_how_a_sign_in_sets_out(number: Seq<char>, pair: Pair, reason: String)
    ensures
        sets_out(number, Ok(pair)).report is None,
        asked(sets_out(number, Ok(pair)).stage) == Deed::Login(number, pair.public@),
        sets_out(number, Ok(pair)).stage matches Stage::Login { private, .. } && private
            == pair.private@,
        sets_out(number, Err(reason)) == (Turn {
            stage: Stage::Done,
            report: Some(Said::Failed(reason@)),
        }),
{
}

} // verus!
