//! What the window shows, and what each event does to it.
//!
//! The interface draws what is here and hands its events over. Nothing here
//! draws, and nothing here waits: what has to be done elsewhere comes back as a
//! task.
use crate::api;
use crate::api::{Account, Exit, Relay};
use crate::exits;
use crate::exits::{
    country_key, country_label, group_by_country, is_ready, matching, relay_spot, same_entries,
    showing_open, ExitEntry, Folds, Spot, NO_EXIT,
};
use crate::geo;
use crate::markers;
use crate::markers::{markers, numbered, placed, same_nodes, trail_end, MapNode};
use crate::store::Session;
use crate::text;
use crate::tunnel::{Mode, Stats};
use crate::units;
use crate::units::human;
use vstd::prelude::*;
use vstd::string::*;

verus! {

/// Where the service is, unless a setting says otherwise.
pub const DEFAULT_API: &'static str = "https://valiravpn.com";

/// How often the tunnel is looked at, in seconds.
pub const TUNNEL_POLL: u64 = 2;

/// How often the exits are asked for, in seconds.
pub const EXIT_POLL: u64 = 10;

/// What the background refresh waits before giving up, in seconds. Far shorter
/// than a request the user is watching, because it holds the queue while it runs.
pub const POLL_TIMEOUT: u64 = 5;

/// The number that stands for any kind of line.
pub const ANY_KIND: i32 = -1;

/// The screens of the window.
#[derive(Clone, Copy, PartialEq, Eq, Structural, Debug)]
pub enum Screen {
    SignIn,
    Choosing,
    Connected,
}

/// Work that must not run on the interface thread.
pub enum Task {
    SignIn(String),
    LoadExits,
    PickExit(i64),
    SignOut,
}

/// What the worker sends back once it is done.
pub enum Outcome {
    SignedIn(Session, Account, Relay),
    Exits(Vec<Exit>),
    Relay(Relay),
    ExitPicked(i64),
    Account(Account),
    SignedOut,
    Failed(String),
}

/// Whether an outcome concludes something the user started.
pub open spec fn concludes(outcome: Outcome) -> bool {
    !(outcome is Exits || outcome is Account || outcome is Relay)
}

impl Outcome {
    /// True when this concludes something the user started. The background polls
    /// must never clear a spinner they did not raise, or the buttons come back to
    /// life halfway through a sign-in.
    pub fn concludes_request(&self) -> (r: bool)
        ensures
            r == concludes(*self),
    {
        match self {
            Outcome::Exits(_) => false,
            Outcome::Account(_) => false,
            Outcome::Relay(_) => false,
            _ => true,
        }
    }
}

/// Everything the window shows.
pub struct Ui {
    pub screen: Screen,
    pub busy: bool,
    /// The exit that was asked for and is not there yet.
    pub pending_exit: i32,
    pub can_close_chooser: bool,
    pub account_number: String,
    pub filter: String,
    /// The kind of line picked, or a negative number for any.
    pub kind_filter: i32,
    pub notice: String,
    pub notice_danger: bool,
    pub device_name: String,
    pub tunnel_address: String,
    pub account_expiry: String,
    /// The exit in service, or `NO_EXIT`.
    pub chosen_exit: i32,
    /// The last exit list the service sent, kept so typing in the filter redraws
    /// at once instead of waiting for the next poll to come round.
    pub exits: Vec<Exit>,
    pub folds: Folds,
    pub rows: Vec<ExitEntry>,
    pub total_exits: i32,
    pub count_all: i32,
    pub count_residential: i32,
    pub count_datacentre: i32,
    pub shown_exits: i32,
    pub country_count: i32,
    pub exit_label: String,
    pub exit_state: String,
    pub chosen_country: String,
    pub relay_label: String,
    pub relay: Option<Spot>,
    pub nodes: Vec<MapNode>,
    pub unplaced: i32,
    /// Whether the markers no longer go with the list.
    pub map_due: bool,
    pub tunnel_state: String,
    pub tunnel_status_text: String,
    pub tunnel_kind: String,
    pub traffic_in: String,
    pub traffic_out: String,
    pub handshake: String,
    /// What the tray icon says on hover. With the window hidden it is the only
    /// thing reporting the tunnel, so it carries the exit rather than just a
    /// state.
    pub tooltip: String,
    pub profile_menu_open: bool,
    pub tunnel_menu_open: bool,
}

/// What the window shows, apart from how it is held.
#[verifier::ext_equal]
pub struct Shown {
    pub screen: Screen,
    pub busy: bool,
    pub pending_exit: i32,
    pub can_close_chooser: bool,
    pub account_number: Seq<char>,
    pub filter: Seq<char>,
    pub kind_filter: i32,
    pub notice: Seq<char>,
    pub notice_danger: bool,
    pub device_name: Seq<char>,
    pub tunnel_address: Seq<char>,
    pub account_expiry: Seq<char>,
    pub chosen_exit: i32,
    pub exits: Seq<Exit>,
    pub folds: Folds,
    pub rows: Seq<exits::Row>,
    pub total_exits: i32,
    pub count_all: i32,
    pub count_residential: i32,
    pub count_datacentre: i32,
    pub shown_exits: i32,
    pub country_count: i32,
    pub exit_label: Seq<char>,
    pub exit_state: Seq<char>,
    pub chosen_country: Seq<char>,
    pub relay_label: Seq<char>,
    pub relay: Option<Spot>,
    pub nodes: Seq<markers::Marker>,
    pub unplaced: i32,
    pub map_due: bool,
    pub tunnel_state: Seq<char>,
    pub tunnel_status_text: Seq<char>,
    pub tunnel_kind: Seq<char>,
    pub traffic_in: Seq<char>,
    pub traffic_out: Seq<char>,
    pub handshake: Seq<char>,
    pub tooltip: Seq<char>,
    pub profile_menu_open: bool,
    pub tunnel_menu_open: bool,
}

impl View for Ui {
    type V = Shown;

    open spec fn view(&self) -> Shown {
        Shown {
            screen: self.screen,
            busy: self.busy,
            pending_exit: self.pending_exit,
            can_close_chooser: self.can_close_chooser,
            account_number: self.account_number@,
            filter: self.filter@,
            kind_filter: self.kind_filter,
            notice: self.notice@,
            notice_danger: self.notice_danger,
            device_name: self.device_name@,
            tunnel_address: self.tunnel_address@,
            account_expiry: self.account_expiry@,
            chosen_exit: self.chosen_exit,
            exits: self.exits@,
            folds: self.folds,
            rows: exits::rows(self.rows@),
            total_exits: self.total_exits,
            count_all: self.count_all,
            count_residential: self.count_residential,
            count_datacentre: self.count_datacentre,
            shown_exits: self.shown_exits,
            country_count: self.country_count,
            exit_label: self.exit_label@,
            exit_state: self.exit_state@,
            chosen_country: self.chosen_country@,
            relay_label: self.relay_label@,
            relay: self.relay,
            nodes: markers::marks(self.nodes@),
            unplaced: self.unplaced,
            map_due: self.map_due,
            tunnel_state: self.tunnel_state@,
            tunnel_status_text: self.tunnel_status_text@,
            tunnel_kind: self.tunnel_kind@,
            traffic_in: self.traffic_in@,
            traffic_out: self.traffic_out@,
            handshake: self.handshake@,
            tooltip: self.tooltip@,
            profile_menu_open: self.profile_menu_open,
            tunnel_menu_open: self.tunnel_menu_open,
        }
    }
}

// Small pieces

pub open spec fn on_chooser(s: Shown, closable: bool) -> Shown {
    Shown { can_close_chooser: closable, screen: Screen::Choosing, ..s }
}

pub open spec fn notified(s: Shown, said: Seq<char>, danger: bool) -> Shown {
    Shown { notice: said, notice_danger: danger, ..s }
}

pub open spec fn unnotified(s: Shown) -> Shown {
    Shown { notice: Seq::empty(), ..s }
}

/// What is said of an exit that is not ready.
pub const WAITING: &'static str = "Exit still being activated; traffic is leaving by the entry node for now.";

/// What is said of an exit in service.
pub open spec fn waiting_text(ready: bool) -> Seq<char> {
    if ready {
        Seq::empty()
    } else {
        WAITING@
    }
}

/// What is said of an exit in service, by whether it is ready.
pub fn waiting_notice(ready: bool) -> (r: String)
    ensures
        r@ == waiting_text(ready),
{
    if ready {
        String::new()
    } else {
        WAITING.to_owned()
    }
}

fn dotted(a: &str, b: &str) -> (r: String)
    ensures
        r@ == a@ + " · "@ + b@,
{
    let mut r = a.to_owned();
    r.append(" · ");
    r.append(b);
    r
}

// Session and account

/// What a session shows. The exit it remembers only records which one was picked
/// last.
pub open spec fn with_session(s: Shown, session: crate::store::Kept) -> Shown {
    Shown {
        device_name: session.device_name,
        tunnel_address: session.tunnel_ip,
        chosen_exit: (match session.exit_id {
            Some(id) => id,
            None => NO_EXIT as i64,
        }) as i32,
        ..s
    }
}

/// What an account shows: until when it runs, or when it ran out, and how many of
/// its devices are taken.
pub open spec fn account_text(account: Account) -> Seq<char> {
    let day = text::split_of(account.expires_at@, 'T')[0];
    (if account.active {
        "active until "@
    } else {
        "expired on "@
    }) + day + " · "@ + text::decimal_signed(account.devices as int) + "/"@ + text::decimal_signed(
        account.max_devices as int,
    ) + " devices"@
}

fn account_label(account: &Account) -> (r: String)
    ensures
        r@ == account_text(*account),
{
    let parts = text::split(account.expires_at.as_str(), 'T');
    proof {
        text::lemma_split_of(account.expires_at@, 'T');
        assert(text::texts(parts@)[0] == parts@[0]@);
    }
    let mut r = if account.active {
        "active until ".to_owned()
    } else {
        "expired on ".to_owned()
    };
    r.append(parts[0].as_str());
    r.append(" · ");
    r.append(text::number_signed(account.devices).as_str());
    r.append("/");
    r.append(text::number_signed(account.max_devices).as_str());
    r.append(" devices");
    r
}

// The entry node

/// How an entry node is named: city first, then the country spelled out.
pub open spec fn relay_text(relay: Relay) -> Seq<char> {
    let code = match geo::resolved(relay.country@, relay.country@) {
        Some(code) => code,
        None => Seq::empty(),
    };
    relay.city@ + " · "@ + exits::label_of(code, text::uppercase(relay.country@))
}

/// What an entry node shows.
pub open spec fn with_relay(s: Shown, relay: Relay) -> Shown {
    Shown {
        relay_label: relay_text(relay),
        relay: exits::spot_of(relay.coords, relay.country@, relay.city@),
        ..s
    }
}

fn relay_name(relay: &Relay) -> (r: String)
    ensures
        r@ == relay_text(*relay),
{
    let code = match geo::resolve_code(relay.country.as_str(), relay.country.as_str()) {
        Some(code) => code,
        None => String::new(),
    };
    assert(geo::resolved(relay.country@, relay.country@) is None ==> code@ =~= Seq::empty());
    let country = country_label(
        code.as_str(),
        text::to_uppercase(relay.country.as_str()).as_str(),
    );
    dotted(relay.city.as_str(), country.as_str())
}

// The list

/// What is looked for, from what was typed.
pub open spec fn needle_of(filter: Seq<char>) -> Seq<char> {
    text::trimmed(geo::folded(filter))
}

/// The places of the exits that are shown.
pub open spec fn places_of(s: Shown) -> Seq<usize> {
    exits::matching_of(s.exits, needle_of(s.filter), s.kind_filter)
}

/// Whether the list is narrowed. Picking a tab narrows it as deliberately as
/// typing does, so it opens the countries it left standing rather than handing
/// back a shorter row of shut folders.
pub open spec fn is_narrowed(s: Shown) -> bool {
    needle_of(s.filter).len() > 0 || s.kind_filter >= 0
}

/// The list, from whatever the last poll brought back. The kind tabs count what
/// the text filter left, so switching tabs never claims nodes the search has
/// already excluded.
pub open spec fn with_rows(s: Shown) -> Shown {
    let needle = needle_of(s.filter);
    Shown {
        rows: exits::all_rows(
            s.exits,
            places_of(s),
            s.chosen_exit as i64,
            is_narrowed(s),
            s.folds,
        ),
        total_exits: s.exits.len() as i32,
        count_all: exits::matching_of(s.exits, needle, ANY_KIND).len() as i32,
        count_residential: exits::matching_of(s.exits, needle, api::KIND_RESIDENTIAL).len() as i32,
        count_datacentre: exits::matching_of(s.exits, needle, api::KIND_DATACENTRE).len() as i32,
        shown_exits: places_of(s).len() as i32,
        country_count: exits::countries_of(s.exits, places_of(s)).len() as i32,
        map_due: true,
        ..s
    }
}

/// How an exit in service is named: city first, then the country spelled out.
pub open spec fn exit_text(exit: Exit) -> Seq<char> {
    exit.city@ + " · "@ + exits::label_of(exits::key_of(exit), exit.country@)
}

/// The exit in service, named. Not finding it means the list has not arrived yet,
/// not that the exit is gone: the screen is left as it was rather than blanked.
pub open spec fn with_labels(s: Shown) -> Shown {
    if s.chosen_exit < 0 {
        Shown {
            exit_label: Seq::empty(),
            exit_state: Seq::empty(),
            chosen_country: Seq::empty(),
            ..s
        }
    } else {
        match markers::exit_numbered(s.exits, s.chosen_exit as i64) {
            Some(exit) => Shown {
                exit_label: exit_text(exit),
                exit_state: waiting_text(exits::ready(exit)),
                chosen_country: exits::key_of(exit),
                ..s
            },
            None => s,
        }
    }
}

/// The list and the names that go with it.
pub open spec fn rendered(s: Shown) -> Shown {
    with_labels(with_rows(s))
}

/// The first node of a list with that number.
pub open spec fn row_numbered(rows: Seq<exits::Row>, id: i64) -> Option<exits::Row>
    decreases rows.len(),
{
    if rows.len() == 0 {
        None
    } else if !rows[0].header && rows[0].id as i64 == id {
        Some(rows[0])
    } else {
        row_numbered(rows.drop_first(), id)
    }
}

/// The exit in service, named after its row. The poll may not have carried this
/// exit yet; the row the user just clicked is still in the list.
pub open spec fn named_from_rows(s: Shown, id: i64) -> Shown {
    match row_numbered(s.rows, id) {
        Some(row) => Shown {
            exit_label: row.label + " · "@ + exits::label_of(row.code, text::uppercase(row.code)),
            exit_state: waiting_text(row.ready),
            chosen_country: row.code,
            ..s
        },
        None => s,
    }
}

/// A window that has just opened: nobody signed in, nothing listed, nothing said,
/// and no tunnel.
pub open spec fn just_opened(folds: Folds) -> Shown {
    Shown {
        screen: Screen::SignIn,
        busy: false,
        pending_exit: NO_EXIT,
        can_close_chooser: false,
        account_number: Seq::empty(),
        filter: Seq::empty(),
        kind_filter: ANY_KIND,
        notice: Seq::empty(),
        notice_danger: false,
        device_name: Seq::empty(),
        tunnel_address: Seq::empty(),
        account_expiry: Seq::empty(),
        chosen_exit: NO_EXIT,
        exits: Seq::empty(),
        folds,
        rows: Seq::empty(),
        total_exits: 0,
        count_all: 0,
        count_residential: 0,
        count_datacentre: 0,
        shown_exits: 0,
        country_count: 0,
        exit_label: Seq::empty(),
        exit_state: Seq::empty(),
        chosen_country: Seq::empty(),
        relay_label: Seq::empty(),
        relay: None,
        nodes: Seq::empty(),
        unplaced: 0,
        map_due: false,
        tunnel_state: "down"@,
        tunnel_status_text: "TUNNEL DOWN"@,
        tunnel_kind: Seq::empty(),
        traffic_in: Seq::empty(),
        traffic_out: Seq::empty(),
        handshake: Seq::empty(),
        tooltip: "ValiraVPN — tunnel down"@,
        profile_menu_open: false,
        tunnel_menu_open: false,
    }
}

impl Ui {
    /// What the window always keeps: a country is folded by hand one way only.
    pub open spec fn wf(self) -> bool {
        self.folds.wf()
    }

    /// A window that has just opened, with nobody signed in.
    pub fn new() -> (r: Ui)
        ensures
            r.wf(),
            r@ == just_opened(r@.folds),
            forall|code: Seq<char>| #[trigger] r@.folds.choice(code) is None,
    {
        let r = Ui {
            screen: Screen::SignIn,
            busy: false,
            pending_exit: NO_EXIT,
            can_close_chooser: false,
            account_number: String::new(),
            filter: String::new(),
            kind_filter: ANY_KIND,
            notice: String::new(),
            notice_danger: false,
            device_name: String::new(),
            tunnel_address: String::new(),
            account_expiry: String::new(),
            chosen_exit: NO_EXIT,
            exits: Vec::new(),
            folds: Folds::new(),
            rows: Vec::new(),
            total_exits: 0,
            count_all: 0,
            count_residential: 0,
            count_datacentre: 0,
            shown_exits: 0,
            country_count: 0,
            exit_label: String::new(),
            exit_state: String::new(),
            chosen_country: String::new(),
            relay_label: String::new(),
            relay: None,
            nodes: Vec::new(),
            unplaced: 0,
            map_due: false,
            tunnel_state: "down".to_owned(),
            tunnel_status_text: "TUNNEL DOWN".to_owned(),
            tunnel_kind: String::new(),
            traffic_in: String::new(),
            traffic_out: String::new(),
            handshake: String::new(),
            tooltip: "ValiraVPN — tunnel down".to_owned(),
            profile_menu_open: false,
            tunnel_menu_open: false,
        };
        assert(r@ =~= just_opened(r@.folds));
        r
    }

    /// Shows the chooser, with or without a way back from it.
    pub fn show_chooser(&mut self, closable: bool)
        ensures
            final(self)@ == on_chooser(old(self)@, closable),
    {
        self.can_close_chooser = closable;
        self.screen = Screen::Choosing;
        assert(self@ =~= on_chooser(old(self)@, closable));
    }

    /// Says something to the user. An advisory and a service failure do not
    /// deserve the same colour.
    pub fn notify(&mut self, said: &str, danger: bool)
        ensures
            final(self)@ == notified(old(self)@, said@, danger),
    {
        self.notice_danger = danger;
        self.notice = said.to_owned();
        assert(self@ =~= notified(old(self)@, said@, danger));
    }

    /// Takes back what was said.
    pub fn clear_notice(&mut self)
        ensures
            final(self)@ == unnotified(old(self)@),
    {
        self.notice = String::new();
        assert(self@ =~= unnotified(old(self)@));
    }

    /// Shows a session.
    pub fn apply_session(&mut self, session: &Session)
        ensures
            final(self)@ == with_session(old(self)@, session@),
    {
        let exit: i64 = match session.exit_id {
            Some(id) => id,
            None => NO_EXIT as i64,
        };
        self.device_name = session.device_name.clone();
        self.tunnel_address = session.tunnel_ip.clone();
        self.chosen_exit = exit as i32;
        assert(self@ =~= with_session(old(self)@, session@));
    }

    /// Shows the account.
    pub fn apply_account(&mut self, account: &Account)
        ensures
            final(self)@ == (Shown { account_expiry: account_text(*account), ..old(self)@ }),
    {
        self.account_expiry = account_label(account);
        assert(self@ =~= (Shown { account_expiry: account_text(*account), ..old(self)@ }));
    }

    /// Shows the entry node.
    pub fn apply_relay(&mut self, relay: &Relay)
        ensures
            final(self)@ == with_relay(old(self)@, *relay),
    {
        self.relay_label = relay_name(relay);
        self.relay = relay_spot(relay);
        assert(self@ =~= with_relay(old(self)@, *relay));
    }
}

impl Ui {
    /// Filters, sorts and lays out the exit list from whatever the last poll
    /// brought back. Called both when the service answers and on every keystroke
    /// in the filter.
    pub fn render_exits(&mut self)
        requires
            old(self).wf(),
        ensures
            final(self).wf(),
            final(self)@ == rendered(old(self)@),
    {
        let needle = text::trim(geo::fold(self.filter.as_str()).as_str());
        let needle = needle.as_str();
        self.total_exits = self.exits.len() as i32;
        self.count_all = matching(&self.exits, needle, ANY_KIND).len() as i32;
        self.count_residential = matching(&self.exits, needle, api::KIND_RESIDENTIAL).len() as i32;
        self.count_datacentre = matching(&self.exits, needle, api::KIND_DATACENTRE).len() as i32;
        let places = matching(&self.exits, needle, self.kind_filter);
        let n: usize = self.exits.len();
        proof {
            exits::lemma_matching(self.exits@, needle@, self.kind_filter, n as int);
        }
        let filtering = !needle.is_empty() || self.kind_filter >= 0;
        let (rows, countries) = group_by_country(
            &self.exits,
            &places,
            self.chosen_exit as i64,
            filtering,
            &self.folds,
        );
        if !same_entries(&self.rows, &rows) {
            self.rows = rows;
        }
        self.country_count = countries as i32;
        self.shown_exits = places.len() as i32;
        self.map_due = true;
        assert(self@ =~= with_rows(old(self)@));
        self.refresh_exit_labels();
    }

    /// Names the exit in service.
    pub fn refresh_exit_labels(&mut self)
        requires
            old(self).wf(),
        ensures
            final(self).wf(),
            final(self)@ == with_labels(old(self)@),
    {
        if self.chosen_exit < 0 {
            self.exit_label = String::new();
            self.exit_state = String::new();
            self.chosen_country = String::new();
        } else if let Some(i) = numbered(&self.exits, self.chosen_exit as i64) {
            let exit = &self.exits[i];
            let code = country_key(exit);
            let country = country_label(code.as_str(), exit.country.as_str());
            let label = dotted(exit.city.as_str(), country.as_str());
            let state = waiting_notice(is_ready(exit));
            self.exit_label = label;
            self.exit_state = state;
            self.chosen_country = code;
        }
        assert(self@ =~= with_labels(old(self)@));
    }

    /// Names the exit in service after its row.
    pub fn label_from_model(&mut self, id: i64)
        requires
            old(self).wf(),
        ensures
            final(self).wf(),
            final(self)@ == named_from_rows(old(self)@, id),
    {
        let mut i: usize = 0;
        let ghost all = exits::rows(self.rows@);
        assert(all.skip(0) =~= all);
        while i < self.rows.len()
            invariant
                *self == *old(self),
                self.wf(),
                i <= self.rows@.len(),
                all == exits::rows(self.rows@),
                row_numbered(all, id) == row_numbered(all.skip(i as int), id),
            decreases self.rows@.len() - i,
        {
            assert(all.skip(i as int)[0] == self.rows@[i as int]@);
            assert(all.skip(i as int).drop_first() =~= all.skip(i as int + 1));
            if !self.rows[i].header && self.rows[i].id as i64 == id {
                let row = &self.rows[i];
                let code = row.code.clone();
                let country = country_label(
                    code.as_str(),
                    text::to_uppercase(code.as_str()).as_str(),
                );
                let label = dotted(row.label.as_str(), country.as_str());
                let state = waiting_notice(row.ready);
                self.exit_label = label;
                self.exit_state = state;
                self.chosen_country = code;
                assert(self@ =~= named_from_rows(old(self)@, id));
                return;
            }
            i += 1;
        }
    }

    /// The places of the exits that belong on the map, in the order their table
    /// of distances is made in.
    pub fn on_map(&self) -> (r: Vec<usize>)
        ensures
            r@ == markers::placed_of(self@.exits, places_of(self@)),
            exits::are_places(r@, self@.exits.len()),
    {
        let needle = text::trim(geo::fold(self.filter.as_str()).as_str());
        let places = matching(&self.exits, needle.as_str(), self.kind_filter);
        let n: usize = self.exits.len();
        proof {
            exits::lemma_matching(self.exits@, needle@, self.kind_filter, n as int);
        }
        placed(&self.exits, &places).0
    }

    /// Collapses the exits that are shown onto markers, from the table of which
    /// are close enough to share one at the current scale: a row and a column for
    /// each of `on_map`.
    pub fn render_map(&mut self, near: &Vec<Vec<bool>>)
        requires
            old(self).wf(),
            near@.len() == markers::placed_of(old(self)@.exits, places_of(old(self)@)).len(),
            markers::is_square(markers::table(near@)),
        ensures
            final(self).wf(),
            final(self)@ == (Shown {
                nodes: final(self)@.nodes,
                unplaced: final(self)@.unplaced,
                map_due: false,
                ..old(self)@
            }),
            is_map(old(self)@, near@, final(self)@.nodes),
            final(self)@.unplaced == (places_of(old(self)@).len() - near@.len()) as i32,
    {
        let needle = text::trim(geo::fold(self.filter.as_str()).as_str());
        let places = matching(&self.exits, needle.as_str(), self.kind_filter);
        let n: usize = self.exits.len();
        proof {
            exits::lemma_matching(self.exits@, needle@, self.kind_filter, n as int);
        }
        let (on, off) = placed(&self.exits, &places);
        let nodes = markers(&self.exits, &on, near);
        assert forall|g: int| 0 <= g < nodes@.len() implies #[trigger] markers::marks(nodes@)[g]
            == markers::marker_of(
            self.exits@,
            markers::at_places(
                on@,
                markers::shown_by(markers::table(near@), g as nat, near@.len() as int),
            ),
        ) by {
            assert(markers::marks(nodes@)[g] == nodes@[g]@);
        }
        if !same_nodes(&self.nodes, &nodes) {
            self.nodes = nodes;
        }
        self.unplaced = off as i32;
        self.map_due = false;
    }

    /// Where the trail from the entry node ends, when there is one to draw.
    pub fn trail(&self) -> (r: Option<Spot>)
        ensures
            r == (match markers::exit_numbered(self@.exits, self@.chosen_exit as i64) {
                Some(exit) if self@.relay is Some => exits::exit_spot(exit),
                _ => None,
            }),
    {
        trail_end(&self.exits, self.chosen_exit as i64, self.relay.is_some())
    }
}

/// Whether these are the markers of the exits that are shown.
pub open spec fn is_map(s: Shown, near: Seq<Vec<bool>>, nodes: Seq<markers::Marker>) -> bool {
    let t = markers::table(near);
    let on = markers::placed_of(s.exits, places_of(s));
    &&& nodes.len() == markers::leads(t, near.len() as int).len()
    &&& forall|g: int|
        0 <= g < nodes.len() ==> #[trigger] nodes[g] == markers::marker_of(
            s.exits,
            markers::at_places(on, markers::shown_by(t, g as nat, near.len() as int)),
        )
}

/// Nobody is lost on the map: the counts on its markers and the number that is left
/// off it add up to the exits that are shown.
pub proof fn lemma_the_map_accounts_for_everyone(
    s: Shown,
    near: Seq<Vec<bool>>,
    nodes: Seq<markers::Marker>,
)
    requires
        is_map(s, near, nodes),
        near.len() == markers::placed_of(s.exits, places_of(s)).len(),
        places_of(s).len() <= i32::MAX,
    ensures
        markers::total(nodes) + (places_of(s).len() - near.len()) as i32 == places_of(s).len(),
{
    let on = markers::placed_of(s.exits, places_of(s));
    markers::lemma_placed_len(s.exits, places_of(s));
    markers::lemma_the_counts_add_up(s.exits, on, markers::table(near), nodes);
}

// The tunnel

/// The backend that carries the traffic, said outright rather than left to be
/// discovered: the kernel path is the faster of the two.
pub open spec fn kind_text(mode: Mode) -> Seq<char> {
    match mode {
        Mode::System => "WireGuard service · kernel path"@,
        Mode::Embedded => "Embedded · user-space path"@,
    }
}

/// How long ago the relay last answered.
pub open spec fn handshake_text(age: Option<u64>) -> Seq<char> {
    match age {
        Some(age) => text::decimal(age as nat) + " s ago"@,
        None => "never"@,
    }
}

/// What the tray says of a tunnel that is up.
pub open spec fn tooltip_text(exit: Seq<char>, provisioning: bool) -> Seq<char> {
    if exit.len() == 0 {
        "ValiraVPN — "@ + if provisioning {
            "activating"@
        } else {
            "connected"@
        }
    } else if provisioning {
        "ValiraVPN — activating "@ + exit
    } else {
        "ValiraVPN — "@ + exit
    }
}

/// What the tunnel shows. Leaving the last counters up made a closed tunnel look
/// like a live one for as long as the window stayed open.
pub open spec fn with_tunnel(s: Shown, mode: Option<Mode>, stats: Stats) -> Shown {
    match mode {
        None => Shown {
            tunnel_state: "down"@,
            tunnel_status_text: "TUNNEL DOWN"@,
            tunnel_kind: Seq::empty(),
            traffic_in: Seq::empty(),
            traffic_out: Seq::empty(),
            handshake: Seq::empty(),
            tooltip: "ValiraVPN — tunnel down"@,
            ..s
        },
        Some(mode) => {
            let provisioning = s.exit_state.len() > 0;
            Shown {
                tunnel_state: if provisioning {
                    "pending"@
                } else {
                    "up"@
                },
                tunnel_status_text: if provisioning {
                    "ACTIVATING"@
                } else {
                    "TUNNEL UP"@
                },
                tunnel_kind: kind_text(mode),
                traffic_in: units::human_of(stats.received as nat),
                traffic_out: units::human_of(stats.sent as nat),
                handshake: handshake_text(stats.handshake_age),
                tooltip: tooltip_text(s.exit_label, provisioning),
                ..s
            }
        },
    }
}

fn tooltip_for(exit: &str, provisioning: bool) -> (r: String)
    ensures
        r@ == tooltip_text(exit@, provisioning),
{
    let mut r = "ValiraVPN — ".to_owned();
    if exit.is_empty() {
        if provisioning {
            r.append("activating");
        } else {
            r.append("connected");
        }
    } else if provisioning {
        r = "ValiraVPN — activating ".to_owned();
        r.append(exit);
    } else {
        r.append(exit);
    }
    r
}

/// The hint for a client without the rights a tunnel takes.
pub fn elevation_hint(windows: bool) -> (r: &'static str)
    ensures
        r@ == hint(windows),
{
    if windows {
        "Run ValiraVPN as administrator to bring the tunnel up."
    } else {
        "Run ValiraVPN with sudo to bring the tunnel up."
    }
}

/// The hint for a client without the rights a tunnel takes.
pub open spec fn hint(windows: bool) -> Seq<char> {
    if windows {
        "Run ValiraVPN as administrator to bring the tunnel up."@
    } else {
        "Run ValiraVPN with sudo to bring the tunnel up."@
    }
}

/// What a look at the tunnel shows.
///
/// The opening screen is settled by the first, and never again: the user is free
/// to walk back to the chooser with a tunnel up, and nothing should drag them out
/// of it. A stored exit does not settle it, for the tunnel does not survive the
/// client. The hint is not a failure, and must not bury a real error.
pub open spec fn probed(
    s: Shown,
    first: bool,
    mode: Option<Mode>,
    stats: Stats,
    elevated: Option<bool>,
    windows: bool,
) -> Shown {
    let s = with_tunnel(s, mode, stats);
    let s = if first && s.screen != Screen::SignIn {
        if mode is Some {
            Shown { screen: Screen::Connected, ..s }
        } else {
            on_chooser(s, false)
        }
    } else {
        s
    };
    if elevated == Some(false) && s.notice.len() == 0 {
        notified(s, hint(windows), false)
    } else {
        s
    }
}

impl Ui {
    /// Shows what the tunnel is doing.
    pub fn apply_tunnel(&mut self, mode: Option<Mode>, stats: Stats)
        requires
            old(self).wf(),
        ensures
            final(self).wf(),
            final(self)@ == with_tunnel(old(self)@, mode, stats),
    {
        match mode {
            None => {
                self.tunnel_state = "down".to_owned();
                self.tunnel_status_text = "TUNNEL DOWN".to_owned();
                self.tunnel_kind = String::new();
                self.tooltip = "ValiraVPN — tunnel down".to_owned();
                self.traffic_in = String::new();
                self.traffic_out = String::new();
                self.handshake = String::new();
            },
            Some(mode) => {
                let provisioning = !self.exit_state.as_str().is_empty();
                self.tunnel_kind = match mode {
                    Mode::System => "WireGuard service · kernel path".to_owned(),
                    Mode::Embedded => "Embedded · user-space path".to_owned(),
                };
                if provisioning {
                    self.tunnel_state = "pending".to_owned();
                    self.tunnel_status_text = "ACTIVATING".to_owned();
                } else {
                    self.tunnel_state = "up".to_owned();
                    self.tunnel_status_text = "TUNNEL UP".to_owned();
                }
                self.traffic_in = human(stats.received);
                self.traffic_out = human(stats.sent);
                self.handshake = match stats.handshake_age {
                    Some(age) => {
                        let mut said = text::number(age);
                        said.append(" s ago");
                        said
                    },
                    None => "never".to_owned(),
                };
                self.tooltip = tooltip_for(self.exit_label.as_str(), provisioning);
            },
        }
        assert(self@ =~= with_tunnel(old(self)@, mode, stats));
    }

    /// Shows what a look at the tunnel found. `elevated` is asked on the first
    /// only.
    pub fn probe(
        &mut self,
        first: bool,
        mode: Option<Mode>,
        stats: Stats,
        elevated: Option<bool>,
        windows: bool,
    )
        requires
            old(self).wf(),
        ensures
            final(self).wf(),
            final(self)@ == probed(old(self)@, first, mode, stats, elevated, windows),
    {
        self.apply_tunnel(mode, stats);
        if first && self.screen != Screen::SignIn {
            if mode.is_some() {
                self.screen = Screen::Connected;
            } else {
                self.show_chooser(false);
            }
        }
        if elevated == Some(false) && self.notice.as_str().is_empty() {
            self.notify(elevation_hint(windows), false);
        }
        assert(self@ =~= probed(old(self)@, first, mode, stats, elevated, windows));
    }
}

/// Only the first look settles the screen: any later one leaves the user where they
/// walked to. And no look buries what has been said already.
pub proof fn lemma_a_later_look_moves_nobody(
    s: Shown,
    first: bool,
    mode: Option<Mode>,
    stats: Stats,
    elevated: Option<bool>,
    windows: bool,
)
    ensures
        !first ==> probed(s, first, mode, stats, elevated, windows).screen == s.screen,
        s.screen == Screen::SignIn ==> probed(s, first, mode, stats, elevated, windows).screen
            == Screen::SignIn,
        s.notice.len() > 0 ==> probed(s, first, mode, stats, elevated, windows).notice == s.notice,
{
}

// What the worker sends back

/// The window once nobody is signed in any more.
pub open spec fn signed_out(s: Shown) -> Shown {
    Shown {
        exits: Seq::empty(),
        screen: Screen::SignIn,
        account_number: Seq::empty(),
        filter: Seq::empty(),
        rows: Seq::empty(),
        total_exits: 0,
        chosen_exit: NO_EXIT,
        exit_label: Seq::empty(),
        exit_state: Seq::empty(),
        can_close_chooser: false,
        nodes: Seq::empty(),
        unplaced: 0,
        map_due: false,
        relay: None,
        notice: Seq::empty(),
        ..s
    }
}

/// The connected screen, with the exit in service named after its row where
/// nothing else names it.
pub open spec fn connected(s: Shown, id: i64) -> Shown {
    let s = if s.exit_label.len() == 0 {
        named_from_rows(s, id)
    } else {
        s
    };
    Shown { notice: Seq::empty(), screen: Screen::Connected, ..s }
}

/// The window once an exit has been picked.
pub open spec fn picked(s: Shown, id: i64) -> Shown {
    connected(rendered(Shown { chosen_exit: id as i32, ..s }), id)
}

/// The window once an outcome has come in.
pub open spec fn reported(s: Shown, outcome: Outcome) -> Shown {
    let s = if concludes(outcome) {
        Shown { busy: false, pending_exit: NO_EXIT, ..s }
    } else {
        s
    };
    match outcome {
        Outcome::SignedIn(session, account, relay) => signed_in(s, session@, account, relay),
        Outcome::Exits(list) => rendered(Shown { exits: list@, ..s }),
        Outcome::Relay(relay) => with_relay(s, relay),
        Outcome::ExitPicked(id) => picked(s, id),
        Outcome::Account(account) => Shown { account_expiry: account_text(account), ..s },
        Outcome::SignedOut => signed_out(s),
        Outcome::Failed(reason) => notified(s, reason@, true),
    }
}

/// The window once somebody has signed in.
pub open spec fn signed_in(
    s: Shown,
    session: crate::store::Kept,
    account: Account,
    relay: Relay,
) -> Shown {
    let s = Shown { account_expiry: account_text(account), ..with_session(s, session) };
    on_chooser(unnotified(with_relay(s, relay)), false)
}

impl Ui {
    fn arrive(&mut self, session: &Session, account: &Account, relay: &Relay)
        requires
            old(self).wf(),
        ensures
            final(self).wf(),
            final(self)@ == signed_in(old(self)@, session@, *account, *relay),
    {
        self.apply_session(session);
        self.apply_account(account);
        self.apply_relay(relay);
        self.clear_notice();
        self.show_chooser(false);
    }

    fn settle_on(&mut self, id: i64)
        requires
            old(self).wf(),
        ensures
            final(self).wf(),
            final(self)@ == picked(old(self)@, id),
    {
        self.chosen_exit = id as i32;
        assert(self@ =~= (Shown { chosen_exit: id as i32, ..old(self)@ }));
        self.render_exits();
        self.connect(id);
    }

    fn connect(&mut self, id: i64)
        requires
            old(self).wf(),
        ensures
            final(self).wf(),
            final(self)@ == connected(old(self)@, id),
    {
        if self.exit_label.as_str().is_empty() {
            self.label_from_model(id);
        }
        self.notice = String::new();
        self.screen = Screen::Connected;
        assert(self@ =~= connected(old(self)@, id));
    }

    fn leave(&mut self)
        requires
            old(self).wf(),
        ensures
            final(self).wf(),
            final(self)@ == signed_out(old(self)@),
    {
        self.exits = Vec::new();
        self.screen = Screen::SignIn;
        self.account_number = String::new();
        self.filter = String::new();
        self.rows = Vec::new();
        self.total_exits = 0;
        self.chosen_exit = NO_EXIT;
        self.exit_label = String::new();
        self.exit_state = String::new();
        self.can_close_chooser = false;
        self.nodes = Vec::new();
        self.unplaced = 0;
        self.map_due = false;
        self.relay = None;
        self.clear_notice();
        assert(self@ =~= signed_out(old(self)@));
    }

    /// Shows what the worker sent back.
    pub fn report(&mut self, outcome: Outcome)
        requires
            old(self).wf(),
        ensures
            final(self).wf(),
            final(self)@ == reported(old(self)@, outcome),
    {
        if outcome.concludes_request() {
            self.busy = false;
            self.pending_exit = NO_EXIT;
            assert(self@ =~= (Shown { busy: false, pending_exit: NO_EXIT, ..old(self)@ }));
        }
        match outcome {
            Outcome::SignedIn(session, account, relay) => self.arrive(&session, &account, &relay),
            Outcome::Exits(list) => {
                self.exits = list;
                assert(self@ =~= (Shown { exits: list@, ..old(self)@ }));
                self.render_exits();
            },
            Outcome::Relay(relay) => self.apply_relay(&relay),
            Outcome::ExitPicked(id) => self.settle_on(id),
            Outcome::Account(account) => self.apply_account(&account),
            Outcome::SignedOut => self.leave(),
            Outcome::Failed(reason) => self.notify(reason.as_str(), true),
        }
    }
}

/// A poll never gives the buttons back: while something the user asked for is
/// under way, the answers to the background refresh leave it under way, and the
/// row that waits for it waiting.
pub proof fn lemma_polls_conclude_nothing(s: Shown, outcome: Outcome)
    requires
        outcome is Exits || outcome is Account || outcome is Relay,
    ensures
        reported(s, outcome).busy == s.busy,
        reported(s, outcome).pending_exit == s.pending_exit,
        reported(s, outcome).screen == s.screen,
        reported(s, outcome).notice == s.notice,
{
}

/// Everything else does: once it has come in the window answers again.
pub proof fn lemma_outcomes_give_the_buttons_back(s: Shown, outcome: Outcome)
    requires
        !(outcome is Exits || outcome is Account || outcome is Relay),
    ensures
        !reported(s, outcome).busy,
        reported(s, outcome).pending_exit == NO_EXIT,
{
}

/// A tab's count is what picking the tab shows.
pub proof fn lemma_a_tab_shows_what_it_counts(s: Shown, kind: i32)
    requires
        kind == ANY_KIND || kind == api::KIND_RESIDENTIAL || kind == api::KIND_DATACENTRE,
    ensures
        rendered(Shown { kind_filter: kind, ..s }).shown_exits == (if kind == ANY_KIND {
            rendered(s).count_all
        } else if kind == api::KIND_RESIDENTIAL {
            rendered(s).count_residential
        } else {
            rendered(s).count_datacentre
        }),
{
}

// What the user does

/// The digits of a text.
pub open spec fn digits_of(s: Seq<char>) -> Seq<char>
    decreases s.len(),
{
    if s.len() == 0 {
        Seq::empty()
    } else if text::is_digit(s.last()) {
        digits_of(s.drop_last()).push(s.last())
    } else {
        digits_of(s.drop_last())
    }
}

fn digits(s: &str) -> (r: Vec<char>)
    ensures
        r@ == digits_of(s@),
{
    let chars = text::chars_of(s);
    let mut r: Vec<char> = Vec::new();
    let mut i: usize = 0;
    assert(s@.take(0) =~= Seq::empty());
    while i < chars.len()
        invariant
            i <= chars@.len(),
            chars@ == s@,
            r@ == digits_of(s@.take(i as int)),
        decreases chars@.len() - i,
    {
        let c = chars[i];
        assert(s@.take(i as int + 1).drop_last() =~= s@.take(i as int));
        assert(s@.take(i as int + 1).last() == c);
        if '0' <= c && c <= '9' {
            r.push(c);
        }
        i += 1;
    }
    assert(s@.take(i as int) =~= s@);
    r
}

/// How many digits an account number has.
pub const ACCOUNT_DIGITS: usize = 16;

/// What is said of a number that has more or fewer.
pub const NOT_AN_ACCOUNT: &'static str = "An account number is sixteen digits.";

impl Ui {
    /// The user asks to sign in with the number typed. Spaces and dashes in it do
    /// not count.
    pub fn sign_in(&mut self) -> (r: Option<Task>)
        requires
            old(self).wf(),
        ensures
            final(self).wf(),
            match r {
                Some(task) => {
                    &&& !old(self)@.busy
                    &&& task matches Task::SignIn(number) && number@ == digits_of(
                        old(self)@.account_number,
                    ) && number@.len() == ACCOUNT_DIGITS
                    &&& final(self)@ == (Shown { busy: true, ..unnotified(old(self)@) })
                },
                None => {
                    ||| old(self)@.busy && final(self)@ == old(self)@
                    ||| {
                        &&& !old(self)@.busy
                        &&& digits_of(old(self)@.account_number).len() != ACCOUNT_DIGITS
                        &&& final(self)@ == notified(old(self)@, NOT_AN_ACCOUNT@, true)
                    }
                },
            },
    {
        if self.busy {
            return None;
        }
        let digits = digits(self.account_number.as_str());
        if digits.len() != ACCOUNT_DIGITS {
            self.notify(NOT_AN_ACCOUNT, true);
            return None;
        }
        self.clear_notice();
        self.busy = true;
        let number = text::string_of(&digits, 0, digits.len());
        assert(number@ =~= digits@);
        assert(self@ =~= (Shown { busy: true, ..unnotified(old(self)@) }));
        Some(Task::SignIn(number))
    }

    /// The user picks an exit. The row itself is marked, so the wait is visible
    /// where it was asked for rather than only in a status band.
    pub fn pick_exit(&mut self, id: i32) -> (r: Option<Task>)
        requires
            old(self).wf(),
        ensures
            final(self).wf(),
            r is Some <==> !old(self)@.busy,
            r matches Some(task) ==> task == Task::PickExit(id as i64),
            final(self)@ == (if old(self)@.busy {
                old(self)@
            } else {
                Shown { busy: true, pending_exit: id, ..unnotified(old(self)@) }
            }),
    {
        if self.busy {
            return None;
        }
        self.busy = true;
        self.pending_exit = id;
        self.clear_notice();
        assert(self@ =~= (Shown { busy: true, pending_exit: id, ..unnotified(old(self)@) }));
        Some(Task::PickExit(id as i64))
    }

    /// The user asks to disconnect. True when the tunnel is to be taken down.
    ///
    /// Down on screen the moment it is asked for, with no progress bar to sit
    /// through. The teardown itself still takes a moment, but there is nothing in
    /// that wait for the user. If it fails, the reason is shown and the watcher
    /// puts the real state back with its next look.
    pub fn disconnect(&mut self) -> (r: bool)
        requires
            old(self).wf(),
        ensures
            final(self).wf(),
            r == !old(self)@.busy,
            final(self)@ == (if old(self)@.busy {
                old(self)@
            } else {
                on_chooser(
                    with_tunnel(unnotified(old(self)@), None, crate::tunnel::no_stats()),
                    false,
                )
            }),
    {
        if self.busy {
            return false;
        }
        self.clear_notice();
        self.apply_tunnel(None, Stats::default());
        self.show_chooser(false);
        true
    }

    /// The user asks to sign out. When something comes back, the tunnel is to be
    /// taken down straight away; revoking the device is a request and takes its
    /// place in the queue behind whatever is in flight.
    pub fn sign_out(&mut self) -> (r: Option<Task>)
        requires
            old(self).wf(),
        ensures
            final(self).wf(),
            r is Some <==> !old(self)@.busy,
            r matches Some(task) ==> task is SignOut,
            final(self)@ == (if old(self)@.busy {
                old(self)@
            } else {
                Shown { busy: true, ..unnotified(old(self)@) }
            }),
    {
        if self.busy {
            return None;
        }
        self.busy = true;
        self.clear_notice();
        assert(self@ =~= (Shown { busy: true, ..unnotified(old(self)@) }));
        Some(Task::SignOut)
    }

    /// The user picks a kind of line.
    pub fn pick_kind(&mut self, kind: i32)
        requires
            old(self).wf(),
        ensures
            final(self).wf(),
            final(self)@ == rendered(Shown { kind_filter: kind, ..old(self)@ }),
    {
        self.kind_filter = kind;
        self.render_exits();
    }

    /// The user types in the filter.
    pub fn filter_changed(&mut self, typed: &str)
        requires
            old(self).wf(),
        ensures
            final(self).wf(),
            final(self)@ == rendered(Shown { filter: typed@, ..old(self)@ }),
    {
        self.filter = typed.to_owned();
        assert(self@ =~= (Shown { filter: typed@, ..old(self)@ }));
        self.render_exits();
    }

    /// The user clicks a country. Whatever its row shows now is what the click
    /// reverses.
    pub fn toggle_country(&mut self, code: &str)
        requires
            old(self).wf(),
        ensures
            final(self).wf(),
            final(self)@ == rendered(Shown { folds: final(self)@.folds, ..old(self)@ }),
            final(self)@.folds.choice(code@) == Some(!exits::shows_open(old(self)@.rows, code@)),
            forall|other: Seq<char>|
                other != code@ ==> #[trigger] final(self)@.folds.choice(other) == old(
                    self,
                )@.folds.choice(other),
    {
        let open = showing_open(&self.rows, code);
        self.folds.set(code, !open);
        assert(self@ =~= (Shown { folds: self.folds, ..old(self)@ }));
        self.render_exits();
    }

    /// The user walks back to the chooser.
    pub fn open_chooser(&mut self)
        requires
            old(self).wf(),
        ensures
            final(self).wf(),
            final(self)@ == on_chooser(old(self)@, true),
    {
        self.show_chooser(true);
    }

    /// The user leaves the chooser.
    pub fn close_chooser(&mut self)
        requires
            old(self).wf(),
        ensures
            final(self).wf(),
            final(self)@ == (Shown { screen: Screen::Connected, ..old(self)@ }),
    {
        self.screen = Screen::Connected;
        assert(self@ =~= (Shown { screen: Screen::Connected, ..old(self)@ }));
    }

    /// What a stored session shows when the client starts: the chooser, whatever
    /// exit is remembered. Which screen is the honest one depends on the tunnel,
    /// and the first look at it decides.
    pub fn resume(&mut self, session: &Session)
        requires
            old(self).wf(),
        ensures
            final(self).wf(),
            final(self)@ == on_chooser(with_session(old(self)@, session@), false),
    {
        self.apply_session(session);
        self.show_chooser(false);
    }
}

// What the window comes to show

/// A session is shown by its device's name and its first tunnel address, and by the exit
/// it remembers; nothing else changes.
pub proof fn lemma_what_a_session_shows(s: Shown, session: Session)
    ensures
        with_session(s, session@).device_name == session.device_name@,
        with_session(s, session@).tunnel_address == session.tunnel_ip@,
        session.exit_id matches Some(id) ==> 0 <= id <= i32::MAX ==> with_session(
            s,
            session@,
        ).chosen_exit == id,
        session.exit_id is None ==> with_session(s, session@).chosen_exit == NO_EXIT,
        with_session(s, session@).screen == s.screen,
        with_session(s, session@).exits == s.exits,
        with_session(s, session@).notice == s.notice,
{
}

/// An account says the day it runs until or ran out on, without the hour, and how many
/// devices it has of how many it may have.
pub proof fn lemma_what_an_account_says(account: Account, day: Seq<char>, hour: Seq<char>)
    requires
        account.expires_at@ == day + seq!['T'] + hour || account.expires_at@ == day,
        !day.contains('T'),
    ensures
        account.active ==> account_text(account) == "active until "@ + day + " · "@
            + text::decimal_signed(account.devices as int) + "/"@ + text::decimal_signed(
            account.max_devices as int,
        ) + " devices"@,
        !account.active ==> account_text(account) == "expired on "@ + day + " · "@
            + text::decimal_signed(account.devices as int) + "/"@ + text::decimal_signed(
            account.max_devices as int,
        ) + " devices"@,
{
    let at = account.expires_at@;
    if at == day {
        text::lemma_until(at, 'T');
    } else {
        assert forall|i: int| 0 <= i < day.len() implies at[i] != 'T' by {
            assert(at[i] == day[i]);
        }
        text::lemma_until_at(at, 'T', day.len() as int);
        assert(at.take(day.len() as int) =~= day);
    }
}

/// What came in and what went out stay apart: each is shown by its own count, and one
/// that does not change shows the same whatever the other does.
pub proof fn lemma_traffic_each_its_own(s: Shown, mode: Mode, a: Stats, b: Stats)
    ensures
        with_tunnel(s, Some(mode), a).traffic_in == units::human_of(a.received as nat),
        with_tunnel(s, Some(mode), a).traffic_out == units::human_of(a.sent as nat),
        a.received == b.received ==> with_tunnel(s, Some(mode), a).traffic_in == with_tunnel(
            s,
            Some(mode),
            b,
        ).traffic_in,
        a.sent == b.sent ==> with_tunnel(s, Some(mode), a).traffic_out == with_tunnel(
            s,
            Some(mode),
            b,
        ).traffic_out,
        a.handshake_age matches Some(age) ==> with_tunnel(s, Some(mode), a).handshake
            == text::decimal(age as nat) + " s ago"@,
        a.handshake_age is None ==> with_tunnel(s, Some(mode), a).handshake == "never"@,
{
}

/// A tunnel that is up says so, unless the exit is still being activated, and names the
/// backend and the exit; one that is down shows nothing of what it carried.
pub proof fn lemma_what_the_tunnel_shows(s: Shown, stats: Stats)
    ensures
        s.exit_state.len() == 0 ==> with_tunnel(s, Some(Mode::System), stats).tunnel_state == "up"@
            && with_tunnel(s, Some(Mode::System), stats).tunnel_status_text == "TUNNEL UP"@,
        s.exit_state.len() > 0 ==> with_tunnel(s, Some(Mode::System), stats).tunnel_state
            == "pending"@ && with_tunnel(s, Some(Mode::System), stats).tunnel_status_text
            == "ACTIVATING"@,
        with_tunnel(s, Some(Mode::System), stats).tunnel_kind
            == "WireGuard service · kernel path"@,
        with_tunnel(s, Some(Mode::Embedded), stats).tunnel_kind == "Embedded · user-space path"@,
        with_tunnel(s, Some(Mode::Embedded), stats).tunnel_state == with_tunnel(
            s,
            Some(Mode::System),
            stats,
        ).tunnel_state,
        s.exit_label.len() > 0 && s.exit_state.len() == 0 ==> with_tunnel(
            s,
            Some(Mode::System),
            stats,
        ).tooltip == "ValiraVPN — "@ + s.exit_label,
        s.exit_label.len() > 0 && s.exit_state.len() > 0 ==> with_tunnel(
            s,
            Some(Mode::System),
            stats,
        ).tooltip == "ValiraVPN — activating "@ + s.exit_label,
        s.exit_label.len() == 0 && s.exit_state.len() == 0 ==> with_tunnel(
            s,
            Some(Mode::System),
            stats,
        ).tooltip == "ValiraVPN — "@ + "connected"@,
        ({
            let down = with_tunnel(s, None, stats);
            &&& down.tunnel_state == "down"@
            &&& down.tunnel_status_text == "TUNNEL DOWN"@
            &&& down.tunnel_kind.len() == 0
            &&& down.traffic_in.len() == 0
            &&& down.traffic_out.len() == 0
            &&& down.handshake.len() == 0
            &&& down.tooltip == "ValiraVPN — tunnel down"@
            &&& down.screen == s.screen
            &&& down.exit_label == s.exit_label
        }),
{
}

/// The first look at the tunnel settles the screen of someone who is signed in: the
/// connected one when it is up, the chooser, with no way back from it, when it is not.
pub proof fn lemma_the_first_look_settles_the_screen(
    s: Shown,
    mode: Option<Mode>,
    stats: Stats,
    elevated: Option<bool>,
    windows: bool,
)
    requires
        s.screen != Screen::SignIn,
    ensures
        mode is Some ==> probed(s, true, mode, stats, elevated, windows).screen
            == Screen::Connected,
        mode is None ==> probed(s, true, mode, stats, elevated, windows).screen == Screen::Choosing
            && !probed(s, true, mode, stats, elevated, windows).can_close_chooser,
        elevated == Some(false) && s.notice.len() == 0 ==> probed(
            s,
            true,
            mode,
            stats,
            elevated,
            windows,
        ).notice == hint(windows) && !probed(s, true, mode, stats, elevated, windows).notice_danger,
        elevated != Some(false) ==> probed(s, true, mode, stats, elevated, windows).notice
            == s.notice,
{
}

proof fn lemma_matching_filter(list: Seq<Exit>, needle: Seq<char>, wanted: i32, n: int)
    requires
        0 <= n <= list.len(),
    ensures
        exits::matching_in(list, needle, wanted, n).len() == list.take(n).filter(
            |exit: Exit| exits::found(exit, needle) && exits::wanted_kind(exit, wanted),
        ).len(),
    decreases n,
{
    reveal(Seq::filter);
    if n > 0 {
        lemma_matching_filter(list, needle, wanted, n - 1);
        assert(list.take(n).drop_last() =~= list.take(n - 1));
        assert(list.take(n).last() == list[n - 1]);
    }
}

/// What the list counts: every exit the service sent, and of those that match what was
/// typed all of them, the residential ones and those of datacentres.
pub proof fn lemma_what_the_list_counts(s: Shown)
    requires
        s.exits.len() <= i32::MAX,
    ensures
        rendered(s).total_exits == s.exits.len(),
        rendered(s).count_all == s.exits.filter(
            |exit: Exit| exits::found(exit, needle_of(s.filter)),
        ).len(),
        rendered(s).count_residential == s.exits.filter(
            |exit: Exit|
                exits::found(exit, needle_of(s.filter)) && exit.residential == Some(true),
        ).len(),
        rendered(s).count_datacentre == s.exits.filter(
            |exit: Exit|
                exits::found(exit, needle_of(s.filter)) && exit.residential == Some(false),
        ).len(),
{
    let n = s.exits.len() as int;
    let needle = needle_of(s.filter);
    assert(s.exits.take(n) =~= s.exits);
    lemma_matching_filter(s.exits, needle, ANY_KIND, n);
    lemma_matching_filter(s.exits, needle, api::KIND_RESIDENTIAL, n);
    lemma_matching_filter(s.exits, needle, api::KIND_DATACENTRE, n);
    lemma_same_filter(
        s.exits,
        |exit: Exit| exits::found(exit, needle) && exits::wanted_kind(exit, ANY_KIND),
        |exit: Exit| exits::found(exit, needle),
    );
    lemma_same_filter(
        s.exits,
        |exit: Exit| exits::found(exit, needle) && exits::wanted_kind(exit, api::KIND_RESIDENTIAL),
        |exit: Exit| exits::found(exit, needle) && exit.residential == Some(true),
    );
    lemma_same_filter(
        s.exits,
        |exit: Exit| exits::found(exit, needle) && exits::wanted_kind(exit, api::KIND_DATACENTRE),
        |exit: Exit| exits::found(exit, needle) && exit.residential == Some(false),
    );
    s.exits.lemma_filter_len(|exit: Exit| exits::found(exit, needle));
    s.exits.lemma_filter_len(
        |exit: Exit| exits::found(exit, needle) && exit.residential == Some(true),
    );
    s.exits.lemma_filter_len(
        |exit: Exit| exits::found(exit, needle) && exit.residential == Some(false),
    );
}

proof fn lemma_same_filter(list: Seq<Exit>, p: spec_fn(Exit) -> bool, q: spec_fn(Exit) -> bool)
    requires
        forall|exit: Exit| #[trigger] p(exit) == q(exit),
    ensures
        list.filter(p).len() == list.filter(q).len(),
    decreases list.len(),
{
    reveal(Seq::filter);
    if list.len() > 0 {
        lemma_same_filter(list.drop_last(), p, q);
        assert(p(list.last()) == q(list.last()));
    }
}

/// The exit in service is named by its city and its country, in that order, and said to
/// be waited for until the service has set it up. Not finding it changes nothing; with
/// none in service nothing is named.
pub proof fn lemma_the_exit_in_service_is_named(s: Shown, k: int)
    requires
        0 <= k <= s.exits.len(),
        forall|i: int| 0 <= i < k ==> (#[trigger] s.exits[i]).id != s.chosen_exit,
        k < s.exits.len() ==> s.exits[k].id == s.chosen_exit,
    ensures
        s.chosen_exit >= 0 && k < s.exits.len() ==> {
            let exit = s.exits[k];
            let code = exits::key_of(exit);
            &&& rendered(s).exit_label == exit.city@ + " · "@ + exits::label_of(code, exit.country@)
            &&& rendered(s).chosen_country == code
            &&& exit.state@ == exits::PROVISIONED@ ==> rendered(s).exit_state.len() == 0
            &&& exit.state@ != exits::PROVISIONED@ ==> rendered(s).exit_state == WAITING@
        },
        s.chosen_exit >= 0 && k == s.exits.len() ==> rendered(s).exit_label == s.exit_label
            && rendered(s).exit_state == s.exit_state && rendered(s).chosen_country
            == s.chosen_country,
        s.chosen_exit < 0 ==> rendered(s).exit_label.len() == 0 && rendered(s).exit_state.len() == 0
            && rendered(s).chosen_country.len() == 0,
{
    markers::lemma_the_exit_of_a_number(s.exits, s.chosen_exit as i64, k);
}

/// A list that was sent is the list that is shown, and it moves nobody.
pub proof fn lemma_the_list_that_was_sent(s: Shown, list: Vec<Exit>)
    ensures
        reported(s, Outcome::Exits(list)).exits == list@,
        reported(s, Outcome::Exits(list)).chosen_exit == s.chosen_exit,
        reported(s, Outcome::Exits(list)).filter == s.filter,
        reported(s, Outcome::Exits(list)).kind_filter == s.kind_filter,
        reported(s, Outcome::Exits(list)).folds == s.folds,
        reported(s, Outcome::Exits(list)).map_due,
{
}

/// Someone who has signed in is shown the chooser with no way back from it, their own
/// session and account, and the entry node; whatever was said before is taken back.
pub proof fn lemma_signing_in_shows_the_chooser(
    s: Shown,
    session: Session,
    account: Account,
    relay: Relay,
)
    ensures
        ({
            let after = reported(s, Outcome::SignedIn(session, account, relay));
            &&& after.screen == Screen::Choosing
            &&& !after.can_close_chooser
            &&& after.notice.len() == 0
            &&& after.device_name == session.device_name@
            &&& after.tunnel_address == session.tunnel_ip@
            &&& after.account_expiry == account_text(account)
            &&& after.relay_label == relay_text(relay)
            &&& after.relay == exits::spot_of(relay.coords, relay.country@, relay.city@)
            &&& !after.busy
        }),
{
}

/// An exit that was picked is the one in service, and the connected screen shows it.
pub proof fn lemma_picking_connects(s: Shown, id: i64)
    requires
        0 <= id <= i32::MAX,
    ensures
        reported(s, Outcome::ExitPicked(id)).chosen_exit == id,
        reported(s, Outcome::ExitPicked(id)).screen == Screen::Connected,
        reported(s, Outcome::ExitPicked(id)).notice.len() == 0,
        !reported(s, Outcome::ExitPicked(id)).busy,
        reported(s, Outcome::ExitPicked(id)).exits == s.exits,
{
}

/// The row of a number is the first node's that has it: a country's row never counts.
pub proof fn lemma_the_row_of_a_number(rows: Seq<exits::Row>, id: i64, k: int)
    requires
        0 <= k <= rows.len(),
        forall|i: int| 0 <= i < k ==> (#[trigger] rows[i]).header || rows[i].id != id,
        k < rows.len() ==> !rows[k].header && rows[k].id == id,
    ensures
        k < rows.len() ==> row_numbered(rows, id) == Some(rows[k]),
        k == rows.len() ==> row_numbered(rows, id) is None,
    decreases k,
{
    if k > 0 {
        let rest = rows.drop_first();
        assert(rows[0].header || rows[0].id != id);
        assert forall|i: int| 0 <= i < k - 1 implies (#[trigger] rest[i]).header || rest[i].id
            != id by {
            assert(rest[i] == rows[i + 1]);
        }
        lemma_the_row_of_a_number(rest, id, k - 1);
    }
}

/// Signing out leaves nothing of the one who was signed in: no number, no list, no exit
/// in service, no entry node, nothing on the map and nothing said.
pub proof fn lemma_signing_out_leaves_nothing(s: Shown)
    ensures
        ({
            let after = reported(s, Outcome::SignedOut);
            &&& after.screen == Screen::SignIn
            &&& after.account_number.len() == 0
            &&& after.filter.len() == 0
            &&& after.exits.len() == 0
            &&& after.rows.len() == 0
            &&& after.total_exits == 0
            &&& after.chosen_exit == NO_EXIT
            &&& after.exit_label.len() == 0
            &&& after.exit_state.len() == 0
            &&& !after.can_close_chooser
            &&& after.nodes.len() == 0
            &&& after.unplaced == 0
            &&& after.relay is None
            &&& after.notice.len() == 0
            &&& !after.busy
        }),
{
}

/// A failure is said as one, and moves nobody.
pub proof fn lemma_a_failure_is_said(s: Shown, reason: String)
    ensures
        reported(s, Outcome::Failed(reason)).notice == reason@,
        reported(s, Outcome::Failed(reason)).notice_danger,
        reported(s, Outcome::Failed(reason)).screen == s.screen,
        reported(s, Outcome::Failed(reason)).exits == s.exits,
        reported(s, Outcome::Failed(reason)).chosen_exit == s.chosen_exit,
{
}

/// The digits of what was typed are all of them, in order, and nothing else: whatever
/// stands between makes no difference.
pub proof fn lemma_only_digits_count(a: Seq<char>, c: char, b: Seq<char>)
    ensures
        digits_of(a) == a.filter(|d: char| '0' <= d <= '9'),
        !('0' <= c <= '9') ==> digits_of(a + seq![c] + b) == digits_of(a + b),
        '0' <= c <= '9' ==> digits_of(a.push(c)) == digits_of(a).push(c),
{
    lemma_digits_filter(a);
    lemma_digits_filter(a + b);
    lemma_digits_filter(a + seq![c] + b);
    let p = |d: char| '0' <= d <= '9';
    Seq::filter_distributes_over_add(a, b, p);
    Seq::filter_distributes_over_add(a, seq![c], p);
    Seq::filter_distributes_over_add(a + seq![c], b, p);
    if !('0' <= c <= '9') {
        reveal(Seq::filter);
        assert(seq![c].drop_last() =~= Seq::empty());
        assert(Seq::<char>::empty().filter(p) =~= Seq::empty());
        assert(seq![c].last() == c);
        assert(seq![c].filter(p) =~= Seq::empty());
        assert(a.filter(p) + seq![c].filter(p) =~= a.filter(p));
    }
    assert(a.push(c).drop_last() =~= a);
}

proof fn lemma_digits_filter(s: Seq<char>)
    ensures
        digits_of(s) == s.filter(|d: char| '0' <= d <= '9'),
    decreases s.len(),
{
    reveal(Seq::filter);
    if s.len() > 0 {
        lemma_digits_filter(s.drop_last());
    }
}

/// Typing narrows the list when anything but white space was typed, and so does picking
/// a kind.
pub proof fn lemma_what_narrows(s: Shown)
    ensures
        s.kind_filter >= 0 ==> is_narrowed(s),
        s.kind_filter < 0 && text::trimmed(geo::folded(s.filter)).len() == 0 ==> !is_narrowed(s),
        text::trimmed(geo::folded(s.filter)).len() > 0 ==> is_narrowed(s),
{
}

/// Case and accents do not count in what is typed: two texts that fold to the same find
/// the same.
pub proof fn lemma_case_and_accents_do_not_count(s: Shown, typed: Seq<char>, other: Seq<char>)
    requires
        geo::folded(typed) == geo::folded(other),
    ensures
        needle_of(typed) == needle_of(other),
        rendered(Shown { filter: typed, ..s }).rows == rendered(Shown { filter: other, ..s }).rows,
        rendered(Shown { filter: typed, ..s }).shown_exits == rendered(
            Shown { filter: other, ..s },
        ).shown_exits,
{
    assert(places_of(Shown { filter: typed, ..s }) == places_of(Shown { filter: other, ..s }));
}

/// What was typed, folded, is what is looked for: an exit whose city, country or moniker
/// has it anywhere is one of those shown when no kind is picked.
pub proof fn lemma_what_was_typed_is_shown(
    s: Shown,
    place: usize,
    a: Seq<char>,
    b: Seq<char>,
)
    requires
        s.exits.len() <= usize::MAX,
        place < s.exits.len(),
        s.kind_filter < 0,
        ({
            let n = text::trimmed(geo::folded(s.filter));
            ||| geo::folded(s.exits[place as int].city@) == a + n + b
            ||| geo::folded(s.exits[place as int].country@) == a + n + b
            ||| geo::folded(s.exits[place as int].moniker@) == a + n + b
        }),
    ensures
        places_of(s).contains(place),
{
    let n = text::trimmed(geo::folded(s.filter));
    exits::lemma_any_piece_finds_the_exit(s.exits[place as int], a, n, b);
    exits::lemma_matching(s.exits, needle_of(s.filter), s.kind_filter, s.exits.len() as int);
    assert(exits::found(s.exits[place as int], needle_of(s.filter)));
}

/// The chooser is shown with or without a way back from it, as it was asked for, and
/// nothing else changes.
pub proof fn lemma_walking_to_the_chooser(s: Shown, closable: bool)
    ensures
        on_chooser(s, closable).screen == Screen::Choosing,
        on_chooser(s, closable).can_close_chooser == closable,
        on_chooser(s, closable).rows == s.rows,
        on_chooser(s, closable).notice == s.notice,
        on_chooser(s, closable).chosen_exit == s.chosen_exit,
        on_chooser(s, closable).tunnel_state == s.tunnel_state,
{
}

/// An exit that was picked before the list carried it is named after the row that was
/// clicked: its city, the name of its country and whether it is still waited for.
pub proof fn lemma_named_after_the_row(s: Shown, id: i64, k: int)
    requires
        s.exit_label.len() == 0,
        0 <= k < s.rows.len(),
        forall|i: int| 0 <= i < k ==> (#[trigger] s.rows[i]).header || s.rows[i].id != id,
        !s.rows[k].header,
        s.rows[k].id == id,
    ensures
        connected(s, id).exit_label == s.rows[k].label + " · "@ + exits::label_of(
            s.rows[k].code,
            text::uppercase(s.rows[k].code),
        ),
        connected(s, id).chosen_country == s.rows[k].code,
        s.rows[k].ready ==> connected(s, id).exit_state.len() == 0,
        !s.rows[k].ready ==> connected(s, id).exit_state == WAITING@,
        connected(s, id).screen == Screen::Connected,
        connected(s, id).notice.len() == 0,
{
    lemma_the_row_of_a_number(s.rows, id, k);
}

/// An entry node is named by its city and its country, by the code that it was sent as
/// where that is one, and is placed by what was sent of it.
pub proof fn lemma_what_an_entry_node_shows(s: Shown, relay: Relay)
    ensures
        geo::resolved(relay.country@, relay.country@) matches Some(code) ==> with_relay(
            s,
            relay,
        ).relay_label == relay.city@ + " · "@ + exits::label_of(
            code,
            text::uppercase(relay.country@),
        ),
        geo::resolved(relay.country@, relay.country@) is None ==> with_relay(s, relay).relay_label
            == relay.city@ + " · "@ + exits::label_of(
            Seq::empty(),
            text::uppercase(relay.country@),
        ),
        with_relay(s, relay).relay == exits::spot_of(relay.coords, relay.country@, relay.city@),
        with_relay(s, relay).screen == s.screen,
        with_relay(s, relay).exits == s.exits,
{
}

/// A window that has just opened asks who is there, and shows nothing else: no list, no
/// exit, no tunnel, and no kind picked.
pub proof fn lemma_a_window_that_has_just_opened(folds: Folds)
    ensures
        ({
            let s = just_opened(folds);
            &&& s.screen == Screen::SignIn
            &&& !s.busy
            &&& s.pending_exit == NO_EXIT
            &&& s.chosen_exit == NO_EXIT
            &&& s.kind_filter < 0
            &&& s.account_number.len() == 0
            &&& s.filter.len() == 0
            &&& s.notice.len() == 0
            &&& s.exits.len() == 0
            &&& s.rows.len() == 0
            &&& s.nodes.len() == 0
            &&& s.relay is None
            &&& s.tunnel_state == with_tunnel(s, None, crate::tunnel::no_stats()).tunnel_state
            &&& s.tooltip == with_tunnel(s, None, crate::tunnel::no_stats()).tooltip
            &&& !s.can_close_chooser
            &&& !s.profile_menu_open
            &&& !s.tunnel_menu_open
        }),
{
}

/// Every field of the window is shown as it is held.
pub proof fn lemma_the_window_as_it_is_held(ui: Ui)
    ensures
        ui@.screen == ui.screen,
        ui@.busy == ui.busy,
        ui@.pending_exit == ui.pending_exit,
        ui@.can_close_chooser == ui.can_close_chooser,
        ui@.account_number == ui.account_number@,
        ui@.filter == ui.filter@,
        ui@.kind_filter == ui.kind_filter,
        ui@.notice == ui.notice@,
        ui@.notice_danger == ui.notice_danger,
        ui@.device_name == ui.device_name@,
        ui@.tunnel_address == ui.tunnel_address@,
        ui@.account_expiry == ui.account_expiry@,
        ui@.chosen_exit == ui.chosen_exit,
        ui@.exits == ui.exits@,
        ui@.total_exits == ui.total_exits,
        ui@.count_all == ui.count_all,
        ui@.count_residential == ui.count_residential,
        ui@.count_datacentre == ui.count_datacentre,
        ui@.shown_exits == ui.shown_exits,
        ui@.country_count == ui.country_count,
        ui@.exit_label == ui.exit_label@,
        ui@.exit_state == ui.exit_state@,
        ui@.chosen_country == ui.chosen_country@,
        ui@.relay_label == ui.relay_label@,
        ui@.relay == ui.relay,
        ui@.unplaced == ui.unplaced,
        ui@.map_due == ui.map_due,
        ui@.tunnel_state == ui.tunnel_state@,
        ui@.tunnel_status_text == ui.tunnel_status_text@,
        ui@.tunnel_kind == ui.tunnel_kind@,
        ui@.traffic_in == ui.traffic_in@,
        ui@.traffic_out == ui.traffic_out@,
        ui@.handshake == ui.handshake@,
        ui@.tooltip == ui.tooltip@,
{
}

/// The list says how many countries it holds and how many exits are under them.
pub proof fn lemma_the_list_says_how_much_it_holds(s: Shown)
    requires
        s.exits.len() <= i32::MAX,
    ensures
        rendered(s).country_count == exits::countries_in(rendered(s).rows),
        rendered(s).shown_exits == exits::headed(rendered(s).rows),
{
    let places = places_of(s);
    lemma_matching_length(s.exits, needle_of(s.filter), s.kind_filter, s.exits.len() as int);
    exits::lemma_countries(s.exits, places);
    exits::lemma_the_countries_are_counted(
        s.exits,
        places,
        s.chosen_exit as i64,
        is_narrowed(s),
        s.folds,
    );
    exits::lemma_the_list_accounts_for_everyone(
        s.exits,
        places,
        s.chosen_exit as i64,
        is_narrowed(s),
        s.folds,
    );
}

proof fn lemma_matching_length(list: Seq<Exit>, needle: Seq<char>, wanted: i32, n: int)
    requires
        0 <= n,
    ensures
        exits::matching_in(list, needle, wanted, n).len() <= n,
    decreases n,
{
    if n > 0 {
        lemma_matching_length(list, needle, wanted, n - 1);
    }
}

/// Every marker on the map stands where one of the exits that are shown is: the first of
/// those it stands for, which has a spot.
pub proof fn lemma_markers_stand_where_exits_are(
    s: Shown,
    near: Seq<Vec<bool>>,
    nodes: Seq<markers::Marker>,
    g: int,
)
    requires
        is_map(s, near, nodes),
        near.len() == markers::placed_of(s.exits, places_of(s)).len(),
        near.len() <= usize::MAX,
        0 <= g < nodes.len(),
    ensures
        places_of(s).contains(nodes[g].at),
        exits::exit_spot(s.exits[nodes[g].at as int]) is Some,
{
    let t = markers::table(near);
    let n = near.len() as int;
    let places = places_of(s);
    let on = markers::placed_of(s.exits, places);
    markers::lemma_a_marker_starts_with_its_lead(t, n, g);
    markers::lemma_who_is_on_the_map(s.exits, places);
    let has_spot = |place: usize| exits::exit_spot(s.exits[place as int]) is Some;
    let members = markers::at_places(on, markers::shown_by(t, g as nat, n));
    assert(nodes[g] == markers::marker_of(s.exits, members));
    let k = markers::leads(t, n)[g] as int;
    assert(nodes[g].at == on[k]);
    lemma_from_filter(places, has_spot, k);
}

proof fn lemma_from_filter(places: Seq<usize>, p: spec_fn(usize) -> bool, k: int)
    requires
        0 <= k < places.filter(p).len(),
    ensures
        places.contains(places.filter(p)[k]),
        p(places.filter(p)[k]),
    decreases places.len(),
{
    reveal(Seq::filter);
    let fewer = places.drop_last();
    if k < fewer.filter(p).len() {
        lemma_from_filter(fewer, p, k);
        let i = choose|i: int| 0 <= i < fewer.len() && fewer[i] == fewer.filter(p)[k];
        assert(places[i] == fewer.filter(p)[k]);
    } else {
        assert(places[places.len() - 1] == places.last());
    }
}

} // verus!
