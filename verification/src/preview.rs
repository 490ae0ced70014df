//! The window with sample data, so the interface can be looked at without an
//! account and without touching the stored session.
use crate::api;
use crate::api::{Coords, Exit, Relay};
use crate::client;
use crate::client::{Screen, Ui, ANY_KIND};
use crate::text;
use crate::tunnel::{Mode, Stats};
use vstd::prelude::*;
use vstd::string::*;

verus! {

/// The exits of the preview: number, country, code, city, moniker and state.
/// Shaped like what the service sends: the full English name beside an ISO-2
/// code, `discovered` everywhere but the one exit the service has set up, and a
/// record with no code at all, which still has to find its flag and its place on
/// the map.
pub const SAMPLES: [(
    i64,
    &'static str,
    &'static str,
    &'static str,
    &'static str,
    &'static str,
); 14] = [
    (1, "Switzerland", "CH", "Zurich", "silent-ibex", "discovered"),
    (2, "Sweden", "SE", "Stockholm", "pale-auroch", "discovered"),
    (3, "Iceland", "IS", "Reykjavik", "cold-fulmar", "provisioned"),
    (4, "The Netherlands", "NL", "Amsterdam", "flat-heron", "discovered"),
    (5, "Canada", "CA", "Montreal", "quiet-marten", "discovered"),
    (6, "Japan", "JP", "Tokyo", "narrow-tanuki", "discovered"),
    (7, "United States", "US", "New York", "brisk-osprey", "discovered"),
    (8, "United States", "", "Los Angeles", "warm-coyote", "discovered"),
    (9, "Singapore", "SG", "Singapore", "damp-civet", "discovered"),
    (10, "Australia", "AU", "Sydney", "dry-quoll", "discovered"),
    (11, "Brazil", "BR", "Sao Paulo", "loud-agouti", "discovered"),
    (12, "South Africa", "ZA", "Johannesburg", "lean-caracal", "discovered"),
    (13, "Germany", "DE", "Frankfurt", "grey-marder", "discovered"),
    (14, "Czechia", "CZ", "Prague", "stark-jezek", "discovered"),
];

/// The exit of the preview whose kind the service has no answer for.
pub const UNSORTED: i64 = 4;

/// Whether an exit is the one of a sample. A spread of the three kinds, so the
/// preview exercises every blip and every tab: a few residential, one the service
/// has no answer for, the rest in datacentres.
pub open spec fn is_sample(exit: Exit, i: int) -> bool {
    let sample = SAMPLES@[i];
    &&& exit.id == sample.0
    &&& exit.country@ == sample.1@
    &&& exit.country_code@ == sample.2@
    &&& exit.city@ == sample.3@
    &&& exit.moniker@ == sample.4@
    &&& exit.state@ == sample.5@
    &&& exit.peers == 4
    &&& exit.residential == (if sample.0 % 5 == 1 {
        Some(true)
    } else if sample.0 == UNSORTED {
        None
    } else {
        Some(false)
    })
    &&& exit.asn matches Some(asn) && asn@ == "AS"@ + text::decimal_signed(12000 + sample.0 * 7)
    &&& exit.coords == api::nowhere()
}

/// Whether these are the exits of the preview.
pub open spec fn are_samples(list: Seq<Exit>) -> bool {
    list.len() == SAMPLES@.len() && forall|i: int|
        0 <= i < list.len() ==> is_sample(#[trigger] list[i], i)
}

/// The exits of the preview.
pub fn preview_exits() -> (r: Vec<Exit>)
    ensures
        are_samples(r@),
{
    let mut r: Vec<Exit> = Vec::new();
    let mut i: usize = 0;
    while i < SAMPLES.len()
        invariant
            i <= SAMPLES@.len(),
            r@.len() == i,
            forall|j: int| 0 <= j < i ==> is_sample(#[trigger] r@[j], j),
        decreases SAMPLES@.len() - i,
    {
        let (id, country, code, city, moniker, state) = SAMPLES[i];
        assert(1 <= id <= 14);
        let mut asn = "AS".to_owned();
        asn.append(text::number_signed(12000 + id * 7).as_str());
        let residential = if id % 5 == 1 {
            Some(true)
        } else if id == UNSORTED {
            None
        } else {
            Some(false)
        };
        r.push(
            Exit {
                id,
                country: country.to_owned(),
                country_code: code.to_owned(),
                city: city.to_owned(),
                moniker: moniker.to_owned(),
                state: state.to_owned(),
                peers: 4,
                residential,
                asn: Some(asn),
                coords: Coords::default(),
            },
        );
        i += 1;
    }
    r
}

/// Whether this is the entry node of the preview.
pub open spec fn is_sample_relay(relay: Relay) -> bool {
    &&& relay.country@ == "fr"@
    &&& relay.city@ == "Paris"@
    &&& relay.endpoint@ == "203.0.113.1"@
    &&& relay.port == 51820
    &&& relay.public_key@.len() == 0
    &&& relay.coords == api::nowhere()
}

/// The entry node of the preview.
pub fn preview_relay() -> (r: Relay)
    ensures
        is_sample_relay(r),
{
    Relay {
        country: "fr".to_owned(),
        city: "Paris".to_owned(),
        endpoint: "203.0.113.1".to_owned(),
        port: 51820,
        public_key: String::new(),
        coords: Coords::default(),
    }
}

/// The screen and the kind tab a preview asks for: `choosing:home`,
/// `list:datacentre`.
pub open spec fn asked(which: Seq<char>) -> (Seq<char>, i32) {
    match text::cut(which, ':') {
        Some((screen, tab)) => (
            screen,
            if tab == "home"@ {
                api::KIND_RESIDENTIAL
            } else if tab == "datacentre"@ {
                api::KIND_DATACENTRE
            } else {
                ANY_KIND
            },
        ),
        None => (which, ANY_KIND),
    }
}

/// The exit in service in the preview.
pub const SAMPLE_EXIT: i32 = 3;

/// What the account says in the preview.
pub const SAMPLE_EXPIRY: &'static str = "active until 2027-01-14 · 2/5 devices";

/// The counters of the preview.
pub open spec fn sample_stats() -> Stats {
    Stats { received: 4_713_984, sent: 918_272, handshake_age: Some(37) }
}

/// The window on the exits of the preview.
pub open spec fn with_samples(
    s: client::Shown,
    list: Seq<Exit>,
    relay: Relay,
) -> client::Shown {
    client::rendered(
        client::with_relay(client::Shown { exits: list, chosen_exit: SAMPLE_EXIT, ..s }, relay),
    )
}

/// The account of the preview.
pub open spec fn with_sample_account(s: client::Shown) -> client::Shown {
    client::Shown {
        account_expiry: SAMPLE_EXPIRY@,
        device_name: "Keen Viper"@,
        tunnel_address: "10.64.0.12/32"@,
        ..s
    }
}

/// The connected screen of the preview, with one of its menus open.
pub open spec fn on_connected(s: client::Shown, which: Seq<char>) -> client::Shown {
    let s = client::Shown { screen: Screen::Connected, ..s };
    if which == "profile"@ {
        client::Shown { profile_menu_open: true, ..s }
    } else if which == "menu"@ {
        client::Shown {
            tunnel_menu_open: true,
            ..client::with_tunnel(s, Some(Mode::Embedded), sample_stats())
        }
    } else {
        s
    }
}

/// Whether a window is one on the exits of the preview.
pub open spec fn is_sampled(
    s: client::Shown,
    list: Seq<Exit>,
    relay: Relay,
    r: client::Shown,
) -> bool {
    are_samples(list) && is_sample_relay(relay) && r == with_samples(s, list, relay)
}

/// Whether this is the chooser on the exits of the preview.
pub open spec fn is_choosing(s: client::Shown, r: client::Shown) -> bool {
    exists|list: Seq<Exit>, relay: Relay, shown: client::Shown| #[trigger]
        is_sampled(s, list, relay, shown) && r == client::on_chooser(shown, true)
}

/// Whether this is the connected screen on the exits of the preview.
pub open spec fn is_connected(s: client::Shown, screen: Seq<char>, r: client::Shown) -> bool {
    exists|list: Seq<Exit>, relay: Relay, shown: client::Shown| #[trigger]
        is_sampled(with_sample_account(s), list, relay, shown) && r == on_connected(shown, screen)
}

/// Whether a preview is this. One that is not known leaves the window as it is,
/// on the tab that was asked for.
pub open spec fn is_preview(before: client::Shown, which: Seq<char>, r: client::Shown) -> bool {
    let (screen, kind) = asked(which);
    let s = client::Shown { kind_filter: kind, ..before };
    if screen == "signin"@ {
        r == (client::Shown { account_number: Seq::empty(), screen: Screen::SignIn, ..s })
    } else if screen == "list"@ {
        r == client::on_chooser(s, true)
    } else if screen == "choosing"@ {
        is_choosing(s, r)
    } else if screen == "connected"@ || screen == "menu"@ || screen == "profile"@ {
        is_connected(s, screen, r)
    } else {
        r == s
    }
}

fn show_samples(ui: &mut Ui) -> (r: Relay)
    requires
        old(ui).wf(),
    ensures
        final(ui).wf(),
        is_sample_relay(r),
        are_samples(final(ui)@.exits),
        final(ui)@ == with_samples(old(ui)@, final(ui)@.exits, r),
{
    let relay = preview_relay();
    ui.exits = preview_exits();
    ui.chosen_exit = SAMPLE_EXIT;
    let ghost list = ui.exits@;
    assert(ui@ =~= (client::Shown { exits: list, chosen_exit: SAMPLE_EXIT, ..old(ui)@ }));
    ui.apply_relay(&relay);
    ui.render_exits();
    relay
}

fn show_connected(ui: &mut Ui, which: &str)
    requires
        old(ui).wf(),
    ensures
        final(ui).wf(),
        final(ui)@ == on_connected(old(ui)@, which@),
{
    ui.screen = Screen::Connected;
    assert(ui@ =~= (client::Shown { screen: Screen::Connected, ..old(ui)@ }));
    proof {
        reveal_strlit("profile");
        reveal_strlit("menu");
        assert("profile"@.len() != "menu"@.len());
    }
    if text::same(which, "profile") {
        ui.profile_menu_open = true;
    } else if text::same(which, "menu") {
        ui.apply_tunnel(
            Some(Mode::Embedded),
            Stats { received: 4_713_984, sent: 918_272, handshake_age: Some(37) },
        );
        ui.tunnel_menu_open = true;
    }
    assert(ui@ =~= on_connected(old(ui)@, which@));
}

fn show_choosing(ui: &mut Ui)
    requires
        old(ui).wf(),
    ensures
        final(ui).wf(),
        is_choosing(old(ui)@, final(ui)@),
{
    let ghost s = ui@;
    let relay = show_samples(ui);
    let ghost shown = ui@;
    ui.show_chooser(true);
    assert(is_sampled(s, shown.exits, relay, shown));
    assert(ui@ == client::on_chooser(shown, true));
}

fn show_account(ui: &mut Ui, screen: &str)
    requires
        old(ui).wf(),
    ensures
        final(ui).wf(),
        is_connected(old(ui)@, screen@, final(ui)@),
{
    let ghost s = with_sample_account(ui@);
    ui.account_expiry = SAMPLE_EXPIRY.to_owned();
    ui.device_name = "Keen Viper".to_owned();
    ui.tunnel_address = "10.64.0.12/32".to_owned();
    assert(ui@ =~= s);
    let relay = show_samples(ui);
    let ghost shown = ui@;
    show_connected(ui, screen);
    assert(is_sampled(s, shown.exits, relay, shown));
    assert(ui@ == on_connected(shown, screen@));
}

/// Drives the window straight to one screen with sample data:
/// `signin|list|choosing|connected|menu|profile`, optionally suffixed with a kind
/// tab.
pub fn apply_ui_preview(ui: &mut Ui, which: &str)
    requires
        old(ui).wf(),
    ensures
        final(ui).wf(),
        is_preview(old(ui)@, which@, final(ui)@),
{
    let (screen, kind): (String, i32) = match text::split_once(which, ':') {
        Some((screen, tab)) => {
            proof {
                reveal_strlit("home");
                reveal_strlit("datacentre");
            }
            let kind: i32 = if text::same(tab.as_str(), "home") {
                api::KIND_RESIDENTIAL
            } else if text::same(tab.as_str(), "datacentre") {
                api::KIND_DATACENTRE
            } else {
                ANY_KIND
            };
            (screen, kind)
        },
        None => (which.to_owned(), ANY_KIND),
    };
    ui.kind_filter = kind;
    let ghost s = client::Shown { kind_filter: kind, ..old(ui)@ };
    assert(ui@ =~= s);
    let screen = screen.as_str();
    if text::same(screen, "signin") {
        ui.account_number = String::new();
        ui.screen = Screen::SignIn;
        assert(ui@ =~= (client::Shown {
            account_number: Seq::empty(),
            screen: Screen::SignIn,
            ..s
        }));
    } else if text::same(screen, "list") {
        ui.show_chooser(true);
    } else if text::same(screen, "choosing") {
        show_choosing(ui);
    } else if text::same(screen, "connected") || text::same(screen, "menu") || text::same(
        screen,
        "profile",
    ) {
        show_account(ui, screen);
    }
}

/// What is asked for is a screen, and after a colon one of the two tabs by its name; any
/// other is all of them, and so is none.
pub proof fn lemma_which_tab_is_asked_for(screen: Seq<char>, tab: Seq<char>)
    requires
        !screen.contains(':'),
    ensures
        asked(screen) == (screen, ANY_KIND),
        asked(screen + seq![':'] + "home"@) == (screen, api::KIND_RESIDENTIAL),
        asked(screen + seq![':'] + "datacentre"@) == (screen, api::KIND_DATACENTRE),
        tab != "home"@ && tab != "datacentre"@ ==> asked(screen + seq![':'] + tab) == (
            screen,
            ANY_KIND,
        ),
{
    reveal_strlit("home");
    reveal_strlit("datacentre");
    assert("home"@.len() != "datacentre"@.len());
    text::lemma_cutting(screen, ':', "home"@);
    text::lemma_cutting(screen, ':', "datacentre"@);
    text::lemma_cutting(screen, ':', tab);
}

/// A preview leads to the screen it names, on the tab it asks for: signing in with
/// nothing typed, the chooser with a way back from it, and the connected screen, with
/// its menu or its profile open when that is asked for.
pub proof fn lemma_which_screen_is_shown(
    before: client::Shown,
    screen: Seq<char>,
    r: client::Shown,
)
    requires
        !screen.contains(':'),
        is_preview(before, screen, r),
    ensures
        r.kind_filter == ANY_KIND,
        screen == "signin"@ ==> r.screen == Screen::SignIn && r.account_number.len() == 0,
        screen == "list"@ ==> r.screen == Screen::Choosing && r.can_close_chooser && r.exits
            == before.exits,
        screen == "choosing"@ ==> r.screen == Screen::Choosing && r.can_close_chooser
            && are_samples(r.exits),
        screen == "connected"@ || screen == "menu"@ || screen == "profile"@ ==> r.screen
            == Screen::Connected && are_samples(r.exits) && r.account_expiry == SAMPLE_EXPIRY@,
        screen == "profile"@ ==> r.profile_menu_open,
        screen == "menu"@ ==> r.tunnel_menu_open && r.traffic_in == crate::units::human_of(
            4_713_984,
        ) && r.traffic_out == crate::units::human_of(918_272),
{
    reveal_strlit("signin");
    reveal_strlit("list");
    reveal_strlit("choosing");
    reveal_strlit("connected");
    reveal_strlit("menu");
    reveal_strlit("profile");
    text::lemma_cutting(screen, ':', screen);
    assert("signin"@.len() == 6 && "list"@.len() == 4 && "choosing"@.len() == 8 && "connected"@.len()
        == 9 && "menu"@.len() == 4 && "profile"@.len() == 7);
    assert("list"@[0] != "menu"@[0]);
}

} // verus!
