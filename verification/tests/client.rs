//! The window's state, the exit list and the markers.
use valira_desktop::api::{Account, Coords, Exit, Relay, KIND_DATACENTRE, KIND_RESIDENTIAL};
use valira_desktop::client::{waiting_notice, Outcome, Screen, Task, Ui, ANY_KIND, WAITING};
use valira_desktop::exits::{
    country_key, country_label, is_ready, matches_filter, relay_spot, same_entries, spot_for,
    to_entry, Folds, Spot, NO_EXIT,
};
use valira_desktop::geo::Place;
use valira_desktop::markers::{collapse, marker, placed, same_nodes, trail_end};
use valira_desktop::preview::{apply_ui_preview, preview_exits, preview_relay};
use valira_desktop::store::Session;
use valira_desktop::tunnel::{Mode, Stats};
use valira_desktop::units::human;

fn exit(id: i64, country: &str, code: &str, city: &str, moniker: &str, state: &str) -> Exit {
    Exit {
        id,
        country: country.to_string(),
        country_code: code.to_string(),
        city: city.to_string(),
        moniker: moniker.to_string(),
        state: state.to_string(),
        peers: 1,
        residential: Some(id % 2 == 0),
        asn: None,
        coords: Coords::default(),
    }
}

fn list() -> Vec<Exit> {
    vec![
        exit(1, "Sweden", "SE", "Stockholm", "b-node", "discovered"),
        exit(2, "Germany", "DE", "Berlin", "x-node", "discovered"),
        exit(3, "Sweden", "", "Malmo", "a-node", "discovered"),
        exit(4, "Sweden", "SE", "Zzz", "c-node", "provisioned"),
        exit(5, "Åland Islands", "AX", "Mariehamn", "d-node", "discovered"),
    ]
}

fn with_list() -> Ui {
    let mut ui = Ui::new();
    ui.report(Outcome::Exits(list()));
    ui
}

fn codes(ui: &Ui) -> Vec<(bool, String)> {
    ui.rows.iter().map(|row| (row.header, row.code.clone())).collect()
}

fn session(exit_id: Option<i64>) -> Session {
    Session {
        account_number: "1234567890123456".to_string(),
        token: "t".to_string(),
        private_key: "k".to_string(),
        public_key: "p".to_string(),
        device_id: 1,
        device_name: "Keen Viper".to_string(),
        tunnel_ip: "10.64.0.12/32".to_string(),
        tunnel_ip6: "fda8::2/128".to_string(),
        exit_id,
    }
}

fn account(active: bool) -> Account {
    Account {
        expires_at: "2027-01-14T00:00:00Z".to_string(),
        active,
        devices: 2,
        max_devices: 5,
    }
}

#[test]
fn countries_are_listed_by_the_name_on_screen() {
    let ui = with_list();
    // Åland before Germany before Sweden, and every one of them shut.
    assert_eq!(
        codes(&ui),
        vec![(true, "ax".to_string()), (true, "de".to_string()), (true, "se".to_string())]
    );
    assert!(ui.rows.iter().all(|row| row.collapsed && row.has_flag));
    assert_eq!((ui.total_exits, ui.shown_exits, ui.country_count), (5, 5, 3));
    assert_eq!((ui.count_all, ui.count_residential, ui.count_datacentre), (5, 2, 3));
    let sweden = &ui.rows[2];
    assert_eq!((sweden.count, sweden.ready_count, sweden.ready), (3, 1, true));
    assert_eq!(sweden.kind, 0);
    assert_eq!(ui.rows[1].kind, KIND_RESIDENTIAL);
    assert_eq!(ui.rows[0].label, "Åland Islands");
}

#[test]
fn an_open_country_lists_what_is_running_first() {
    let mut ui = with_list();
    ui.toggle_country("se");
    let labels: Vec<&str> = ui.rows[3..].iter().map(|row| row.label.as_str()).collect();
    assert_eq!(labels, vec!["Zzz", "Malmo", "Stockholm"]);
    assert_eq!(ui.rows[3].id, 4);
    assert!(!ui.rows[2].collapsed && !ui.rows[3].header);
    // The same click again shuts it.
    ui.toggle_country("se");
    assert_eq!(ui.rows.len(), 3);
    assert!(ui.rows[2].collapsed);
}

#[test]
fn the_country_in_service_is_open() {
    let mut ui = with_list();
    ui.report(Outcome::ExitPicked(2));
    assert_eq!(ui.rows.len(), 4);
    assert!(!ui.rows[1].collapsed);
    assert_eq!(ui.screen, Screen::Connected);
    assert_eq!(ui.exit_label, "Berlin · Germany");
    assert_eq!(ui.exit_state, WAITING);
    assert_eq!(ui.chosen_country, "de");
    // And shut when the user shuts it.
    ui.toggle_country("de");
    assert!(ui.rows[1].collapsed);
}

#[test]
fn typing_narrows_the_list_and_opens_it() {
    let mut ui = with_list();
    ui.filter_changed("  ALAND ");
    assert_eq!(codes(&ui), vec![(true, "ax".to_string()), (false, "ax".to_string())]);
    assert_eq!((ui.shown_exits, ui.total_exits, ui.count_all), (1, 5, 1));
    ui.filter_changed("");
    assert_eq!(ui.rows.len(), 3);
    ui.pick_kind(KIND_DATACENTRE);
    assert_eq!(ui.shown_exits, ui.count_datacentre);
    assert_eq!(ui.rows.iter().filter(|row| !row.header).count(), 3);
    ui.pick_kind(ANY_KIND);
    assert_eq!(ui.shown_exits, ui.count_all);
}

#[test]
fn a_node_is_found_by_any_of_its_names() {
    let node = exit(3, "Sweden", "", "Malmö", "a-node", "discovered");
    for needle in ["", "swe", "malmo", "a-node", "se"] {
        assert!(matches_filter(&node, needle), "{needle}");
    }
    assert!(!matches_filter(&node, "norway"));
    assert_eq!(country_key(&node), "se");
    assert_eq!(country_key(&exit(1, " Atlantis ", "", "x", "y", "z")), "atlantis");
    assert_eq!(country_label("se", "Suède"), "Sweden");
    assert_eq!(country_label("atlantis", "Atlantis"), "Atlantis");
    assert!(!is_ready(&node));
    let row = to_entry(&node);
    assert_eq!((row.id, row.label.as_str(), row.kind), (3, "Malmö", KIND_DATACENTRE));
    assert!(same_entries(&vec![to_entry(&node)], &vec![row]));
}

#[test]
fn coordinates_from_the_service_win() {
    let mut node = exit(1, "Sweden", "SE", "Stockholm", "x", "y");
    let Some(Spot::Listed(Place { lat, .. })) = spot_for(&node) else {
        panic!("Stockholm is on the map");
    };
    assert_eq!(lat, 5933);
    node.coords = Coords {
        latitude: Some(1.5f64.to_bits()),
        longitude: Some((-2.0f64).to_bits()),
    };
    assert_eq!(spot_for(&node), Some(Spot::Given(1.5f64.to_bits(), (-2.0f64).to_bits())));
    // Null Island is "unknown", whatever the sign of its zeros.
    node.coords = Coords { latitude: Some((-0.0f64).to_bits()), longitude: Some(0) };
    assert!(matches!(spot_for(&node), Some(Spot::Listed(_))));
    node.coords.longitude = None;
    assert!(matches!(spot_for(&node), Some(Spot::Listed(_))));
    assert!(spot_for(&exit(1, "Atlantis", "", "x", "y", "z")).is_none());
    assert!(relay_spot(&preview_relay()).is_some());
}

#[test]
fn folds_keep_one_choice_a_country() {
    let mut folds = Folds::new();
    assert_eq!(folds.get("se"), None);
    folds.set("se", true);
    folds.set("de", true);
    folds.set("se", false);
    assert_eq!((folds.get("se"), folds.get("de"), folds.get("fr")), (Some(false), Some(true), None));
}

#[test]
fn exits_share_a_marker_with_the_first_lead_they_are_near() {
    // 0 and 1 are near each other, 2 is near 1 but not near 0, 3 is near 2.
    let near = vec![
        vec![true, true, false, false],
        vec![true, true, true, false],
        vec![false, true, true, true],
        vec![false, false, true, true],
    ];
    assert_eq!(collapse(&near), vec![vec![0, 1], vec![2, 3]]);
    assert!(collapse(&Vec::new()).is_empty());
}

#[test]
fn a_marker_goes_by_the_first_that_is_ready() {
    let exits = list();
    let node = marker(&exits, &vec![0, 2, 3]);
    assert_eq!(node.id, 4);
    assert_eq!(node.at, 0);
    assert_eq!(node.label, "SWEDEN · Zzz");
    assert_eq!(node.detail, "3 sorties ici");
    assert!(node.ready);
    assert_eq!((node.kind, node.count), (KIND_RESIDENTIAL, 3));
    let alone = marker(&exits, &vec![1]);
    assert_eq!((alone.id, alone.detail.as_str(), alone.ready), (2, "x-node", false));
    assert!(alone.same(&marker(&exits, &vec![1])) && !alone.same(&node));
}

#[test]
fn markers_that_say_the_same_are_the_same() {
    let list = list();
    let a = vec![marker(&list, &vec![0]), marker(&list, &vec![1, 2])];
    let b = vec![marker(&list, &vec![0]), marker(&list, &vec![1, 2])];
    let c = vec![marker(&list, &vec![0]), marker(&list, &vec![1])];
    assert!(same_nodes(&a, &b));
    assert!(!same_nodes(&a, &c));
    assert!(!same_nodes(&a, &vec![marker(&list, &vec![0])]));
}

#[test]
fn the_map_shows_what_the_list_shows() {
    let mut ui = with_list();
    assert!(ui.map_due);
    ui.filter_changed("sweden");
    assert_eq!(ui.on_map(), vec![0, 2, 3]);
    let near = vec![vec![true, false, true], vec![false, true, false], vec![true, false, true]];
    ui.render_map(&near);
    assert!(!ui.map_due);
    let ids: Vec<i32> = ui.nodes.iter().map(|node| node.id).collect();
    assert_eq!(ids, vec![4, 3]);
    assert_eq!(ui.unplaced, 0);
    let lost = vec![exit(1, "Atlantis", "", "x", "y", "z")];
    assert_eq!(placed(&lost, &vec![0]), (Vec::new(), 1));
}

#[test]
fn nobody_is_lost_in_the_list_or_on_the_map() {
    let mut ui = with_list();
    ui.exits.push(exit(6, "Atlantis", "", "x", "y", "discovered"));
    for typed in ["", "sweden", "x", "nothing like it"] {
        ui.filter_changed(typed);
        let headed: i32 = ui.rows.iter().filter(|row| row.header).map(|row| row.count).sum();
        assert_eq!(headed, ui.shown_exits, "{typed}");
        let on = ui.on_map().len();
        // Every other exit is near the first, the rest stand alone.
        let near = (0..on)
            .map(|i| (0..on).map(|j| i == j || (i == 0 && j % 2 == 0)).collect())
            .collect();
        ui.render_map(&near);
        let marked: i32 = ui.nodes.iter().map(|node| node.count).sum();
        assert_eq!(marked + ui.unplaced, ui.shown_exits, "{typed}");
    }
}

#[test]
fn the_trail_needs_both_its_ends() {
    let mut ui = with_list();
    ui.report(Outcome::ExitPicked(1));
    assert!(ui.trail().is_none());
    ui.report(Outcome::Relay(preview_relay()));
    assert_eq!(ui.trail(), spot_for(&ui.exits[0]));
    assert_eq!(ui.relay_label, "Paris · France");
    assert!(trail_end(&ui.exits, 99, true).is_none());
}

#[test]
fn an_account_number_is_sixteen_digits() {
    let mut ui = Ui::new();
    ui.account_number = "1234 5678 9012 345".to_string();
    assert!(ui.sign_in().is_none());
    assert_eq!(ui.notice, "An account number is sixteen digits.");
    assert!(ui.notice_danger && !ui.busy);
    ui.account_number = "1234-5678-9012-3456".to_string();
    let Some(Task::SignIn(number)) = ui.sign_in() else {
        panic!("the number is one");
    };
    assert_eq!(number, "1234567890123456");
    assert!(ui.busy && ui.notice.is_empty());
    // One request at a time.
    assert!(ui.sign_in().is_none());
    assert!(ui.pick_exit(3).is_none() && ui.sign_out().is_none() && !ui.disconnect());
}

#[test]
fn only_what_the_user_started_gives_the_buttons_back() {
    let mut ui = with_list();
    assert!(matches!(ui.pick_exit(3), Some(Task::PickExit(3))));
    assert_eq!(ui.pending_exit, 3);
    ui.report(Outcome::Exits(list()));
    ui.report(Outcome::Account(account(true)));
    ui.report(Outcome::Relay(preview_relay()));
    assert!(ui.busy);
    assert_eq!(ui.pending_exit, 3);
    assert!(!Outcome::Exits(Vec::new()).concludes_request());
    assert!(Outcome::SignedOut.concludes_request());
    ui.report(Outcome::Failed("no".to_string()));
    assert!(!ui.busy);
    assert_eq!((ui.pending_exit, ui.notice.as_str()), (NO_EXIT, "no"));
}

#[test]
fn signing_in_opens_the_chooser() {
    let mut ui = Ui::new();
    ui.report(Outcome::SignedIn(session(None), account(true), preview_relay()));
    assert_eq!(ui.screen, Screen::Choosing);
    assert!(!ui.can_close_chooser);
    assert_eq!(ui.device_name, "Keen Viper");
    assert_eq!(ui.tunnel_address, "10.64.0.12/32");
    assert_eq!(ui.account_expiry, "active until 2027-01-14 · 2/5 devices");
    assert_eq!(ui.chosen_exit, NO_EXIT);
    ui.apply_account(&account(false));
    assert_eq!(ui.account_expiry, "expired on 2027-01-14 · 2/5 devices");
    ui.resume(&session(Some(7)));
    assert_eq!(ui.chosen_exit, 7);
    ui.open_chooser();
    assert!(ui.can_close_chooser);
    ui.close_chooser();
    assert_eq!(ui.screen, Screen::Connected);
}

#[test]
fn signing_out_leaves_nothing_behind() {
    let mut ui = with_list();
    ui.report(Outcome::ExitPicked(4));
    ui.report(Outcome::Relay(preview_relay()));
    assert!(matches!(ui.sign_out(), Some(Task::SignOut)));
    ui.report(Outcome::SignedOut);
    assert_eq!(ui.screen, Screen::SignIn);
    assert!(ui.rows.is_empty() && ui.exits.is_empty() && ui.relay.is_none());
    assert_eq!((ui.chosen_exit, ui.exit_label.as_str()), (NO_EXIT, ""));
}

#[test]
fn an_exit_the_list_lost_is_named_after_its_row() {
    let mut ui = with_list();
    ui.toggle_country("se");
    ui.label_from_model(4);
    assert_eq!(ui.exit_label, "Zzz · Sweden");
    assert_eq!(ui.exit_state, "");
    assert_eq!(waiting_notice(true), "");
    assert_eq!(waiting_notice(false), WAITING);
    // Not finding the exit is not its going away.
    ui.report(Outcome::ExitPicked(4));
    ui.report(Outcome::Exits(Vec::new()));
    assert_eq!(ui.exit_label, "Zzz · Sweden");
}

const STATS: Stats = Stats { received: 4_713_984, sent: 918_272, handshake_age: Some(37) };

#[test]
fn the_tunnel_is_shown_as_it_is() {
    let mut ui = with_list();
    ui.apply_tunnel(Some(Mode::System), STATS);
    assert_eq!(ui.tunnel_kind, "WireGuard service · kernel path");
    assert_eq!((ui.tunnel_state.as_str(), ui.tunnel_status_text.as_str()), ("up", "TUNNEL UP"));
    assert_eq!((ui.traffic_in.as_str(), ui.traffic_out.as_str()), ("4.5 Mo", "896.8 Ko"));
    assert_eq!(ui.handshake, "37 s ago");
    assert_eq!(ui.tooltip, "ValiraVPN — connected");
    ui.report(Outcome::ExitPicked(2));
    ui.apply_tunnel(Some(Mode::Embedded), Stats { handshake_age: None, ..STATS });
    assert_eq!(ui.tunnel_kind, "Embedded · user-space path");
    assert_eq!((ui.tunnel_state.as_str(), ui.tunnel_status_text.as_str()), ("pending", "ACTIVATING"));
    assert_eq!(ui.handshake, "never");
    assert_eq!(ui.tooltip, "ValiraVPN — activating Berlin · Germany");
    ui.report(Outcome::ExitPicked(4));
    ui.apply_tunnel(Some(Mode::Embedded), STATS);
    assert_eq!(ui.tooltip, "ValiraVPN — Zzz · Sweden");
    assert!(ui.disconnect());
    assert_eq!((ui.tunnel_state.as_str(), ui.traffic_in.as_str()), ("down", ""));
    assert_eq!(ui.tooltip, "ValiraVPN — tunnel down");
    assert_eq!(ui.screen, Screen::Choosing);
}

#[test]
fn the_first_look_settles_the_opening_screen() {
    let mut ui = Ui::new();
    ui.probe(true, Some(Mode::System), STATS, None, true);
    assert_eq!(ui.screen, Screen::SignIn);
    ui.resume(&session(Some(1)));
    ui.probe(true, Some(Mode::System), STATS, None, true);
    assert_eq!(ui.screen, Screen::Connected);
    ui.probe(true, None, STATS, Some(false), false);
    assert_eq!(ui.screen, Screen::Choosing);
    assert_eq!(ui.notice, "Run ValiraVPN with sudo to bring the tunnel up.");
    assert!(!ui.notice_danger);
    ui.clear_notice();
    ui.close_chooser();
    // Never again, and a hint does not bury an error.
    ui.notify("real", true);
    ui.probe(false, None, STATS, Some(false), true);
    assert_eq!((ui.screen, ui.notice.as_str()), (Screen::Connected, "real"));
    ui.clear_notice();
    ui.probe(false, None, STATS, Some(false), true);
    assert_eq!(ui.notice, "Run ValiraVPN as administrator to bring the tunnel up.");
}

/// The amount as a double would have it.
fn as_double(count: u64) -> String {
    let units = ["o", "Ko", "Mo", "Go"];
    let mut value = count as f64;
    for unit in units {
        if value < 1024.0 || unit == "Go" {
            return if unit == "o" {
                format!("{value:.0} {unit}")
            } else {
                format!("{value:.1} {unit}")
            };
        }
        value /= 1024.0;
    }
    unreachable!()
}

#[test]
fn amounts_read_as_doubles_print_them() {
    assert_eq!(human(0), "0 o");
    assert_eq!(human(1023), "1023 o");
    assert_eq!(human(1024), "1.0 Ko");
    assert_eq!(human(1_048_575), "1024.0 Ko");
    assert_eq!(human(u64::MAX), "17179869184.0 Go");
    let mut count = 1u64;
    for step in 0..4000u64 {
        count = count.wrapping_mul(6_364_136_223_846_793_005).wrapping_add(step);
        let shifted = count >> (step % 64);
        assert_eq!(human(shifted), as_double(shifted), "{shifted}");
    }
    // Exactly halfway between two tenths.
    for tenths in 0..40u64 {
        let count = 1024 * 50 + tenths * 51 + 26;
        assert_eq!(human(count), as_double(count), "{count}");
        assert_eq!(human(1280 + tenths * 256), as_double(1280 + tenths * 256));
    }
    for near in [1u64 << 53, (1 << 53) + 1, (1 << 54) + 2, (1 << 54) + 6, u64::MAX - 1024] {
        assert_eq!(human(near), as_double(near), "{near}");
    }
}

#[test]
fn the_preview_drives_the_window() {
    let mut ui = Ui::new();
    apply_ui_preview(&mut ui, "choosing:home");
    assert_eq!((ui.screen, ui.kind_filter), (Screen::Choosing, KIND_RESIDENTIAL));
    assert_eq!((ui.total_exits, ui.count_all, ui.chosen_exit), (14, 14, 3));
    assert_eq!(ui.exit_label, "Reykjavik · Iceland");
    assert!(ui.can_close_chooser && ui.relay.is_some());
    apply_ui_preview(&mut ui, "menu");
    assert_eq!(ui.screen, Screen::Connected);
    assert!(ui.tunnel_menu_open && !ui.profile_menu_open);
    assert_eq!((ui.traffic_in.as_str(), ui.traffic_out.as_str()), ("4.5 Mo", "896.8 Ko"));
    apply_ui_preview(&mut ui, "profile:other");
    assert!(ui.profile_menu_open);
    assert_eq!(ui.kind_filter, ANY_KIND);
    apply_ui_preview(&mut ui, "list:datacentre");
    assert_eq!((ui.screen, ui.kind_filter), (Screen::Choosing, KIND_DATACENTRE));
    apply_ui_preview(&mut ui, "signin");
    assert_eq!(ui.screen, Screen::SignIn);
    let exits = preview_exits();
    assert_eq!(exits[7].country_code, "");
    assert_eq!(exits[3].residential, None);
    assert_eq!(exits.iter().filter(|exit| exit.residential.is_none()).count(), 1);
    assert_eq!(exits.iter().filter(|exit| exit.residential == Some(true)).count(), 3);
    assert_eq!(exits.iter().filter(|exit| exit.state == "provisioned").count(), 1);
    assert_eq!(exits[0].asn.as_deref(), Some("AS12007"));
    let relay: Relay = preview_relay();
    assert_eq!(relay.port, 51820);
}
