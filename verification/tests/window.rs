//! The frame, the window and the coastline.
use valira_desktop::frame::{
    click, hit_test, hover, lock_style, maximised, menu, message, placing, point_of, swallows, tip,
    tray, Bar, Click, Controls, Memory, Message, Point, Rect, Tray, HTBOTTOM, HTBOTTOMLEFT, HTBOTTOMRIGHT,
    HTCAPTION, HTCLIENT, HTCLOSE, HTLEFT, HTMAXBUTTON, HTMINBUTTON, HTRIGHT, HTTOP, HTTOPLEFT,
    HTTOPRIGHT, MENU_OPEN, MENU_QUIT, SWP_NOCOPYBITS, SWP_NOSIZE, WM_CONTEXTMENU, WM_LBUTTONUP,
    GWL_STYLE, WM_CLOSE, WM_COMMAND, WM_ENDSESSION, WM_NCCALCSIZE, WM_NCHITTEST, WM_QUIT_REQUEST,
    WM_RBUTTONUP, WM_STYLECHANGING, WM_TRAY, WS_CAPTION, WS_THICKFRAME,
};
use valira_desktop::window::{
    lock_name, open_out, toggle_maximise, tray_again, Opening, SoleInstance, Taking, OPENINGS,
};
use valira_desktop::worldmap::{redraws, rings, Texture};

fn at(x: i32, y: i32) -> Point {
    Point { x, y }
}

const WINDOW: Rect = Rect { left: 100, top: 100, right: 1100, bottom: 700 };

fn bar() -> Bar {
    Bar {
        origin: at(108, 108),
        width: 984,
        height: 44,
        button: 46,
        controls: Some(Controls { chip_start: 200, chip_end: 300, profile: 60 }),
    }
}

fn hit(x: i32, y: i32) -> i32 {
    hit_test(at(x, y), WINDOW, Some(at(8, 8)), bar())
}

#[test]
fn every_part_of_the_frame_is_hit() {
    assert_eq!(hit(100, 100), HTTOPLEFT);
    assert_eq!(hit(1099, 100), HTTOPRIGHT);
    assert_eq!(hit(100, 699), HTBOTTOMLEFT);
    assert_eq!(hit(1099, 699), HTBOTTOMRIGHT);
    assert_eq!(hit(100, 400), HTLEFT);
    assert_eq!(hit(1092, 400), HTRIGHT);
    assert_eq!(hit(600, 107), HTTOP);
    assert_eq!(hit(600, 692), HTBOTTOM);
    // The bar: its right end is at 1092.
    assert_eq!(hit(1091, 120), HTCLOSE);
    assert_eq!(hit(1046, 120), HTMAXBUTTON);
    assert_eq!(hit(1000, 120), HTMINBUTTON);
    assert_eq!(hit(950, 120), HTCLIENT);
    assert_eq!(hit(890, 120), HTCAPTION);
    assert_eq!(hit(308, 120), HTCLIENT);
    assert_eq!(hit(407, 120), HTCLIENT);
    assert_eq!(hit(408, 120), HTCAPTION);
    assert_eq!(hit(600, 152), HTCLIENT);
    // Maximised, there is no border to hit.
    assert_eq!(hit_test(at(600, 109), WINDOW, None, bar()), HTCAPTION);
    let unknown = Bar { controls: None, ..bar() };
    assert_eq!(hit_test(at(308, 120), WINDOW, None, unknown), HTCAPTION);
}

#[test]
fn a_point_comes_out_of_its_bits() {
    assert_eq!(point_of(0x0012_0034), at(0x34, 0x12));
    assert_eq!(point_of(0xffff_fff0_fffe), at(-2, -16));
    assert_eq!(point_of(0x8000_7fff), at(32767, -32768));
}

#[test]
fn the_caption_buttons_do_what_they_say() {
    assert_eq!(hover(HTMINBUTTON, false), (1, true));
    assert_eq!(hover(HTMAXBUTTON, true), (2, false));
    assert_eq!(hover(HTCLOSE, false), (3, true));
    assert_eq!(hover(HTCAPTION, false), (0, false));
    assert!(swallows(HTCLOSE) && !swallows(HTCAPTION));
    assert_eq!(click(HTMINBUTTON, false), Click::Minimise);
    assert_eq!(click(HTMAXBUTTON, false), Click::Maximise);
    assert_eq!(click(HTMAXBUTTON, true), Click::Restore);
    assert_eq!(click(HTCLOSE, false), Click::Close);
    assert_eq!(click(HTCLIENT, false), Click::Default);
}

#[test]
fn a_maximised_window_leaves_the_taskbar_alone() {
    let monitor = Rect { left: -1920, top: 0, right: 0, bottom: 1080 };
    let work = Rect { left: -1920, top: 0, right: 0, bottom: 1040 };
    assert_eq!(maximised(work, monitor), (at(0, 0), at(1920, 1040)));
}

#[test]
fn the_style_stays_locked() {
    let locked = lock_style(WS_CAPTION | 1);
    assert_eq!(locked & WS_CAPTION, 0);
    assert_eq!(locked & WS_THICKFRAME, WS_THICKFRAME);
    assert_eq!(locked & 1, 1);
    assert_eq!(lock_style(locked), locked);
    assert_eq!(placing(0), SWP_NOCOPYBITS);
    assert_eq!(placing(SWP_NOSIZE), SWP_NOSIZE);
}

#[test]
fn the_window_is_opened_out_once() {
    let mut memory = Memory::new(true);
    assert!(!memory.placed(SWP_NOSIZE, true));
    assert!(memory.placed(0, true));
    assert!(!memory.placed(0, true));
    assert!(memory.resized(10, 20) && !memory.resized(10, 20) && memory.resized(10, 21));
    assert!(!Memory::new(false).resized(10, 20));
    let mut hidden = Memory::new(true);
    assert!(!hidden.placed(0, false));
    assert!(!hidden.placed(0, true));
}

#[test]
fn the_tray_answers_the_pointer() {
    assert_eq!(tray(WM_LBUTTONUP), Tray::Reveal);
    assert_eq!((tray(WM_RBUTTONUP), tray(WM_CONTEXTMENU)), (Tray::Menu, Tray::Menu));
    assert_eq!(tray(0), Tray::Nothing);
    assert_eq!(menu(MENU_OPEN + 0x3_0000), Tray::Reveal);
    assert_eq!((menu(MENU_QUIT), menu(7)), (Tray::Quit, Tray::Nothing));
    assert_eq!((tray_again(true, 3), tray_again(false, 0), tray_again(false, 3)), (None, None, Some(2)));
}

#[test]
fn a_tooltip_ends_inside_its_buffer() {
    let mut buffer = [7u16; 128];
    tip("é€😀", &mut buffer);
    let wanted: Vec<u16> = "é€😀".encode_utf16().collect();
    assert_eq!(buffer[..4], wanted[..]);
    assert_eq!((buffer[4], buffer[5]), (0, 7));
    let long = "x".repeat(126) + "😀y";
    tip(&long, &mut buffer);
    let wanted: Vec<u16> = long.encode_utf16().take(127).collect();
    assert_eq!(buffer[..127], wanted[..]);
    assert_eq!(buffer[127], 0);
}

#[test]
fn the_window_is_asked_until_it_agrees() {
    assert!(toggle_maximise(false) && !toggle_maximise(true));
    assert_eq!(open_out(Some(true), 5), Opening::Done);
    assert_eq!(open_out(Some(false), 5), Opening::Again { ask: true, left: 4 });
    assert_eq!(open_out(None, 5), Opening::Again { ask: false, left: 4 });
    assert_eq!(open_out(Some(false), 0), Opening::GiveUp { ask: true });
    let mut left = OPENINGS;
    let mut asked = 1;
    while let Opening::Again { left: rest, .. } = open_out(Some(false), left) {
        left = rest;
        asked += 1;
    }
    assert_eq!(asked, 13);
}

#[test]
fn there_is_one_client_to_a_machine() {
    let mut sole: SoleInstance<u8> = SoleInstance::new();
    assert!(sole.claim(Taking::Nowhere));
    assert!(!sole.claim(Taking::Refused));
    assert!(sole.claim(Taking::Taken(5)));
    assert_eq!(sole.release(), Some(5));
    assert_eq!(sole.release(), None);
    assert_eq!(lock_name(true, 1000), "valira-desktop.lock");
    assert_eq!(lock_name(false, 1000), "valira-desktop-1000.lock");
}

/// The bytes of a coastline.
fn coast(rings: &[&[(f32, f32)]]) -> Vec<u8> {
    let mut bytes = (rings.len() as u32).to_le_bytes().to_vec();
    for ring in rings {
        bytes.extend((ring.len() as u16).to_le_bytes());
        for (lon, lat) in ring.iter() {
            bytes.extend(lon.to_le_bytes());
            bytes.extend(lat.to_le_bytes());
        }
    }
    bytes
}

#[test]
fn a_coastline_is_read_ring_by_ring() {
    let bytes = coast(&[&[(1.5, -2.0), (3.0, 4.0), (5.0, 6.0)], &[], &[(-180.0, 83.0)]]);
    let read = rings(&bytes).unwrap();
    assert_eq!(read.spans, vec![(0, 3), (3, 3), (3, 4)]);
    assert_eq!(read.points[0], (1.5f32.to_bits(), (-2.0f32).to_bits()));
    assert_eq!(read.points[3], ((-180.0f32).to_bits(), 83.0f32.to_bits()));
    // Cut short anywhere, it is none.
    for length in 0..bytes.len() {
        assert!(rings(&bytes[..length]).is_none(), "{length}");
    }
    assert!(rings(&[0, 0, 0, 0]).unwrap().spans.is_empty());
}

#[test]
fn the_rings_parse() {
    let world: Vec<Vec<(f32, f32)>> = (0..600)
        .map(|ring| {
            (0..20)
                .map(|point| {
                    let lon = -180.0 + (ring as f32) * 0.6 + (point as f32) * 0.01;
                    let lat = 83.0 - (ring as f32) * 0.23 - (point as f32) * 0.01;
                    (lon, lat)
                })
                .collect()
        })
        .collect();
    let slices: Vec<&[(f32, f32)]> = world.iter().map(|ring| ring.as_slice()).collect();
    let data = rings(&coast(&slices)).unwrap();
    assert!(data.spans.len() > 500, "expected the world, got {} rings", data.spans.len());
    assert!(data.points.len() > 10_000);
    for &(lon, lat) in &data.points {
        let x = (f32::from_bits(lon) + 180.0) / 360.0;
        let y = (83.0 - f32::from_bits(lat)) / 139.0;
        assert!((-0.001..=1.001).contains(&x), "longitude out of range: {x}");
        assert!((-0.2..=1.4).contains(&y), "latitude wildly out of range: {y}");
    }
    assert_eq!(data.spans[599], (599 * 20, 600 * 20));
    assert_eq!(f32::from_bits(data.points[20].0), world[1][0].0);
}

#[test]
fn the_land_is_drawn_again_only_when_it_has_to_be() {
    let texture = |covers: bool, detailed: bool, clean: bool| {
        Some(Texture { covers, detailed, clean })
    };
    assert!(redraws(None, false));
    assert!(!redraws(texture(true, true, false), false));
    assert!(redraws(texture(true, true, false), true));
    assert!(!redraws(texture(true, true, true), true));
    assert!(redraws(texture(false, true, true), false));
    assert!(redraws(texture(true, false, true), false));
}

#[test]
fn messages_are_told_apart() {
    let taskbar = 0xc123;
    assert_eq!(message(WM_NCCALCSIZE, 1, taskbar), Message::CoverCaption);
    assert_eq!(message(WM_NCCALCSIZE, 0, taskbar), Message::Default);
    assert_eq!(message(WM_NCHITTEST, 0, taskbar), Message::HitTest);
    assert_eq!(message(WM_STYLECHANGING, GWL_STYLE, taskbar), Message::Style);
    assert_eq!(message(WM_STYLECHANGING, -16i64 as u64, taskbar), Message::Style);
    assert_eq!(message(WM_STYLECHANGING, -20i64 as u64, taskbar), Message::Default);
    assert_eq!(message(WM_CLOSE, 0, taskbar), Message::Hide);
    assert_eq!(message(WM_ENDSESSION, 1, taskbar), Message::Ends);
    assert_eq!(message(WM_ENDSESSION, 0, taskbar), Message::StaysUp);
    assert_eq!(message(WM_QUIT_REQUEST, 0, taskbar), Message::Quit);
    assert_eq!(message(WM_TRAY, 0, taskbar), Message::Tray);
    assert_eq!(message(WM_COMMAND, 0, taskbar), Message::Menu);
    assert_eq!(message(taskbar, 0, taskbar), Message::TrayGone);
    assert_eq!(message(0, 0, 0), Message::Default);
}
