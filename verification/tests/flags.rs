//! The flag atlas and its index.
use valira_desktop::flags::{count, flag, known, position, Atlas, HEIGHT, INDEX, STRIDE, WIDTH};

/// An atlas in which every flag is transparent but the French one, whose left
/// column is blue and whose last pixel is red.
fn atlas() -> Atlas {
    let mut bytes = vec![0u8; count() * STRIDE];
    let at = (0..count())
        .find(|record| &INDEX[record * 2..record * 2 + 2] == "fr")
        .expect("the index holds France");
    for row in 0..HEIGHT as usize {
        let pixel = at * STRIDE + row * WIDTH as usize * 4;
        bytes[pixel..pixel + 4].copy_from_slice(&[0, 35, 149, 255]);
    }
    let last = (at + 1) * STRIDE - 4;
    bytes[last..last + 4].copy_from_slice(&[237, 41, 57, 255]);
    Atlas::new(bytes).expect("as many bytes as the index calls for")
}

#[test]
fn atlas_and_index_agree() {
    assert!(count() > 200, "expected the full ISO-2 set, got {}", count());
    let bytes = vec![0u8; count() * STRIDE];
    assert_eq!(bytes.len(), count() * STRIDE);
    assert!(Atlas::new(bytes).is_some());
    assert!(Atlas::new(vec![0u8; count() * STRIDE - 1]).is_none());
    assert_eq!(INDEX.len(), count() * 2);
}

#[test]
fn index_is_sorted_so_the_search_holds() {
    for pair in (0..count()).collect::<Vec<_>>().windows(2) {
        let (before, after) = (pair[0] * 2, pair[1] * 2);
        assert!(INDEX.as_bytes()[before..before + 2] < INDEX.as_bytes()[after..after + 2]);
    }
}

#[test]
fn finds_countries_and_refuses_the_rest() {
    for code in ["fr", "de", "is", "jp", "us", "za"] {
        assert!(known(code), "{code} should have a flag");
    }
    // Case and padding are what the control plane might actually send.
    assert!(known("FR"));
    assert!(known(" fr "));
    // Not countries.
    assert!(!known("zz"));
    assert!(!known("f"));
    assert!(!known("fra"));
    assert!(!known(""));
}

#[test]
fn a_flag_has_the_expected_shape() {
    let image = flag(&atlas(), "fr");
    assert_eq!(image.width, WIDTH);
    assert_eq!(image.height, HEIGHT);
    // The French flag is opaque, and its left column is blue.
    let first = image.pixels[0];
    assert_eq!(first.a, 255);
    assert!(first.b > first.r, "the hoist should be blue, got {first:?}");
    let last = image.pixels[(WIDTH * HEIGHT) as usize - 1];
    assert!(last.r > last.b);
}

#[test]
fn an_unknown_code_gives_an_empty_image() {
    assert_eq!(flag(&atlas(), "zz").width, 0);
}

#[test]
fn every_record_of_the_index_is_found() {
    for record in 0..count() {
        assert!(known(&INDEX[record * 2..record * 2 + 2]));
    }
}

#[test]
fn a_code_is_found_where_it_stands() {
    for record in 0..count() {
        assert_eq!(position(&INDEX[record * 2..record * 2 + 2]), Some(record));
    }
    assert_eq!(position(" FR "), position("fr"));
    assert_eq!(position("zz"), None);
    assert_eq!(position("fra"), None);
    assert_eq!(position(""), None);
}
