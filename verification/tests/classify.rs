use template_compare::palette::{color_distance, classify_index, find_color_name, palette_entry, Pixel, PALETTE_LEN};

fn px(r: u8, g: u8, b: u8, a: u8) -> Pixel {
    Pixel { r, g, b, a }
}

#[test]
fn distance_exact_values() {
    assert_eq!(color_distance((0, 0, 0), (0, 0, 0)), 0);
    assert_eq!(color_distance((255, 255, 255), (0, 0, 0)), 3 * 255 * 255);
    assert_eq!(color_distance((10, 20, 30), (13, 16, 30)), 9 + 16);
    assert_eq!(color_distance((13, 16, 30), (10, 20, 30)), 9 + 16);
}

#[test]
fn exactness_every_palette_entry() {
    for i in 0..PALETTE_LEN {
        let (name, (r, g, b)) = palette_entry(i);
        assert_eq!(find_color_name(px(r, g, b, 255)), name);
        assert_eq!(classify_index((r, g, b)), i);
    }
}

#[test]
fn transparency_precedence() {
    assert_eq!(find_color_name(px(0, 0, 0, 0)), "Transparent");
    assert_eq!(find_color_name(px(255, 255, 255, 0)), "Transparent");
    assert_eq!(find_color_name(px(237, 28, 36, 0)), "Transparent");
    // any nonzero alpha classifies normally
    assert_eq!(find_color_name(px(0, 0, 0, 1)), "Black");
    assert_eq!(find_color_name(px(0, 0, 0, 255)), "Black");
}

#[test]
fn nearest_matches_brute_force() {
    let samples: [(u8, u8, u8); 8] = [
        (1, 2, 3),
        (100, 200, 50),
        (254, 254, 254),
        (7, 130, 115),
        (160, 130, 60),
        (90, 90, 90),
        (200, 0, 200),
        (33, 66, 99),
    ];
    for &rgb in samples.iter() {
        let mut best = 0usize;
        let mut best_d = u32::MAX;
        for i in 0..PALETTE_LEN {
            let d = color_distance(rgb, palette_entry(i).1);
            if d < best_d {
                best_d = d;
                best = i;
            }
        }
        let (r, g, b) = rgb;
        assert_eq!(find_color_name(px(r, g, b, 255)), palette_entry(best).0);
    }
}

#[test]
fn distance_tie_prefers_canonical_order() {
    // (97, 27, 91) is equidistant from "Dark Brown" (104,70,52) and
    // "Dark Gray" (60,60,60), both at the minimum over the whole table;
    // "Dark Brown" comes first in canonical (alphabetical) order.
    let rgb = (97, 27, 91);
    assert_eq!(
        color_distance(rgb, (104, 70, 52)),
        color_distance(rgb, (60, 60, 60))
    );
    for i in 0..PALETTE_LEN {
        assert!(color_distance(rgb, palette_entry(i).1) >= color_distance(rgb, (104, 70, 52)));
    }
    assert_eq!(find_color_name(px(97, 27, 91, 255)), "Dark Brown");
}

#[test]
fn palette_names_are_sorted_and_unique() {
    for i in 0..PALETTE_LEN - 1 {
        let a = palette_entry(i).0;
        let b = palette_entry(i + 1).0;
        assert!(a < b, "{} should sort before {}", a, b);
    }
}
