use template_compare::compare::{compare, ColorEntry, CompareError};
use template_compare::grid::PixelGrid;
use template_compare::palette::Pixel;

fn px(r: u8, g: u8, b: u8, a: u8) -> Pixel {
    Pixel { r, g, b, a }
}

fn grid(width: usize, height: usize, pixels: Vec<Pixel>) -> PixelGrid {
    PixelGrid::new(width, height, pixels).expect("buffer length must be width * height")
}

fn row(e: &ColorEntry) -> (&str, usize, usize, Vec<(usize, usize)>) {
    (e.name, e.count, e.total, e.pixels.clone())
}

#[test]
fn grid_new_rejects_wrong_length() {
    assert!(PixelGrid::new(2, 2, vec![px(0, 0, 0, 255); 3]).is_none());
    assert!(PixelGrid::new(2, 2, vec![px(0, 0, 0, 255); 4]).is_some());
}

#[test]
fn scenario_transparent_template_empty_report() {
    let t = grid(1, 1, vec![px(0, 0, 0, 0)]);
    let a = grid(1, 1, vec![px(200, 10, 30, 255)]);
    let report = compare(&t, &a, true).unwrap();
    assert!(report.is_empty());
}

#[test]
fn scenario_identical_black_pixel() {
    let t = grid(1, 1, vec![px(0, 0, 0, 255)]);
    let a = grid(1, 1, vec![px(0, 0, 0, 255)]);
    let report = compare(&t, &a, true).unwrap();
    assert_eq!(report.len(), 1);
    assert_eq!(row(&report[0]), ("Black", 0, 1, vec![]));
}

#[test]
fn scenario_transparent_actual_is_mismatch() {
    let t = grid(1, 1, vec![px(0, 0, 0, 255)]);
    let a = grid(1, 1, vec![px(0, 0, 0, 0)]);
    let report = compare(&t, &a, true).unwrap();
    assert_eq!(report.len(), 1);
    assert_eq!(row(&report[0]), ("Black", 1, 1, vec![(0, 0)]));
}

#[test]
fn scenario_tie_broken_alphabetically() {
    let t = grid(2, 1, vec![px(0, 0, 0, 255), px(237, 28, 36, 255)]);
    let a = grid(2, 1, vec![px(0, 0, 0, 255), px(237, 28, 36, 255)]);
    let report = compare(&t, &a, true).unwrap();
    assert_eq!(report.len(), 2);
    assert_eq!(row(&report[0]), ("Black", 0, 1, vec![]));
    assert_eq!(row(&report[1]), ("Red", 0, 1, vec![]));
}

#[test]
fn rgb_difference_is_mismatch_alpha_is_ignored() {
    // same RGB, different nonzero alpha: no mismatch
    let t = grid(1, 1, vec![px(10, 10, 10, 255)]);
    let a = grid(1, 1, vec![px(10, 10, 10, 7)]);
    let report = compare(&t, &a, true).unwrap();
    assert_eq!(row(&report[0]), ("Black", 0, 1, vec![]));
    // different RGB: mismatch
    let a2 = grid(1, 1, vec![px(11, 10, 10, 255)]);
    let report2 = compare(&t, &a2, true).unwrap();
    assert_eq!(row(&report2[0]), ("Black", 1, 1, vec![(0, 0)]));
}

#[test]
fn include_pixels_false_leaves_coordinates_empty() {
    let t = grid(1, 1, vec![px(0, 0, 0, 255)]);
    let a = grid(1, 1, vec![px(255, 255, 255, 255)]);
    let report = compare(&t, &a, false).unwrap();
    assert_eq!(row(&report[0]), ("Black", 1, 1, vec![]));
}

#[test]
fn coordinates_in_row_major_order() {
    // 2x2 template, all white; actual differs everywhere
    let t = grid(2, 2, vec![px(255, 255, 255, 255); 4]);
    let a = grid(2, 2, vec![px(0, 0, 0, 255); 4]);
    let report = compare(&t, &a, true).unwrap();
    assert_eq!(report.len(), 1);
    assert_eq!(
        row(&report[0]),
        ("White", 4, 4, vec![(0, 0), (1, 0), (0, 1), (1, 1)])
    );
}

#[test]
fn totals_invariant_on_mixed_grid() {
    // 3x2: two Black, two Red, one White, one transparent
    let t = grid(
        3,
        2,
        vec![
            px(0, 0, 0, 255),
            px(237, 28, 36, 255),
            px(0, 0, 0, 255),
            px(237, 28, 36, 255),
            px(255, 255, 255, 255),
            px(1, 2, 3, 0),
        ],
    );
    let a = grid(
        3,
        2,
        vec![
            px(0, 0, 0, 255),
            px(0, 0, 0, 255),
            px(0, 0, 0, 0),
            px(237, 28, 36, 255),
            px(255, 255, 255, 255),
            px(9, 9, 9, 255),
        ],
    );
    let report = compare(&t, &a, true).unwrap();
    let mut total_sum = 0;
    for e in &report {
        assert!(e.count <= e.total);
        total_sum += e.total;
    }
    // five non-transparent template pixels
    assert_eq!(total_sum, 5);
    assert_eq!(report.len(), 3);
    assert_eq!(row(&report[0]), ("Black", 1, 2, vec![(2, 0)]));
    assert_eq!(row(&report[1]), ("Red", 1, 2, vec![(1, 0)]));
    assert_eq!(row(&report[2]), ("White", 0, 1, vec![]));
}

#[test]
fn ordering_invariant_totals_then_names() {
    // Red appears twice, Black and White once each
    let t = grid(
        2,
        2,
        vec![
            px(237, 28, 36, 255),
            px(237, 28, 36, 255),
            px(255, 255, 255, 255),
            px(0, 0, 0, 255),
        ],
    );
    let a = t.clone();
    let report = compare(&t, &a, false).unwrap();
    let names: Vec<&str> = report.iter().map(|e| e.name).collect();
    assert_eq!(names, vec!["Red", "Black", "White"]);
    for w in report.windows(2) {
        assert!(
            w[0].total > w[1].total || (w[0].total == w[1].total && w[0].name < w[1].name)
        );
    }
}

#[test]
fn idempotence_same_inputs_same_output() {
    let t = grid(
        2,
        2,
        vec![
            px(237, 28, 36, 255),
            px(1, 2, 3, 255),
            px(255, 255, 255, 255),
            px(9, 9, 9, 0),
        ],
    );
    let a = grid(
        2,
        2,
        vec![
            px(237, 28, 36, 255),
            px(3, 2, 1, 255),
            px(255, 255, 255, 0),
            px(9, 9, 9, 255),
        ],
    );
    let r1 = compare(&t, &a, true).unwrap();
    let r2 = compare(&t, &a, true).unwrap();
    assert_eq!(r1, r2);
}

#[test]
fn dimension_mismatch_error() {
    let t = grid(2, 1, vec![px(0, 0, 0, 255); 2]);
    let a = grid(1, 2, vec![px(0, 0, 0, 255); 2]);
    let err = compare(&t, &a, false).unwrap_err();
    assert_eq!(
        err,
        CompareError::DimensionMismatch {
            template_width: 2,
            template_height: 1,
            actual_width: 1,
            actual_height: 2,
        }
    );
}
