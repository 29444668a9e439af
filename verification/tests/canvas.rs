use termesh::drawille::color::shade;
use termesh::drawille::grid::Pixel;
use termesh::drawille::{padded, Canvas};
use termesh::Vector3;

fn fx(v: f32) -> i32 {
    (f64::from(v) * 65536.0).round() as i32
}

fn v3(x: f32, y: f32, z: f32) -> Vector3 {
    Vector3::new(fx(x), fx(y), fx(z))
}

#[test]
fn test_set() {
    let mut c = Canvas::new();

    c.set(v3(0.0, 0.0, 0.0));

    assert_eq!(
        c.get(0, 0),
        Some(Pixel {
            braille_offset: 1,
            z: fx(0.0)
        })
    );
    assert_eq!(c.dimensions(), Some((0, 0, 0, 0)));
}

#[test]
fn test_clear() {
    let mut c = Canvas::new();

    c.set(v3(1.0, 1.0, 0.0));
    c.clear();

    assert!(c.is_empty());
    assert_eq!(c.get(0, 0), None);
    assert_eq!(c.dimensions(), None);
}

#[test]
fn test_get() {
    let mut c = Canvas::new();

    assert!(!c.is_set(fx(0.0), fx(0.0)));

    c.set(v3(0.0, 0.0, 0.0));
    assert!(c.is_set(fx(0.0), fx(0.0)));
    assert!(!c.is_set(fx(0.0), fx(1.0)));
    assert!(!c.is_set(fx(1.0), fx(0.0)));
    assert!(!c.is_set(fx(1.0), fx(1.0)));
}

#[test]
fn test_frame() {
    let mut c = Canvas::new();
    assert_eq!(c.rows(false).collect(), Vec::<String>::new());

    c.set(v3(0.0, 0.0, 0.0));
    assert_eq!(c.rows(false).collect(), vec!["⠁".to_string()]);
}

#[test]
fn test_rect() {
    let mut c = Canvas::new();

    c.line(v3(0.0, 0.0, 0.0), v3(20.0, 0.0, 0.0));
    c.line(v3(20.0, 0.0, 0.0), v3(20.0, 20.0, 0.0));
    c.line(v3(0.0, 20.0, 0.0), v3(20.0, 20.0, 0.0));
    c.line(v3(0.0, 0.0, 0.0), v3(0.0, 20.0, 0.0));
    c.line(v3(0.0, 0.0, 0.0), v3(20.0, 20.0, 0.0));
    c.line(v3(20.0, 0.0, 0.0), v3(0.0, 20.0, 0.0));

    assert_eq!(
        c.rows(false).collect(),
        vec![
            "⡟⢍⠉⠉⠉⠉⠉⠉⢉⠝⡇",
            "⡇⠀⠑⢄⠀⠀⢀⠔⠁⠀⡇",
            "⡇⠀⠀⠀⢑⢔⠁⠀⠀⠀⡇",
            "⡇⠀⢀⠔⠁⠀⠑⢄⠀⠀⡇",
            "⣇⠔⠁⠀⠀⠀⠀⠀⠑⢄⡇",
            "⠉⠉⠉⠉⠉⠉⠉⠉⠉⠉⠁",
        ]
    );
}

#[test]
fn test_sine_example() {
    let mut s = Canvas::new();

    for x in (0_u16..3600).step_by(20) {
        s.set(v3(
            f32::from(x) / 20.0,
            (4.0 + f32::from(x).to_radians().sin() * 4.0).round(),
            0.0,
        ));
    }

    let rows = s.rows(false).collect();

    assert_eq!(rows, vec![
            "⡐⠊⠑⢂⠀⠀⠀⠀⠀⡐⠊⠑⢂⠀⠀⠀⠀⠀⡐⠊⠑⢂⠀⠀⠀⠀⠀⡐⠊⠑⢂⠀⠀⠀⠀⠀⡐⠊⠑⢂⠀⠀⠀⠀⠀⡐⠊⠑⢂⠀⠀⠀⠀⠀⡐⠊⠑⢂⠀⠀⠀⠀⠀⡐⠊⠑⢂⠀⠀⠀⠀⠀⡐⠊⠑⢂⠀⠀⠀⠀⠀⡐⠊⠑⢂",
            "⠑⣀⠀⣀⠊⠀⠀⠀⠀⠑⣀⠀⣀⠊⠀⠀⠀⠀⠑⣀⠀⣀⠊⠀⠀⠀⠀⠑⣀⠀⣀⠊⠀⠀⠀⠀⠑⣀⠀⣀⠊⠀⠀⠀⠀⠑⣀⠀⣀⠊⠀⠀⠀⠀⠑⣀⠀⣀⠊⠀⠀⠀⠀⠑⣀⠀⣀⠊⠀⠀⠀⠀⠑⣀⠀⣀⠊⠀⠀⠀⠀⠑⣀⠀⣀⠊",
            "⠉⠀⠀⠀⠀⠀⠀⠀⠀⠉⠀⠀⠀⠀⠀⠀⠀⠀⠉⠀⠀⠀⠀⠀⠀⠀⠀⠉⠀⠀⠀⠀⠀⠀⠀⠀⠉⠀⠀⠀⠀⠀⠀⠀⠀⠉⠀⠀⠀⠀⠀⠀⠀⠀⠉⠀⠀⠀⠀⠀⠀⠀⠀⠉⠀⠀⠀⠀⠀⠀⠀⠀⠉⠀⠀⠀⠀⠀⠀⠀⠀⠉",
        ]);
}

#[test]
fn rows_of_a_single_dot_at_the_origin() {
    let mut c = Canvas::new();
    c.set(v3(0.0, 0.0, 0.0));
    let rows = c.rows(false).collect();
    assert_eq!(rows.len(), 1);
    let glyphs: Vec<char> = rows[0].chars().collect();
    assert_eq!(glyphs, vec![char::from_u32(0x2800 + 1).unwrap()]);
}

#[test]
fn every_dot_of_a_cell_has_its_bit() {
    let bits = [[0x01, 0x08], [0x02, 0x10], [0x04, 0x20], [0x40, 0x80]];
    for (y, row) in bits.iter().enumerate() {
        for (x, bit) in row.iter().enumerate() {
            let mut c = Canvas::new();
            c.set(v3(x as f32, y as f32, 0.0));
            assert_eq!(c.get(0, 0).unwrap().braille_offset, *bit);
            // the same dot of the cell one to the left and two above
            let mut c = Canvas::new();
            c.set(v3(x as f32 - 2.0, y as f32 - 8.0, 0.0));
            assert_eq!(c.get(-2, -1).unwrap().braille_offset, *bit);
        }
    }
}

#[test]
fn coordinates_are_rounded_before_they_are_divided() {
    assert_eq!(Canvas::pos(fx(0.0), fx(0.0)), (0, 0));
    assert_eq!(Canvas::pos(fx(1.4), fx(3.4)), (0, 0));
    assert_eq!(Canvas::pos(fx(1.5), fx(3.5)), (1, 1));
    assert_eq!(Canvas::pos(fx(-0.4), fx(-0.4)), (0, 0));
    assert_eq!(Canvas::pos(fx(-0.5), fx(-0.5)), (-1, -1));
    assert_eq!(Canvas::pos(fx(-2.0), fx(-4.0)), (-1, -1));
    assert_eq!(Canvas::pos(fx(-2.5), fx(-4.5)), (-2, -2));
    assert_eq!(Canvas::pos(fx(21.0), fx(21.0)), (10, 5));
    assert_eq!(Canvas::pos(i32::MAX, i32::MAX), (16384, 8192));
    assert_eq!(Canvas::pos(i32::MIN, i32::MIN), (-16384, -8192));
}

#[test]
fn dots_of_a_cell_are_composed() {
    let mut c = Canvas::new();
    c.set(v3(0.0, 0.0, 0.0));
    c.set(v3(0.0, 1.0, 0.0));
    c.set(v3(1.0, 3.0, 0.0));
    c.set(v3(0.0, 1.0, 0.0));
    assert_eq!(c.get(0, 0).unwrap().braille_offset, 0x01 | 0x02 | 0x80);
    assert_eq!(c.rows(false).collect(), vec!["⢃".to_string()]);
}

#[test]
fn depth_of_a_cell_is_the_least_in_any_order() {
    let depths = [3.0, -2.5, 7.0, -2.0];
    let orders = [[0, 1, 2, 3], [3, 2, 1, 0], [1, 0, 3, 2], [2, 3, 0, 1]];
    for order in orders {
        let mut c = Canvas::new();
        for i in order {
            // four dots of the cell in row 1 and column 2
            c.set(v3(4.0 + (i % 2) as f32, 4.0 + i as f32, depths[i]));
        }
        assert_eq!(c.get(1, 2).unwrap().z, fx(-2.5));
        assert_eq!(c.get(1, 2).unwrap().braille_offset, 0x01 | 0x10 | 0x04 | 0x80);
    }
}

#[test]
fn unset_puts_out_one_dot() {
    let mut c = Canvas::new();
    c.set(v3(0.0, 0.0, 1.0));
    c.set(v3(1.0, 0.0, 2.0));
    c.set(v3(6.0, 0.0, 3.0));
    c.set(v3(0.0, 4.0, 4.0));

    c.unset(fx(0.0), fx(0.0));
    assert!(!c.is_set(fx(0.0), fx(0.0)));
    assert!(c.is_set(fx(1.0), fx(0.0)));
    // the depth of the cell stays
    assert_eq!(
        c.get(0, 0),
        Some(Pixel {
            braille_offset: 0x08,
            z: fx(1.0)
        })
    );

    // the last dot of a cell takes the cell with it
    c.unset(fx(1.0), fx(0.0));
    assert!(!c.is_set(fx(1.0), fx(0.0)));
    assert_eq!(c.get(0, 0), None);
    assert_eq!(c.dimensions(), Some((0, 1, 0, 3)));

    // the last cell of a row takes the row with it
    c.unset(fx(6.0), fx(0.0));
    assert_eq!(c.get(0, 3), None);
    assert_eq!(c.dimensions(), Some((1, 1, 0, 0)));
    assert_eq!(c.rows(false).collect(), vec!["⠁".to_string()]);

    // a dot that is not lit
    c.unset(fx(1.0), fx(4.0));
    c.unset(fx(40.0), fx(40.0));
    assert_eq!(c.dimensions(), Some((1, 1, 0, 0)));

    c.unset(fx(0.0), fx(4.0));
    assert!(c.is_empty());
    assert_eq!(c.dimensions(), None);
    assert_eq!(c.rows(false).collect(), Vec::<String>::new());
}

#[test]
fn dimensions_are_the_smallest_box() {
    let mut c = Canvas::new();
    assert_eq!(c.dimensions(), None);
    c.set(v3(-3.0, 9.0, 0.0));
    assert_eq!(c.dimensions(), Some((2, 2, -2, -2)));
    c.set(v3(10.0, -5.0, 0.0));
    assert_eq!(c.dimensions(), Some((-2, 2, -2, 5)));
    c.set(v3(40.0, 0.0, 0.0));
    assert_eq!(c.dimensions(), Some((-2, 2, -2, 20)));
    c.set(v3(-40.0, 0.0, 0.0));
    assert_eq!(c.dimensions(), Some((-2, 2, -20, 20)));
}

#[test]
fn rows_are_trimmed_each_on_its_own() {
    let mut c = Canvas::new();
    c.set(v3(2.0, 0.0, 0.0));
    c.set(v3(9.0, 0.0, 0.0));
    c.set(v3(4.0, 8.0, 0.0));
    // every row begins at its own first column and ends at its own last one;
    // the row between the two holds no dot
    assert_eq!(
        c.rows(false).collect(),
        vec!["⠁⠀⠀⠈".to_string(), String::new(), "⠁".to_string()]
    );
}

#[test]
fn frame_has_the_bounds_it_is_given() {
    let mut c = Canvas::new();
    c.set(v3(2.0, 4.0, 0.0));
    c.set(v3(5.0, 9.0, 1.0));
    assert_eq!(
        c.frame(false, 0, 3, 0, Some(4)).collect(),
        vec![
            String::new(),
            "⠀⠁⠀⠀⠀".to_string(),
            "⠀⠀⠐⠀⠀".to_string(),
            String::new()
        ]
    );
    assert_eq!(
        c.frame(false, 0, 3, 0, None).collect(),
        vec![
            String::new(),
            "⠀⠁".to_string(),
            "⠀⠀⠐".to_string(),
            String::new()
        ]
    );
    // a window that ends before it begins
    assert_eq!(
        c.frame(false, 1, 2, 2, Some(1)).collect(),
        vec![String::new(), String::new()]
    );
    assert_eq!(c.frame(false, 3, 2, 0, None).collect(), Vec::<String>::new());
    assert_eq!(
        c.frame(false, i32::MAX, i32::MAX, 0, None).collect(),
        vec![String::new()]
    );
    let mut rows = c.frame(false, 1, 1, 1, None);
    assert_eq!(rows.next(), Some("⠁".to_string()));
    assert_eq!(rows.next(), None);
    assert_eq!(rows.next(), None);
}

#[test]
fn a_larger_window_centers_the_cells() {
    let mut c = Canvas::new();
    c.set(v3(2.0, 4.0, 0.0));
    c.set(v3(5.0, 9.0, 1.0));
    assert_eq!(c.dimensions(), Some((1, 2, 1, 2)));
    // five rows for a distance of one: two rows before; six columns for a
    // distance of one: two columns before, as (6 - 1) / 2 is 2
    assert_eq!(
        c.centered_frame(false, 6, 5).collect(),
        vec![
            String::new(),
            String::new(),
            "⠀⠀⠁⠀".to_string(),
            "⠀⠀⠀⠐".to_string()
        ]
    );
    // a window that is not larger leaves the cells where they are
    assert_eq!(
        c.centered_frame(false, 1, 1).collect(),
        vec!["⠁⠀".to_string(), "⠀⠐".to_string()]
    );
    assert_eq!(
        Canvas::new().centered_frame(false, 80, 24).collect(),
        Vec::<String>::new()
    );
}

#[test]
fn padding_is_half_of_what_the_window_has_more() {
    assert_eq!(padded(1, 2, 5), -1);
    assert_eq!(padded(1, 2, 6), -1);
    assert_eq!(padded(1, 2, 7), -2);
    assert_eq!(padded(1, 2, 1), 1);
    assert_eq!(padded(1, 2, 0), 1);
    assert_eq!(padded(1, 2, 2), 1);
    assert_eq!(padded(-10, 10, 80), -40);
    assert_eq!(padded(3, 3, 1), 3);
    assert_eq!(padded(0, 0, i32::MAX), -1073741823);
    assert_eq!(padded(i32::MIN, i32::MIN, i32::MAX), i32::MIN);
}

#[test]
fn shades_go_from_the_nearest_to_the_farthest() {
    let mut c = Canvas::new();
    c.line(v3(0.0, 0.0, 0.0), v3(8.0, 3.0, 19.0));
    assert_eq!(
        c.rows(true).collect(),
        vec![
            "\u{1b}[38;5;255m⠉\u{1b}[38;5;251m⠒\u{1b}[38;5;246m⠦\u{1b}[38;5;241m⢄\u{1b}[38;5;237m⡀"
                .to_string()
        ]
    );
    // the depth of a cell is the least of its dots
    assert_eq!(c.get(0, 1).unwrap().z, fx(4.0));
    assert_eq!(c.get(0, 4).unwrap().z, fx(18.0));
}

#[test]
fn shade_is_the_share_of_the_depth_range() {
    assert_eq!(shade(fx(0.0), fx(0.0), fx(19.0)), 23);
    assert_eq!(shade(fx(19.0), fx(0.0), fx(19.0)), 4);
    assert_eq!(shade(fx(1.0), fx(0.0), fx(19.0)), 22);
    assert_eq!(shade(fx(0.49), fx(0.0), fx(19.0)), 23);
    // half a step is rounded up
    assert_eq!(shade(fx(0.5), fx(0.0), fx(19.0)), 22);
    assert_eq!(shade(fx(-1.0), fx(-2.0), fx(0.0)), 13);
    assert_eq!(shade(fx(5.0), fx(5.0), fx(5.0)), 23);
    assert_eq!(shade(i32::MAX, i32::MIN, i32::MAX), 4);
    assert_eq!(shade(0, i32::MIN, i32::MAX), 13);
}

#[test]
fn a_single_depth_has_the_nearest_shade() {
    let mut c = Canvas::new();
    c.set(v3(0.0, 0.0, 7.0));
    assert_eq!(
        c.rows(true).collect(),
        vec!["\u{1b}[38;5;255m⠁".to_string()]
    );
}

#[test]
fn clear_keeps_the_range_of_depths() {
    let mut c = Canvas::new();
    c.set(v3(0.0, 0.0, 0.0));
    c.set(v3(0.0, 0.0, 19.0));
    c.clear();
    assert!(c.is_empty());
    c.set(v3(0.0, 0.0, 19.0));
    // the farthest shade, as the nearest depth ever drawn was 0
    assert_eq!(
        c.rows(true).collect(),
        vec!["\u{1b}[38;5;236m⠁".to_string()]
    );
}

#[test]
fn line_rounds_its_ends() {
    let mut a = Canvas::new();
    a.line(v3(0.4, -0.4, 0.0), v3(5.6, 2.5, 0.0));
    let mut b = Canvas::new();
    b.line(v3(0.0, 0.0, 0.0), v3(6.0, 3.0, 0.0));
    assert_eq!(a.rows(false).collect(), b.rows(false).collect());
    assert_eq!(a.rows(false).collect(), vec!["⠑⠢⢄⡀".to_string()]);
}

#[test]
fn triangle_is_three_lines_at_the_mean_depth() {
    let mut c = Canvas::new();
    c.set(v3(20.0, 0.0, 0.0));
    c.set(v3(20.0, 0.0, 6.0));
    c.triangle(v3(0.0, 0.0, 0.0), v3(7.0, 0.0, 3.0), v3(0.0, 7.0, 6.0));
    assert_eq!(
        c.get(0, 0),
        Some(Pixel {
            braille_offset: 79,
            z: fx(3.0)
        })
    );
    assert_eq!(c.get(1, 1).unwrap().z, fx(3.0));
    assert_eq!(
        c.frame(false, 0, 1, 0, Some(3)).collect(),
        vec!["⡏⠉⡩⠋".to_string(), "⡧⠊⠀⠀".to_string()]
    );
    // the mean is truncated toward zero
    let mut c = Canvas::new();
    c.triangle(
        Vector3::new(0, 0, 1),
        Vector3::new(0, 0, 1),
        Vector3::new(0, 0, 3),
    );
    assert_eq!(c.get(0, 0).unwrap().z, 1);
    let mut c = Canvas::new();
    c.triangle(
        Vector3::new(0, 0, -1),
        Vector3::new(0, 0, -1),
        Vector3::new(0, 0, -3),
    );
    assert_eq!(c.get(0, 0).unwrap().z, -1);
}

#[test]
fn fill_triangle_covers_the_inside() {
    let mut c = Canvas::new();
    c.fill_triangle(v3(0.0, 0.0, 0.0), v3(7.0, 0.0, 3.0), v3(0.0, 7.0, 6.0));
    assert_eq!(
        c.rows(false).collect(),
        vec!["⣿⣿⡿⠋".to_string(), "⡿⠋".to_string()]
    );
    for row in 0..2 {
        for col in 0..4 {
            if let Some(pixel) = c.get(row, col) {
                assert_eq!(pixel.z, fx(3.0));
            }
        }
    }
}

#[test]
fn fill_triangle_does_not_depend_on_the_order_of_the_corners() {
    let corners = [v3(1.0, 9.0, 0.0), v3(12.0, 2.0, 3.0), v3(5.0, 0.0, 6.0)];
    let expected = vec![
        "⣼⣷⣶⣦⠄".to_string(),
        "⣼⡿⠟⠋".to_string(),
        "⠘⠉".to_string(),
    ];
    for order in [[0, 1, 2], [0, 2, 1], [1, 0, 2], [1, 2, 0], [2, 0, 1], [2, 1, 0]] {
        let mut c = Canvas::new();
        c.fill_triangle(corners[order[0]], corners[order[1]], corners[order[2]]);
        assert_eq!(c.rows(false).collect(), expected);
    }
}

#[test]
fn a_triangle_without_an_inside_is_its_outline() {
    let mut filled = Canvas::new();
    filled.fill_triangle(v3(0.0, 0.0, 0.0), v3(10.0, 0.0, 0.0), v3(4.0, 0.0, 0.0));
    let mut outline = Canvas::new();
    outline.triangle(v3(0.0, 0.0, 0.0), v3(10.0, 0.0, 0.0), v3(4.0, 0.0, 0.0));
    assert_eq!(filled.rows(false).collect(), outline.rows(false).collect());
    assert_eq!(filled.rows(false).collect(), vec!["⠉⠉⠉⠉⠉⠁".to_string()]);

    let mut point = Canvas::new();
    point.fill_triangle(v3(3.0, 3.0, 1.0), v3(3.0, 3.0, 1.0), v3(3.0, 3.0, 1.0));
    assert_eq!(point.rows(false).collect(), vec!["⢀".to_string()]);
}

#[test]
fn default_is_an_empty_canvas() {
    let c = Canvas::default();
    assert!(c.is_empty());
    assert_eq!(c.dimensions(), None);
}

#[test]
fn a_line_lights_the_dots_of_both_its_ends() {
    for (p0, p1) in [
        (v3(0.0, 0.0, 0.0), v3(7.0, 3.0, 1.0)),
        (v3(-5.0, 9.0, 2.0), v3(6.0, -13.0, 0.0)),
        (v3(3.0, 3.0, 0.0), v3(3.0, 3.0, 0.0)),
        (v3(0.0, 0.0, 0.0), v3(0.0, 0.0, 11.0)),
        (v3(100.0, -100.0, 50.0), v3(-99.0, 17.0, -3.0)),
    ] {
        let mut c = Canvas::new();
        c.line(p0, p1);
        assert!(c.is_set(p0.x, p0.y));
        assert!(c.is_set(p1.x, p1.y));
    }
}

#[test]
fn rows_begin_at_their_own_first_column() {
    let mut c = Canvas::new();
    // a dot in row 0 and column 0, and a dot in row 1 and column 1
    c.set(v3(0.0, 0.0, 0.0));
    c.set(v3(2.0, 4.0, 0.0));
    assert_eq!(
        c.rows(false).collect(),
        vec!["\u{2801}".to_string(), "\u{2801}".to_string()]
    );
    // with a first column given, every row begins there
    assert_eq!(
        c.frame(false, 0, 1, 0, None).collect(),
        vec!["\u{2801}".to_string(), "\u{2800}\u{2801}".to_string()]
    );
    c.set(v3(9.0, 4.0, 0.0));
    assert_eq!(
        c.rows(false).collect(),
        vec!["\u{2801}".to_string(), "\u{2801}\u{2800}\u{2800}\u{2808}".to_string()]
    );
}
