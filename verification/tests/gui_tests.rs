use rusty_input::gui::Graphics;

fn draw(boxes: &[(u16, u16, u16, u16)], double: bool) -> String {
    let mut g = Graphics::new();
    for &(x, y, w, h) in boxes {
        g.add(x, y, w, h);
    }
    g.generate(double)
}

#[test]
fn lone_box_single_lines() {
    assert_eq!(draw(&[(1, 1, 3, 3)], false), "\u{1b}[1;1H┌─┐\u{1b}[2;1H│ │\u{1b}[3;1H└─┘");
}

#[test]
fn lone_box_double_lines() {
    assert_eq!(draw(&[(1, 1, 3, 3)], true), "\u{1b}[1;1H╔═╗\u{1b}[2;1H║ ║\u{1b}[3;1H╚═╝");
}

#[test]
fn boxes_side_by_side_share_a_tee() {
    assert_eq!(
        draw(&[(0, 0, 4, 3), (3, 0, 3, 3)], false),
        "\u{1b}[0;0H┌──┬─┐\u{1b}[1;0H│  │ │\u{1b}[2;0H└──┴─┘"
    );
}

#[test]
fn box_inside_a_box() {
    assert_eq!(
        draw(&[(2, 5, 5, 4), (4, 6, 2, 1)], false),
        "\u{1b}[5;2H┌─┬┬┐\u{1b}[6;2H│ └┴┤\u{1b}[7;2H│   │\u{1b}[8;2H└───┘"
    );
}

#[test]
fn divider_across_a_box_double() {
    assert_eq!(
        draw(&[(0, 0, 5, 5), (0, 2, 5, 1)], true),
        "\u{1b}[0;0H╔═══╗\u{1b}[1;0H║   ║\u{1b}[2;0H╠═══╣\u{1b}[3;0H║   ║\u{1b}[4;0H╚═══╝"
    );
}

#[test]
fn one_cell_box() {
    assert_eq!(draw(&[(1, 1, 1, 1)], false), "\u{1b}[1;1H─");
}

#[test]
fn drawn_cells_are_three_byte_sequences() {
    let out = draw(&[(1, 1, 3, 3)], false);
    let corner = "┌";
    assert_eq!(corner.as_bytes(), &[226u8, 148, 140]);
    assert!(out.contains(corner));
    let double = draw(&[(1, 1, 3, 3)], true);
    assert_eq!("╔".as_bytes(), &[226u8, 149, 148]);
    assert!(double.contains("╔"));
}

#[test]
fn generate_leaves_the_layer_unchanged() {
    let mut g = Graphics::new();
    g.add(1, 1, 3, 3);
    let first = g.generate(false);
    let second = g.generate(false);
    assert_eq!(first, second);
}

#[test]
fn order_of_boxes_does_not_matter() {
    let a = draw(&[(2, 5, 5, 4), (4, 6, 2, 1), (0, 0, 4, 3)], false);
    let b = draw(&[(0, 0, 4, 3), (2, 5, 5, 4), (4, 6, 2, 1)], false);
    let c = draw(&[(4, 6, 2, 1), (0, 0, 4, 3), (2, 5, 5, 4), (0, 0, 4, 3)], false);
    assert_eq!(a, b);
    assert_eq!(a, c);
}

fn double_form(s: &str) -> String {
    let single = "─│┌┐└┘├┤┬┴┼";
    let double = "═║╔╗╚╝╠╣╦╩╬";
    s.chars()
        .map(|ch| match single.chars().position(|c| c == ch) {
            Some(k) => double.chars().nth(k).unwrap(),
            None => ch,
        })
        .collect()
}

#[test]
fn double_lines_are_the_single_lines_doubled() {
    for boxes in [
        vec![(1, 1, 3, 3)],
        vec![(0, 0, 4, 3), (3, 0, 3, 3)],
        vec![(2, 5, 5, 4), (4, 6, 2, 1)],
        vec![(0, 0, 5, 5), (0, 2, 5, 1)],
        vec![(1, 1, 1, 1)],
    ] {
        assert_eq!(draw(&boxes, true), double_form(&draw(&boxes, false)));
    }
}

#[test]
fn four_boxes_meet_in_a_cross() {
    assert_eq!(
        draw(&[(0, 0, 3, 3), (2, 0, 3, 3), (0, 2, 3, 3), (2, 2, 3, 3)], false),
        "\u{1b}[0;0H┌─┬─┐\u{1b}[1;0H│ │ │\u{1b}[2;0H├─┼─┤\u{1b}[3;0H│ │ │\u{1b}[4;0H└─┴─┘"
    );
}
