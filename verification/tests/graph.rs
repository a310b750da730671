use reel2mp3::graph::{Layer, braille, wave_row};

#[test]
fn braille_fills_columns_from_the_bottom() {
    assert_eq!(braille(0, 0), '\u{2800}');
    assert_eq!(braille(1, 0), '⡀');
    assert_eq!(braille(0, 1), '⢀');
    assert_eq!(braille(1, 1), '⣀');
    assert_eq!(braille(2, 3), '\u{28F4}');
    assert_eq!(braille(4, 4), '⣿');
}

#[test]
fn braille_caps_columns_at_four_dots() {
    assert_eq!(braille(9, 200), braille(4, 4));
    assert_eq!(braille(5, 0), '\u{2847}');
}

#[test]
fn wave_rows_layer_front_over_back() {
    // Two rows, eight dots high. Front: 0,5 | 8,0. Back: 3,1 | 0,0 | 2,2.
    let front = vec![0u8, 5, 8, 0];
    let back = vec![3u8, 1, 0, 0, 2, 2];
    // Top row: only the dots above the fourth show; the empty cell carries the
    // rule, which a two-row chart draws on its top row.
    assert_eq!(
        wave_row(&front, &back, 3, 2, 0),
        vec![(braille(0, 1), Layer::Front), (braille(4, 0), Layer::Front), ('⠒', Layer::Faint)]
    );
    // Bottom row: the union of both series; only the back one reaches the last cell.
    assert_eq!(
        wave_row(&front, &back, 3, 2, 1),
        vec![(braille(3, 4), Layer::Front), (braille(4, 0), Layer::Front), (braille(2, 2), Layer::Back)]
    );
}

#[test]
fn empty_wave_cells_show_floor_and_rule() {
    let none: Vec<u8> = Vec::new();
    // Three rows: the rule sits on the middle one, the zero line at the bottom.
    assert_eq!(wave_row(&none, &none, 2, 3, 0), vec![(' ', Layer::Faint); 2]);
    assert_eq!(wave_row(&none, &none, 2, 3, 1), vec![('⠒', Layer::Faint); 2]);
    assert_eq!(wave_row(&none, &none, 2, 3, 2), vec![('⣀', Layer::Faint); 2]);
    // Four rows: half of three rounds up to two rows above the bottom one.
    assert_eq!(wave_row(&none, &none, 1, 4, 1), vec![('⠒', Layer::Faint)]);
    assert_eq!(wave_row(&none, &none, 1, 4, 2), vec![(' ', Layer::Faint)]);
    // One row: bottom and rule at once; the zero line wins.
    assert_eq!(wave_row(&none, &none, 1, 1, 0), vec![('⣀', Layer::Faint)]);
    assert!(wave_row(&none, &none, 0, 1, 0).is_empty());
}
