use snake_game::color::{black, orange, rainbow, red, white, Color};
use snake_game::draw::{draw_circle, draw_pixel, draw_rectangle, Font, Sprite, Surface};
use snake_game::util::distance_squared;

fn c(r: u8, g: u8, b: u8) -> Color {
    Color { r, g, b }
}

#[test]
fn surface_new_is_black() {
    let s = Surface::new(4, 3);
    assert_eq!(s.width, 4);
    assert_eq!(s.height, 3);
    assert_eq!(s.data.len(), 36);
    assert!(s.data.iter().all(|&b| b == 0));
}

// A single pixel lands in the rotated, vertically flipped layout, bytes in
// BGR order.
#[test]
fn pixel_layout_and_byte_order() {
    // physical 1 x 1: one logical pixel at (0, 0)
    let mut s = Surface::new(1, 1);
    draw_pixel(&mut s, 0, 0, c(10, 20, 30));
    assert_eq!(s.data, vec![30, 20, 10]);

    // physical width 2 (logical height 2): logical (0, 0) is the bottom of
    // the first column, i.e. byte offset 3
    let mut s = Surface::new(2, 1);
    draw_pixel(&mut s, 0, 0, c(1, 2, 3));
    assert_eq!(s.data, vec![0, 0, 0, 3, 2, 1]);
    draw_pixel(&mut s, 0, 1, c(4, 5, 6));
    assert_eq!(s.data, vec![6, 5, 4, 3, 2, 1]);
}

#[test]
fn pixel_out_of_range_is_dropped() {
    let mut s = Surface::new(4, 3);
    let zeros = s.data.clone();
    draw_pixel(&mut s, -1, 0, white());
    draw_pixel(&mut s, 0, -1, white());
    draw_pixel(&mut s, 3, 0, white()); // logical width is 3
    draw_pixel(&mut s, 0, 4, white()); // logical height is 4
    assert_eq!(s.data, zeros);
}

// The rectangle writes its color to exactly the covered in-range cells and
// to no other pixel.
#[test]
fn rectangle_writes_exactly_its_cells() {
    // physical 8 x 6: logical 6 wide, 8 tall
    let mut s = Surface::new(8, 6);
    let col = c(9, 8, 7);
    draw_rectangle(&mut s, 1, 2, 3, 4, col);
    for x in 0..6isize {
        for y in 0..8isize {
            let got = s.get_pixel(x, y).unwrap();
            let inside = x >= 1 && x < 4 && y >= 2 && y < 6;
            if inside {
                assert_eq!(got, col, "pixel ({x},{y})");
            } else {
                assert_eq!(got, c(0, 0, 0), "pixel ({x},{y})");
            }
        }
    }
}

#[test]
fn rectangle_clips_to_surface() {
    let mut s = Surface::new(8, 6);
    let col = white();
    draw_rectangle(&mut s, -2, -2, 100, 100, col);
    for x in 0..6isize {
        for y in 0..8isize {
            assert_eq!(s.get_pixel(x, y).unwrap(), col);
        }
    }
}

#[test]
fn rectangle_with_nonpositive_size_draws_nothing() {
    let mut s = Surface::new(8, 6);
    let zeros = s.data.clone();
    draw_rectangle(&mut s, 2, 2, 0, 5, white());
    draw_rectangle(&mut s, 2, 2, 5, 0, white());
    draw_rectangle(&mut s, 2, 2, -3, -3, white());
    assert_eq!(s.data, zeros);
}

// The circle paints exactly the integer points with squared distance below
// r * r.
#[test]
fn circle_matches_distance_rule() {
    let mut s = Surface::new(9, 9);
    let col = red();
    draw_circle(&mut s, 4, 4, 3, col);
    for x in 0..9isize {
        for y in 0..9isize {
            let got = s.get_pixel(x, y).unwrap();
            let inside = (x - 4) * (x - 4) + (y - 4) * (y - 4) < 9;
            if inside {
                assert_eq!(got, col, "pixel ({x},{y})");
            } else {
                assert_eq!(got, c(0, 0, 0), "pixel ({x},{y})");
            }
        }
    }
}

#[test]
fn circle_with_negative_radius_draws_nothing() {
    let mut s = Surface::new(9, 9);
    let zeros = s.data.clone();
    draw_circle(&mut s, 4, 4, -2, red());
    assert_eq!(s.data, zeros);
}

#[test]
fn distance_squared_exact() {
    assert_eq!(distance_squared(0, 0, 3, 4), 25);
    assert_eq!(distance_squared(3, 4, 0, 0), 25);
    assert_eq!(distance_squared(-1, -1, 2, 3), 25);
    assert_eq!(distance_squared(5, 5, 5, 5), 0);
}

#[test]
fn sprite_new_groups_bytes() {
    let raw: Vec<u8> = vec![1, 2, 3, 4, 5, 6, 7, 8, 9, 10, 11, 12];
    let sp = Sprite::new(2, 2, raw.as_slice());
    assert_eq!(sp.width, 2);
    assert_eq!(sp.height, 2);
    assert_eq!(sp.data.len(), 4);
    assert_eq!(sp.data[0], c(1, 2, 3));
    assert_eq!(sp.data[3], c(10, 11, 12));
}

#[test]
fn sprite_draw_places_pixels_row_major() {
    let raw: Vec<u8> = vec![1, 1, 1, 2, 2, 2, 3, 3, 3, 4, 4, 4];
    let sp = Sprite::new(2, 2, raw.as_slice());
    let mut s = Surface::new(8, 6);
    sp.draw(&mut s, 1, 2);
    assert_eq!(s.get_pixel(1, 2).unwrap(), c(1, 1, 1));
    assert_eq!(s.get_pixel(2, 2).unwrap(), c(2, 2, 2));
    assert_eq!(s.get_pixel(1, 3).unwrap(), c(3, 3, 3));
    assert_eq!(s.get_pixel(2, 3).unwrap(), c(4, 4, 4));
    assert_eq!(s.get_pixel(0, 2).unwrap(), c(0, 0, 0));
    assert_eq!(s.get_pixel(3, 2).unwrap(), c(0, 0, 0));
}

#[test]
fn default_font_has_ten_digit_glyphs() {
    let f = Font::create_default_font();
    assert_eq!(f.spacing, 1);
    assert_eq!(f.line_height, 6);
    assert_eq!(f.glyphs.len(), 10);
    for (i, (ch, sp)) in f.glyphs.iter().enumerate() {
        assert_eq!(*ch, char::from_digit(i as u32, 10).unwrap());
        assert_eq!(sp.width, 3);
        assert_eq!(sp.height, 5);
        assert_eq!(sp.data.len(), 15);
    }
}

// Drawing a one-character text equals blitting the glyph directly.
#[test]
fn draw_text_single_glyph_matches_sprite() {
    let f = Font::create_default_font();
    let mut a = Surface::new(30, 30);
    let mut b = Surface::new(30, 30);
    f.draw_text(&mut a, "0", 2, 3, 20);
    f.glyphs[0].1.draw(&mut b, 2, 3);
    assert_eq!(a.data, b.data);
}

// A glyph that would end past the line width wraps to the next line.
#[test]
fn draw_text_wraps_lines() {
    let f = Font::create_default_font();
    let mut a = Surface::new(30, 30);
    let mut b = Surface::new(30, 30);
    // width 3: "1" fits at (0, 0); the next glyph (pen at 4) wraps
    f.draw_text(&mut a, "12", 0, 0, 3);
    f.glyphs[1].1.draw(&mut b, 0, 0);
    f.glyphs[2].1.draw(&mut b, 0, 6);
    assert_eq!(a.data, b.data);
}

// Characters without a glyph are skipped.
#[test]
fn draw_text_skips_unknown_characters() {
    let f = Font::create_default_font();
    let mut a = Surface::new(30, 30);
    let mut b = Surface::new(30, 30);
    f.draw_text(&mut a, "7", 0, 0, 20);
    f.draw_text(&mut b, "x7y", 0, 0, 20);
    assert_eq!(a.data, b.data);
}

#[test]
fn named_colors_and_rainbow() {
    assert_eq!(white(), c(255, 255, 255));
    assert_eq!(black(), c(0, 0, 0));
    assert_eq!(red(), c(255, 0, 0));
    assert_eq!(orange(), c(255, 127, 0));
    let rb = rainbow();
    assert_eq!(rb.len(), 12);
    assert_eq!(rb[0], c(255, 0, 0));
    assert_eq!(rb[11], c(255, 0, 255));
}
