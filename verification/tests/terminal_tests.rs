use rats::color::Color;
use rats::terminal::corresponding_braille_char;
use rats::terminal::foreground_background_detection;
use rats::terminal::RenderPixel;

#[test]
fn test_bitmask_to_braille() {
    // Single braille dots: ⠁⠈⠂⠐⠄⠠⡀⢀
    assert_eq!(corresponding_braille_char(0b0000_0000), '⠀');

    assert_eq!(corresponding_braille_char(0b0000_0001), '⠁');
    assert_eq!(corresponding_braille_char(0b0000_0010), '⠈');
    assert_eq!(corresponding_braille_char(0b0000_0100), '⠂');
    assert_eq!(corresponding_braille_char(0b0000_1000), '⠐');
    assert_eq!(corresponding_braille_char(0b0001_0000), '⠄');
    assert_eq!(corresponding_braille_char(0b0010_0000), '⠠');
    assert_eq!(corresponding_braille_char(0b0100_0000), '⡀');
    assert_eq!(corresponding_braille_char(0b1000_0000), '⢀');

    assert_eq!(corresponding_braille_char(0b0001_0101), '⠇');
    assert_eq!(corresponding_braille_char(0b1111_0000), '⣤');
    assert_eq!(corresponding_braille_char(0b1111_1111), '⣿');
}

#[test]
fn kmeans_cluster_left_right() {
    // left column black, right column white, row-major
    let colors = [
        Color::black(),
        Color::white(),
        Color::black(),
        Color::white(),
        Color::black(),
        Color::white(),
        Color::black(),
        Color::white(),
    ];
    let mut first_cluster = [false; 8];
    let (color_first, color_second) = foreground_background_detection(&colors, &mut first_cluster);

    assert_eq!(color_first, Color::black());
    assert_eq!(color_second, Color::white());
}

#[test]
fn top_left_subpixel_to_braille() {
    let mut render_pixel = RenderPixel::new();
    render_pixel.set_color(0, 0, Color::white());
    render_pixel.set_color(1, 0, Color::black());
    render_pixel.set_color(0, 1, Color::black());
    render_pixel.set_color(1, 1, Color::black());
    render_pixel.set_color(0, 2, Color::black());
    render_pixel.set_color(1, 2, Color::black());
    render_pixel.set_color(0, 3, Color::black());
    render_pixel.set_color(1, 3, Color::black());

    let terminal_pixel = render_pixel.to_terminal_pixel();
    assert_eq!(terminal_pixel.character, '⣾');
}

#[test]
fn top_right_subpixel_to_braille() {
    let mut render_pixel = RenderPixel::new();
    render_pixel.set_color(0, 0, Color::white());
    render_pixel.set_color(1, 0, Color::black());
    render_pixel.set_color(0, 1, Color::white());
    render_pixel.set_color(1, 1, Color::white());
    render_pixel.set_color(0, 2, Color::white());
    render_pixel.set_color(1, 2, Color::white());
    render_pixel.set_color(0, 3, Color::white());
    render_pixel.set_color(1, 3, Color::white());

    let terminal_pixel = render_pixel.to_terminal_pixel();
    assert_eq!(terminal_pixel.character, '⠈');
}

#[test]
fn bottom_left_subpixel_to_braille() {
    let mut render_pixel = RenderPixel::new();
    render_pixel.set_color(0, 0, Color::white());
    render_pixel.set_color(1, 0, Color::white());
    render_pixel.set_color(0, 1, Color::white());
    render_pixel.set_color(1, 1, Color::white());
    render_pixel.set_color(0, 2, Color::white());
    render_pixel.set_color(1, 2, Color::white());
    render_pixel.set_color(0, 3, Color::black());
    render_pixel.set_color(1, 3, Color::white());

    let terminal_pixel = render_pixel.to_terminal_pixel();
    assert_eq!(terminal_pixel.character, '⡀');
}

#[test]
fn uniform_cell_keeps_its_color() {
    // all eight samples equal: both cluster means are that color and the
    // marks are left untouched
    let c = Color::new(1000, 2000, 3000);
    let colors = [c; 8];
    let mut marks = [false; 8];
    let (fg, bg) = foreground_background_detection(&colors, &mut marks);
    assert_eq!(fg, c);
    assert_eq!(bg, c);
    assert_eq!(marks, [false; 8]);
}

#[test]
fn uniform_cell_maps_to_blank_glyph() {
    let c = Color::new(1000, 2000, 3000);
    let mut render_pixel = RenderPixel::new();
    for y in 0..4 {
        for x in 0..2 {
            render_pixel.set_color(x, y, c);
        }
    }
    let terminal_pixel = render_pixel.to_terminal_pixel();
    assert_eq!(terminal_pixel.character, '\u{2800}');
    assert_eq!(terminal_pixel.bg, c);
    // a dark background gets white text for contrast
    assert_eq!(terminal_pixel.fg, Color::white());
}

#[test]
fn average_color_is_the_mean() {
    let mut render_pixel = RenderPixel::new();
    for y in 0..4 {
        render_pixel.set_color(0, y, Color::black());
        render_pixel.set_color(1, y, Color::white());
    }
    let avg = render_pixel.average_color();
    assert_eq!(avg, Color::new(32768, 32768, 32768));
}

#[test]
fn get_color_returns_what_was_set() {
    let mut render_pixel = RenderPixel::new();
    assert_eq!(render_pixel.get_color(1, 2), Color::black());
    render_pixel.set_color(1, 2, Color::pink());
    assert_eq!(render_pixel.get_color(1, 2), Color::pink());
    assert_eq!(render_pixel.get_color(0, 2), Color::black());
}
