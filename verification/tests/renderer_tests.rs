use rats::buffer_display::ImageDisplay;
use rats::buffer_display::ImageDisplayState;
use rats::camera::Camera;
use rats::maths::Vec3;
use rats::renderer::FrameBuffer;
use rats::renderer::Renderer;
use rats::terminal::TerminalPixel;

const ONE: i64 = 65536;

#[test]
fn frame_buffer_starts_blank_and_stores_cells() {
    let mut buffer = FrameBuffer::new(3, 2);
    assert_eq!(buffer.get_size(), (3, 2));
    assert_eq!(buffer.get_pixel(2, 1).character, ' ');
    let cell = TerminalPixel::new(
        rats::color::Color::white(),
        rats::color::Color::black(),
        '\u{28FF}',
    );
    buffer.set_pixel(2, 1, cell);
    assert_eq!(buffer.get_pixel(2, 1).character, '\u{28FF}');
    assert_eq!(buffer.get_pixel(0, 0).character, ' ');
}

#[test]
fn camera_maps_the_first_pixel() {
    // a 2x2 viewport with square cells and focal length one: the first
    // pixel center sits half a cell in from the upper-left corner
    let camera = Camera::new(2 * ONE, 2 * ONE, ONE, ONE, Vec3::zero());
    let ray = camera.get_pixel_ray(0, 0);
    assert_eq!(ray.origin, Vec3::zero());
    assert_eq!(ray.direction, Vec3::new(-32768, 32768, -ONE));
    // fractional coordinates may be negative: half a pixel to the left
    let off = camera.get_pixel_ray(-32768, 0);
    assert_eq!(off.direction, Vec3::new(-ONE, 32768, -ONE));
}

#[test]
fn renderer_starts_at_zero_progress_over_the_default_scene() {
    let renderer = Renderer::new(4, 3);
    assert_eq!(renderer.get_progress_percentage(), 0);
    assert_eq!(renderer.get_scene_object_count(), 5);
    assert_eq!(renderer.get_render_duration(), 0);
    assert_eq!(renderer.get_color_buffer().get_size(), (4, 3));
}

#[test]
fn advancing_completes_and_then_idles() {
    let height = 3;
    let mut renderer = Renderer::new(2, height);
    // each call renders at least one row, so `height` calls complete the frame
    for _ in 0..height {
        renderer.render_step();
    }
    assert_eq!(renderer.get_progress_percentage(), 65536);

    // further calls are no-ops: the image does not change
    let before: Vec<char> = (0..2).map(|x| renderer.get_color_buffer().get_pixel(x, 1).character).collect();
    let before_colors: Vec<(i64, i64)> = (0..2)
        .map(|x| {
            let p = renderer.get_color_buffer().get_pixel(x, 1);
            (p.fg.x, p.bg.x)
        })
        .collect();
    renderer.render_step();
    assert_eq!(renderer.get_progress_percentage(), 65536);
    let after: Vec<char> = (0..2).map(|x| renderer.get_color_buffer().get_pixel(x, 1).character).collect();
    let after_colors: Vec<(i64, i64)> = (0..2)
        .map(|x| {
            let p = renderer.get_color_buffer().get_pixel(x, 1);
            (p.fg.x, p.bg.x)
        })
        .collect();
    assert_eq!(before, after);
    assert_eq!(before_colors, after_colors);
}

#[test]
fn progress_is_strictly_partial_before_completion() {
    let mut renderer = Renderer::new(2, 0x2000);
    assert_eq!(renderer.get_progress_percentage(), 0);
    renderer.render_step();
    let p = renderer.get_progress_percentage();
    assert!(p > 0);
}

#[test]
fn display_maps_cells_one_to_one_at_unit_zoom() {
    let buffer = FrameBuffer::new(4, 4);
    let display = ImageDisplay::new(&buffer);
    let state = ImageDisplayState { x: 0, y: 0, zoom: ONE };
    // with the area matching the image, every cell maps to itself
    assert_eq!(display.source_pixel(&state, 1, 2, 4, 4), Some((1, 2)));
    assert_eq!(display.source_pixel(&state, 0, 0, 4, 4), Some((0, 0)));
    // panning right by one cell shifts the source leftward out of range
    let panned = ImageDisplayState { x: 4 * ONE, y: 0, zoom: ONE };
    assert_eq!(display.source_pixel(&panned, 0, 0, 4, 4), None);
    assert_eq!(display.source_pixel(&panned, 4, 0, 4, 4), Some((0, 0)));
}
