use raytracer::raster::{
    pixel_coords, render, shade_pixel, write_pixel, write_pixels, write_rgb_pixel,
    write_rgba_pixel, PixelFormat, Rgb8, OPAQUE,
};

fn gradient(x: u64, y: u64) -> Rgb8 {
    Rgb8 { red: x as u8, green: y as u8, blue: (x + y) as u8 }
}

#[test]
fn render_rgb_lays_pixels_out_row_major() {
    let mut buffer = vec![0u8; 2 * 3 * 3];
    render(2, &mut buffer, 3, gradient);
    assert_eq!(
        buffer,
        vec![0, 0, 0, 1, 0, 1, 0, 1, 1, 1, 1, 2, 0, 2, 2, 1, 2, 3]
    );
}

#[test]
fn render_rgba_writes_opaque_alpha() {
    let mut buffer = vec![7u8; 3 * 2 * 4];
    render(3, &mut buffer, 4, gradient);
    assert_eq!(
        buffer,
        vec![
            0, 0, 0, 255, 1, 0, 1, 255, 2, 0, 2, 255, 0, 1, 1, 255, 1, 1, 2, 255, 2, 1, 3, 255
        ]
    );
}

#[test]
fn render_with_unsupported_bytes_per_pixel_leaves_buffer_unchanged() {
    for bytes_per_pixel in [0u8, 1, 2, 5, 8, 255] {
        let before: Vec<u8> = (0..48u8).map(|byte| byte.wrapping_mul(37)).collect();
        let mut buffer = before.clone();
        render(4, &mut buffer, bytes_per_pixel, gradient);
        assert_eq!(buffer, before);
    }
}

#[test]
fn render_with_two_bytes_per_pixel_does_nothing_even_without_width() {
    let before = vec![9u8, 8, 7, 6];
    let mut buffer = before.clone();
    render(0, &mut buffer, 2, gradient);
    assert_eq!(buffer, before);
}

#[test]
fn render_leaves_bytes_behind_the_last_whole_pixel() {
    let mut buffer = vec![200u8; 8];
    render(2, &mut buffer, 3, gradient);
    assert_eq!(buffer, vec![0, 0, 0, 1, 0, 1, 200, 200]);

    let mut buffer = vec![200u8; 7];
    render(2, &mut buffer, 4, gradient);
    assert_eq!(buffer, vec![0, 0, 0, 255, 200, 200, 200]);
}

#[test]
fn render_of_buffer_without_a_whole_pixel_shades_nothing() {
    let mut buffer = vec![5u8, 6];
    render(0, &mut buffer, 3, |_, _| panic!("no pixel to shade"));
    assert_eq!(buffer, vec![5, 6]);

    let mut empty: Vec<u8> = Vec::new();
    render(0, &mut empty, 4, |_, _| panic!("no pixel to shade"));
    assert!(empty.is_empty());
}

#[test]
fn render_keeps_every_pixel_in_its_place_across_threads() {
    let width: u32 = 251;
    let height: usize = 199;
    let mut buffer = vec![0u8; width as usize * height * 3];
    render(width, &mut buffer, 3, |x, y| Rgb8 {
        red: (x % 256) as u8,
        green: (y % 256) as u8,
        blue: ((x * 31 + y * 17) % 256) as u8,
    });
    for index in 0..width as usize * height {
        let x = (index % width as usize) as u64;
        let y = (index / width as usize) as u64;
        assert_eq!(buffer[index * 3], (x % 256) as u8);
        assert_eq!(buffer[index * 3 + 1], (y % 256) as u8);
        assert_eq!(buffer[index * 3 + 2], ((x * 31 + y * 17) % 256) as u8);
    }
}

#[test]
fn pixel_coords_are_column_then_row() {
    assert_eq!(pixel_coords(0, 100), (0, 0));
    assert_eq!(pixel_coords(99, 100), (99, 0));
    assert_eq!(pixel_coords(100, 100), (0, 1));
    assert_eq!(pixel_coords(5050, 100), (50, 50));
    assert_eq!(pixel_coords(9999, 100), (99, 99));
    assert_eq!(pixel_coords(7, 1), (0, 7));
    assert_eq!(pixel_coords(usize::MAX, u32::MAX), {
        let index = usize::MAX as u64;
        let width = u32::MAX as u64;
        (index % width, index / width)
    });
}

#[test]
fn pixel_coords_invert_row_major_indexing() {
    let width: u32 = 13;
    for y in 0..9u64 {
        for x in 0..width as u64 {
            let index = (y * width as u64 + x) as usize;
            assert_eq!(pixel_coords(index, width), (x, y));
        }
    }
}

#[test]
fn shade_pixel_asks_the_shader_at_the_pixels_coordinates() {
    let color = shade_pixel(23, 10, &gradient);
    assert_eq!(color, Rgb8 { red: 3, green: 2, blue: 5 });
}

#[test]
fn pixel_format_from_bytes_per_pixel() {
    assert_eq!(PixelFormat::from_bytes_per_pixel(3), Some(PixelFormat::Rgb));
    assert_eq!(PixelFormat::from_bytes_per_pixel(4), Some(PixelFormat::Rgba));
    for other in [0u8, 1, 2, 5, 6, 16, 255] {
        assert_eq!(PixelFormat::from_bytes_per_pixel(other), None);
    }
    assert_eq!(PixelFormat::Rgb.bytes_per_pixel(), 3);
    assert_eq!(PixelFormat::Rgba.bytes_per_pixel(), 4);
}

#[test]
fn write_rgb_pixel_sets_three_bytes() {
    let mut pixel = [9u8, 9, 9];
    write_rgb_pixel(Rgb8 { red: 1, green: 2, blue: 3 }, &mut pixel);
    assert_eq!(pixel, [1, 2, 3]);

    let mut longer = [9u8, 9, 9, 9, 9];
    write_rgb_pixel(Rgb8 { red: 1, green: 2, blue: 3 }, &mut longer);
    assert_eq!(longer, [1, 2, 3, 9, 9]);
}

#[test]
fn write_rgba_pixel_sets_color_and_opaque_alpha() {
    assert_eq!(OPAQUE, 255);
    let mut pixel = [9u8, 9, 9, 9];
    write_rgba_pixel(Rgb8 { red: 10, green: 20, blue: 30 }, &mut pixel);
    assert_eq!(pixel, [10, 20, 30, 255]);
}

#[test]
fn write_pixel_follows_the_format() {
    let color = Rgb8 { red: 4, green: 5, blue: 6 };
    let mut rgb = [0u8; 3];
    write_pixel(color, &mut rgb, PixelFormat::Rgb);
    assert_eq!(rgb, [4, 5, 6]);
    let mut rgba = [0u8; 4];
    write_pixel(color, &mut rgba, PixelFormat::Rgba);
    assert_eq!(rgba, [4, 5, 6, 255]);
}

#[test]
fn write_pixels_fills_leading_pixels_only() {
    let colors = vec![
        Rgb8 { red: 1, green: 2, blue: 3 },
        Rgb8 { red: 4, green: 5, blue: 6 },
    ];
    let mut buffer = vec![77u8; 10];
    write_pixels(&colors, &mut buffer, PixelFormat::Rgb);
    assert_eq!(buffer, vec![1, 2, 3, 4, 5, 6, 77, 77, 77, 77]);

    let mut buffer = vec![77u8; 9];
    write_pixels(&colors, &mut buffer, PixelFormat::Rgba);
    assert_eq!(buffer, vec![1, 2, 3, 255, 4, 5, 6, 255, 77]);

    let mut untouched = vec![1u8, 2, 3];
    write_pixels(&Vec::new(), &mut untouched, PixelFormat::Rgb);
    assert_eq!(untouched, vec![1, 2, 3]);
}
