use wisp::pictures::{to_rgba, Channels, Pictures};

fn red(width: u32, height: u32) -> Vec<u8> {
    [255u8, 0, 0, 255].repeat((width * height) as usize)
}

#[test]
fn a_picture_can_be_read_back_where_it_was_put() {
    let mut pictures = Pictures::new(64);
    let picture = pictures.add("one", 2, 2, &red(2, 2)).expect("room");
    assert_eq!((picture.width, picture.height), (2, 2));
    let x = picture.x;
    let y = picture.y;
    let at = ((y * 64 + x) * 4) as usize;
    assert_eq!(&pictures.pixels()[at..at + 4], &[255, 0, 0, 255]);
}

#[test]
fn the_same_name_twice_is_the_same_picture() {
    // Adding it again would pack a second copy and quietly halve the
    // atlas every time a window was rebuilt.
    let mut pictures = Pictures::new(64);
    let first = pictures.add("one", 2, 2, &red(2, 2)).unwrap();
    let second = pictures.add("one", 8, 8, &red(8, 8)).unwrap();
    assert_eq!(first, second);
}

#[test]
fn pictures_do_not_land_on_top_of_each_other() {
    let mut pictures = Pictures::new(64);
    let a = pictures.add("a", 8, 8, &red(8, 8)).unwrap();
    let b = pictures.add("b", 8, 8, &red(8, 8)).unwrap();
    assert_ne!((a.x, a.y), (b.x, b.y));
}

#[test]
fn pictures_a_full_atlas_says_so_rather_than_failing() {
    let mut pictures = Pictures::new(16);
    assert!(pictures.add("small", 8, 8, &red(8, 8)).is_some());
    assert!(pictures.add("huge", 64, 64, &red(64, 64)).is_none());
}

#[test]
fn pictures_only_what_changed_is_reported_as_dirty() {
    let mut pictures = Pictures::new(64);
    pictures.add("one", 4, 4, &red(4, 4)).unwrap();
    let (l, t, r, b) = pictures.take_dirty().expect("something was written");
    assert!(r - l <= 5 && b - t <= 5);
    assert_eq!(pictures.take_dirty(), None);
}

#[test]
fn pixels_that_are_not_there_are_refused() {
    // A caller that says 8x8 and hands over four pixels would otherwise
    // read past the end of its own buffer.
    let mut pictures = Pictures::new(64);
    assert!(pictures.add("short", 8, 8, &red(1, 1)).is_none());
    assert!(pictures.add("empty", 0, 0, &[]).is_none());
}

#[test]
fn a_picture_can_be_found_again_by_name() {
    let mut pictures = Pictures::new(64);
    assert_eq!(pictures.get("one"), None);
    let slot = pictures.add("one", 2, 2, &red(2, 2)).unwrap();
    assert_eq!(pictures.get("one"), Some(slot));
    assert_eq!(pictures.get("two"), None);
}

#[test]
fn a_refused_picture_is_not_remembered() {
    let mut pictures = Pictures::new(64);
    assert!(pictures.add("short", 8, 8, &red(1, 1)).is_none());
    assert_eq!(pictures.get("short"), None);
    assert!(pictures.add("short", 1, 1, &red(1, 1)).is_some());
}

#[test]
fn rgb_pixels_are_made_opaque() {
    let rgba = to_rgba(Channels::Rgb, &[1, 2, 3, 4, 5, 6, 7]).unwrap();
    assert_eq!(rgba, vec![1, 2, 3, 255, 4, 5, 6, 255]);
}

#[test]
fn rgba_pixels_are_kept_as_they_are() {
    let rgba = to_rgba(Channels::Rgba, &[1, 2, 3, 4]).unwrap();
    assert_eq!(rgba, vec![1, 2, 3, 4]);
}

#[test]
fn other_layouts_are_refused_rather_than_guessed_at() {
    assert_eq!(to_rgba(Channels::Other, &[1, 2, 3, 4]), None);
}

fn encoded(width: u32, height: u32, colour: png::ColorType, data: &[u8]) -> Vec<u8> {
    let mut bytes = Vec::new();
    let mut encoder = png::Encoder::new(&mut bytes, width, height);
    encoder.set_color(colour);
    encoder.set_depth(png::BitDepth::Eight);
    let mut writer = encoder.write_header().unwrap();
    writer.write_image_data(data).unwrap();
    writer.finish().unwrap();
    bytes
}

#[test]
fn a_png_is_decoded_and_its_rgb_made_opaque() {
    let mut pictures = Pictures::new(64);
    let file = encoded(2, 1, png::ColorType::Rgb, &[10, 20, 30, 40, 50, 60]);
    let picture = pictures.add_png("logo", &file).expect("a small rgb png fits");
    assert_eq!((picture.width, picture.height), (2, 1));
    let at = ((picture.y * 64 + picture.x) * 4) as usize;
    assert_eq!(&pictures.pixels()[at..at + 8], &[10, 20, 30, 255, 40, 50, 60, 255]);
    assert_eq!(pictures.get("logo"), Some(picture));
}

#[test]
fn a_png_with_alpha_keeps_it() {
    let mut pictures = Pictures::new(64);
    let file = encoded(1, 1, png::ColorType::Rgba, &[1, 2, 3, 4]);
    let picture = pictures.add_png("dot", &file).unwrap();
    let at = ((picture.y * 64 + picture.x) * 4) as usize;
    assert_eq!(&pictures.pixels()[at..at + 4], &[1, 2, 3, 4]);
}

#[test]
fn bytes_that_are_not_a_png_are_refused() {
    let mut pictures = Pictures::new(64);
    assert_eq!(pictures.add_png("junk", b"not a picture"), None);
    assert_eq!(pictures.get("junk"), None);
    assert_eq!(pictures.take_dirty(), None);
}

#[test]
fn a_greyscale_png_is_refused_rather_than_guessed_at() {
    let mut pictures = Pictures::new(64);
    let file = encoded(1, 1, png::ColorType::Grayscale, &[128]);
    assert_eq!(pictures.add_png("grey", &file), None);
    assert_eq!(pictures.get("grey"), None);
}

#[test]
fn a_png_under_a_name_already_there_is_not_read() {
    let mut pictures = Pictures::new(64);
    let first = pictures.add("logo", 2, 2, &red(2, 2)).unwrap();
    assert_eq!(pictures.add_png("logo", b"not a picture"), Some(first));
}

#[test]
fn a_sixteen_bit_png_is_refused_rather_than_read_as_bytes() {
    let mut bytes = Vec::new();
    let mut encoder = png::Encoder::new(&mut bytes, 1, 1);
    encoder.set_color(png::ColorType::Rgba);
    encoder.set_depth(png::BitDepth::Sixteen);
    let mut writer = encoder.write_header().unwrap();
    writer.write_image_data(&[1, 2, 3, 4, 5, 6, 7, 8]).unwrap();
    writer.finish().unwrap();
    let mut pictures = Pictures::new(64);
    assert_eq!(pictures.add_png("deep", &bytes), None);
    assert_eq!(pictures.get("deep"), None);
    assert_eq!(pictures.take_dirty(), None);
}
