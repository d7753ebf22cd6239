use wdm::errscreen::{is_stale, size_for, Cached, Glyph, Image, FONT_CANDIDATES};
use wdm::render::{pointer_image, POINTER_SIZE};

/// Letters of eight by eight pixels, solid, wrapped to the width of the image.
fn letters(message: &str, width: i32) -> Vec<Glyph> {
    let per_line = (width / 8).max(1);
    message
        .chars()
        .enumerate()
        .map(|(i, _)| Glyph {
            x: (i as i32 % per_line) * 8,
            y: (i as i32 / per_line) * 8,
            width: 8,
            height: 8,
            coverage: vec![0xff; 64],
        })
        .collect()
}

fn render(message: &str, width: i32, height: i32) -> Image {
    wdm::errscreen::render(&letters(message, width), width, height)
}

#[test]
fn image_has_the_requested_size() {
    let image = render("greeter exited", 320, 200);
    assert_eq!(image.width, 320);
    assert_eq!(image.height, 200);
    assert_eq!(image.data.len(), 320 * 200 * 4);
}

#[test]
fn degenerate_sizes_do_not_panic() {
    for (w, h) in [(0, 0), (1, 1), (-5, 10)] {
        let image = render("x", w, h);
        assert!(image.width >= 1 && image.height >= 1);
        assert_eq!(image.data.len(), (image.width * image.height * 4) as usize);
    }
}

#[test]
fn background_is_opaque() {
    let image = render("", 8, 8);
    for pixel in image.data.chunks(4) {
        assert_eq!(pixel[3], 0xff);
    }
}

#[test]
fn text_is_drawn_when_a_font_exists() {
    let blank = render("", 400, 200);
    let with_text = render("greeter exited 139 — switch to tty1", 400, 200);
    assert_ne!(
        blank.data, with_text.data,
        "message did not change any pixels"
    );
}

#[test]
fn long_messages_stay_inside_the_image() {
    let message = "greeter exited with a very long diagnostic message that would \
                   certainly not fit on a single line of a small display — switch to tty1";
    let image = render(message, 320, 240);
    assert_eq!(image.data.len(), 320 * 240 * 4);
}

#[test]
fn letters_are_mixed_with_the_background() {
    let glyph = Glyph {
        x: 1,
        y: 0,
        width: 1,
        height: 1,
        coverage: vec![128],
    };
    let image = wdm::errscreen::render(&vec![glyph], 2, 1);
    assert_eq!(&image.data[..4], &[0x2b, 0x0b, 0x0b, 0xff]);
    let mixed = |over: u32, under: u32| ((over * 128 + under * 127) / 255) as u8;
    assert_eq!(
        &image.data[4..],
        &[mixed(0xf2, 0x2b), mixed(0xe8, 0x0b), mixed(0xe8, 0x0b), 0xff]
    );
}

#[test]
fn letters_outside_the_image_are_cut() {
    let glyph = Glyph {
        x: -4,
        y: 6,
        width: 8,
        height: 8,
        coverage: vec![0xff; 64],
    };
    let image = wdm::errscreen::render(&vec![glyph], 8, 8);
    let blank = wdm::errscreen::render(&vec![], 8, 8);
    let changed = (0..64)
        .filter(|i| image.data[i * 4] != blank.data[i * 4])
        .count();
    assert_eq!(changed, 8);
}

#[test]
fn the_error_screen_is_drawn_anew_only_when_it_changes() {
    assert!(is_stale(&None, "x", (8, 8)));
    let cached = Some(Cached {
        reason: "x".to_owned(),
        size: (8, 8),
    });
    assert!(!is_stale(&cached, "x", (8, 8)));
    assert!(is_stale(&cached, "y", (8, 8)));
    assert!(is_stale(&cached, "x", (8, 9)));
}

#[test]
fn fonts_are_looked_for_in_several_places() {
    assert!(FONT_CANDIDATES.iter().all(|p| p.ends_with(".ttf")));
}

#[test]
fn the_pointer_is_an_arrow() {
    let image = pointer_image();
    assert_eq!((image.width, image.height), POINTER_SIZE);
    assert_eq!(image.data.len(), 12 * 19 * 4);
    // The tip is solid, and what is right of it is transparent.
    assert_eq!(image.data[3], 0xff);
    assert_eq!(&image.data[4..8], &[0, 0, 0, 0]);
    // Inside, a row is white.
    let inside = (5 * 12 + 2) * 4;
    assert_eq!(&image.data[inside..inside + 4], &[0xff, 0xff, 0xff, 0xff]);
}

#[test]
fn an_output_without_a_mode_gets_a_screen_of_the_usual_size() {
    assert_eq!(size_for(Some((1920, 1080))), (1920, 1080));
    assert_eq!(size_for(None), (640, 480));
}
