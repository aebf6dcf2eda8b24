use holligerme::image::{
    file_violates_cache_rules, parse_identify, CommandOutput, IdentifyError, Image,
    CACHE_LIFETIME_SECS,
};

fn ok(text: &str) -> CommandOutput {
    CommandOutput { code: 0, text: text.to_string() }
}

#[test]
fn identify_reports_size_of_last_line() {
    let r = parse_identify("a.png PNG 800x600 800x600+0+0 8-bit sRGB 10KB 0.000u 0:00.000\n").unwrap();
    assert!(!r.animated);
    assert_eq!(r.size, Some((800, 600)));
}

#[test]
fn identify_sees_animation_frames() {
    let r = parse_identify("x.gif[0] GIF 100x50 100x50+0+0 8-bit\nx.gif[1] GIF 120x60 120x60+0+0 8-bit\n").unwrap();
    assert!(r.animated);
    assert_eq!(r.size, Some((120, 60)));
}

#[test]
fn identify_reads_fractional_sizes() {
    let r = parse_identify("a b c 100.5x20.2+0+0").unwrap();
    assert_eq!(r.size, Some((100, 20)));
}

#[test]
fn identify_errors() {
    assert_eq!(parse_identify("bad line").unwrap_err(), IdentifyError::MissingGeometry);
    assert_eq!(parse_identify("a b c 100x50").unwrap_err(), IdentifyError::MissingOffset);
    assert_eq!(parse_identify("a b c 100+0").unwrap_err(), IdentifyError::MissingSeparator);
    assert_eq!(parse_identify("a b c ax5+0").unwrap_err(), IdentifyError::BadWidth);
    assert_eq!(parse_identify("a b c 5xb+0").unwrap_err(), IdentifyError::BadHeight);
    assert_eq!(parse_identify("a b c 1x1+0\nbroken").unwrap_err(), IdentifyError::MissingGeometry);
    let empty = parse_identify("").unwrap();
    assert!(!empty.animated && empty.size.is_none());
}

#[test]
fn a_week_old_file_is_made_anew() {
    assert!(!file_violates_cache_rules(true, Some(0)));
    assert!(!file_violates_cache_rules(true, Some(CACHE_LIFETIME_SECS - 1)));
    assert!(file_violates_cache_rules(true, Some(CACHE_LIFETIME_SECS)));
    assert!(file_violates_cache_rules(true, None));
    assert!(file_violates_cache_rules(false, Some(0)));
    assert_eq!(CACHE_LIFETIME_SECS, 60 * 60 * 24 * 7);
}

#[test]
fn image_records_take_codec_and_size() {
    let img = Image::new("/a/b.c/photo.jpeg".to_string(), &ok("p JPEG 640x480 640x480+0+0 8-bit"));
    assert_eq!(img.codec, "jpeg");
    assert_eq!((img.width, img.height), (640, 480));
    assert!(img.cached && !img.animated);
    assert!(!img.file_violates_cache_rules(Some(10)));

    let failed = Image::new_with_cache_set("x.webp".to_string(), false, &CommandOutput { code: 1, text: "no such file".to_string() });
    assert_eq!((failed.width, failed.height), (0, 0));
    assert_eq!(failed.codec, "webp");
    assert!(failed.file_violates_cache_rules(Some(10)));

    let plain = Image::fresh("noext".to_string(), true);
    assert_eq!(plain.codec, "noext");
}

#[test]
fn moving_an_image_keeps_size_where_identify_fails() {
    let mut img = Image::new("a.webp".to_string(), &ok("a WEBP 300x200 300x200+0+0 8-bit"));
    img.update_path("cache/1.png".to_string(), &CommandOutput { code: 2, text: String::new() });
    assert_eq!(img.path, "cache/1.png");
    assert_eq!(img.codec, "png");
    assert_eq!((img.width, img.height), (300, 200));
    img.update_path("cache/2.png".to_string(), &ok("b PNG 30x20 30x20+0+0 8-bit"));
    assert_eq!((img.width, img.height), (30, 20));
}
