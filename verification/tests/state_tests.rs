use holligerme::state::{cached_html_or_placeholder, internal_image_or_placeholder, startup, Startup};

#[test]
fn empty_store_is_built_or_refused() {
    assert!(matches!(startup(0, true), Startup::Build));
    assert!(matches!(startup(1, true), Startup::Build));
    assert!(matches!(startup(1, false), Startup::Refuse));
    assert!(matches!(startup(2, false), Startup::Open));
    assert!(matches!(startup(5, true), Startup::Open));
}

#[test]
fn stored_html_reads_back() {
    let html = "<picture><img src=\"/generated/1_600.webp\"></picture>\n👋";
    assert_eq!(cached_html_or_placeholder(Some(html.as_bytes())), html);
    assert_eq!(internal_image_or_placeholder(Some(html.as_bytes())), html);
}

#[test]
fn missing_fragments_show_the_placeholder() {
    assert_eq!(cached_html_or_placeholder(None), "???");
    assert_eq!(internal_image_or_placeholder(None), "???");
}

#[test]
fn invalid_utf8_is_read_leniently_or_refused() {
    let bytes = [b'a', 0xff, b'b'];
    assert_eq!(cached_html_or_placeholder(Some(&bytes)), "a\u{fffd}b");
    assert_eq!(internal_image_or_placeholder(Some(&bytes)), "???");
}
