use holligerme::codegen::{
    generate_badge_file, generate_posts_file, parse_internal_image_csv, process_internal_images_to_file,
    zip_images_and_paths_to_file,
};
use holligerme::image::Image;
use holligerme::posts::{Post, PostDate};

fn image(path: &str, codec: &str, width: usize) -> Image {
    Image { width, height: 1, path: path.to_string(), codec: codec.to_string(), animated: false, cached: true }
}

#[test]
fn badge_source_embeds_images() {
    let src = generate_badge_file(vec![(
        "me".to_string(),
        "https://me.org".to_string(),
        vec!["/w/1_88.webp".to_string(), "/w/1_88.png".to_string()],
    )]);
    assert!(src.starts_with(
        "// This file was auto generated, do not modify!\n\npub const BADGE_HTML: &str = \"<a href=\\\"https://me.org\\\" target=\\\"_blank\\\"><picture class=\\\"eightyeightthirtyone\\\"><source alt=\\\"me\\\" srcset=\\\"/88x31/me.webp\\\" type=\\\"image/webp\\\"><img alt=\\\"me\\\" width=\\\"88\\\" height=\\\"31\\\" src=\\\"/88x31/me.png\\\"></picture></a>\";\n\nstatic BADGE_DATA: phf::Map<&'static str, &[u8]> = "
    ));
    assert!(src.contains("\"me.webp\""));
    assert!(src.contains("_bytes!(\"/w/1_88.png\")"));
    assert!(src.ends_with(";"));
}

#[test]
fn image_source_embeds_each_published_file() {
    let src = zip_images_and_paths_to_file(vec![(image("/w/p/9_600.jxl", "jxl", 600), "/generated/9_600.jxl".to_string())]);
    assert!(src.starts_with("// This file was auto generated, do not modify!\n\nstatic IMAGES: phf::Map<&'static str, &[u8]> = "));
    assert!(src.contains("\"/generated/9_600.jxl\""));
    assert!(src.contains("_bytes!(\"/w/p/9_600.jxl\")"));
}

#[test]
fn internal_image_list() {
    assert_eq!(
        parse_internal_image_csv("assets/a.jpg,600,300\nassets/b.png\n"),
        Some(vec![("assets/a.jpg".to_string(), vec![600, 300]), ("assets/b.png".to_string(), vec![])])
    );
    assert_eq!(parse_internal_image_csv("x,abc\n"), None);
    assert_eq!(parse_internal_image_csv(""), Some(vec![]));
}

#[test]
fn internal_images_source() {
    let (served, src) = process_internal_images_to_file(vec![(
        "assets/a.jpg".to_string(),
        vec![image("/w/p/7_600.jxl", "jxl", 600), image("/w/p/7_600.webp", "webp", 600)],
    )]);
    assert_eq!(served.len(), 2);
    assert_eq!(served[1].1, "/generated/7_600.webp");
    assert!(src.starts_with("// This file was auto generated, do not modify!\n\npub static INTERNAL_IMAGES: phf::Map<&'static str, &str> = "));
    assert!(src.contains("\"assets/a.jpg\""));
    assert!(src.contains("<picture><source srcset=\\\"/generated/7_600.jxl 600w\\\" type=\\\"image/jxl\\\">"));
}

#[test]
fn posts_source_lists_posts_newest_first() {
    let p = |slug: &str, t: i64| Post {
        slug: slug.to_string(),
        title: slug.to_uppercase(),
        date: PostDate { timestamp: t, day: format!("day{}", t) },
        description: "d".to_string(),
        tags: Vec::new(),
        text: "<p>a\\b</p>".to_string(),
    };
    let src = generate_posts_file(vec![p("old", 1), p("new", 2)]);
    assert!(src.starts_with(
        "// This file was auto generated, do not modify!\n\npub static POST_INDEX_HTML: &str = \"<div class=\\\"posts\\\"><ul><li><span>day2: <a href=\\\"/posts/new\\\">NEW</a>"
    ));
    assert!(src.contains("\"old\""));
    assert!(src.contains("<p>a\\\\b</p>"));
    assert!(src.contains("// title, description, content"));
}
