use holligerme::image::Image;
use holligerme::posts::{
    apply_compression_to_post_photos, get_posts_html, md_to_html, post_photo_sources,
    render_post_text, sort_posts_newest_first, try_build_post, Post, PostDate, PostError,
};

const SOURCE: &str = "---\ntitle: Hello <World>\ndescription: A test & more\ntags: [a, b]\ndate: 2024-01-02\n---\nSome *text* with $x^2$ inline.\n";

fn post(slug: &str, timestamp: i64, day: &str) -> Post {
    Post {
        slug: slug.to_string(),
        title: format!("Title {}", slug),
        date: PostDate { timestamp, day: day.to_string() },
        description: format!("About {}", slug),
        tags: Vec::new(),
        text: String::new(),
    }
}

fn image(path: &str, codec: &str, width: usize) -> Image {
    Image { width, height: 1, path: path.to_string(), codec: codec.to_string(), animated: false, cached: true }
}

#[test]
fn a_post_reads_its_front_matter_and_body() {
    let p = try_build_post("hello", SOURCE).unwrap();
    assert_eq!(p.slug, "hello");
    assert_eq!(p.title, "Hello <World>");
    assert_eq!(p.description, "A test & more");
    assert_eq!(p.tags, vec!["a".to_string(), "b".to_string()]);
    assert_eq!(p.date.day, "2024-01-02");
    assert_eq!(p.date.timestamp, 1704153600);
    assert!(p.text.starts_with("<p>Some <em>text</em> with "));
    assert!(p.text.contains("<math"));
    assert!(!p.text.contains("$x^2$"));
    assert!(p.text.ends_with(" inline.</p>\n"));
    let again = try_build_post("hello", SOURCE).unwrap();
    assert_eq!(again.text, p.text);
}

#[test]
fn a_body_without_equations_is_kept() {
    let src = "---\ntitle: T\ndescription: D\ndate: 2024-01-02\n---\nbody\n";
    let p = try_build_post("t", src).unwrap();
    assert!(p.tags.is_empty());
    assert_eq!(p.text, "<p>body</p>\n");
}

#[test]
fn a_date_with_a_time_needs_an_offset() {
    // The format for dates with a time ends in a literal `Z`, which gives no offset, so
    // chrono refuses every such date.
    let src = "---\ntitle: T\ndescription: D\ndate: 2024-01-02T10:20:30Z\n---\nbody\n";
    assert_eq!(try_build_post("t", src).unwrap_err(), PostError::BadDate);
}

#[test]
fn post_errors() {
    assert_eq!(try_build_post("x", "no front matter\n").unwrap_err(), PostError::NoFrontMatter);
    assert_eq!(try_build_post("x", "---\ndescription: D\ndate: 2024-01-02\n---\nb\n").unwrap_err(), PostError::MissingTitle);
    assert_eq!(try_build_post("x", "---\ntitle: T\ndate: 2024-01-02\n---\nb\n").unwrap_err(), PostError::MissingDescription);
    assert_eq!(try_build_post("x", "---\ntitle: T\ndescription: D\n---\nb\n").unwrap_err(), PostError::MissingDate);
    assert_eq!(try_build_post("x", "---\ntitle: T\ndescription: D\ndate: someday\n---\nb\n").unwrap_err(), PostError::BadDate);
    assert_eq!(try_build_post("x", "---\ntitle: T\ndescription: D\ntags: one\ndate: 2024-01-02\n---\nb\n").unwrap_err(), PostError::TagsNotList);
    assert_eq!(try_build_post("x", "---\ntitle: T\ndescription: D\ndate: 2024-01-02\n---\n```\n$\n```\n").unwrap_err(), PostError::StrayDollar);
}

#[test]
fn front_matter_values_of_the_wrong_kind() {
    assert_eq!(try_build_post("x", "---\n- a\n- b\n---\nb\n").unwrap_err(), PostError::FrontMatterNotTable);
    assert_eq!(try_build_post("x", "---\ntitle: 5\ndescription: D\ndate: 2024-01-02\n---\nb\n").unwrap_err(), PostError::TitleNotText);
    assert_eq!(try_build_post("x", "---\ntitle: T\ndescription: [d]\ndate: 2024-01-02\n---\nb\n").unwrap_err(), PostError::DescriptionNotText);
    assert_eq!(try_build_post("x", "---\ntitle: T\ndescription: D\ntags: [1, a]\ndate: 2024-01-02\n---\nb\n").unwrap_err(), PostError::TagNotText);
    assert_eq!(try_build_post("x", "---\ntitle: T\ndescription: D\ndate: 20240102\n---\nb\n").unwrap_err(), PostError::DateNotText);
}

#[test]
fn equations_in_html_lines() {
    assert_eq!(render_post_text("no math here\nline two").unwrap(), "no math here\nline two\n");
    assert_eq!(render_post_text("costs $ 5 and $ 6 ").unwrap(), "costs $ 5 and $ 6 \n");
    let r = render_post_text("a $y$ b").unwrap();
    assert!(r.starts_with("a ") && r.ends_with(" b\n") && r.contains("<math"));
    assert_eq!(render_post_text("$x").unwrap_err(), PostError::StrayDollar);
    assert_eq!(render_post_text("a $\\undefinedmacro$ b").unwrap_err(), PostError::EquationNotRendered);
    let wide = render_post_text("é $z$ ü").unwrap();
    assert!(wide.starts_with("é ") && wide.ends_with(" ü\n") && wide.contains("<math"));
}

#[test]
fn markdown_becomes_html() {
    assert_eq!(
        md_to_html("# Hi\n\nA <b>raw</b> [link](javascript:x)".to_string()),
        "<h1>Hi</h1>\n<p>A <b>raw</b> <a href=\"javascript:x\">link</a></p>"
    );
}

#[test]
fn posts_sort_newest_first_and_stably() {
    let posts = vec![post("a", 10, "d1"), post("b", 30, "d3"), post("c", 20, "d2"), post("d", 30, "d3")];
    let sorted = sort_posts_newest_first(posts);
    let slugs: Vec<&str> = sorted.iter().map(|p| p.slug.as_str()).collect();
    assert_eq!(slugs, vec!["b", "d", "c", "a"]);
}

#[test]
fn post_lists_show_the_first_posts() {
    let posts = vec![post("a<", 10, "2024-01-01"), post("b", 5, "2023-01-01")];
    assert_eq!(
        get_posts_html(&posts, 1),
        "<div class=\"posts\"><ul><li><span>2024-01-01: <a href=\"/posts/a&lt;\">Title a&lt;</a><p class=\"description\">About a&lt;</p></span></li></ul></div>"
    );
    assert_eq!(get_posts_html(&posts, 0), "<div class=\"posts\"><ul></ul></div>");
    assert_eq!(get_posts_html(&posts, 9).matches("<li>").count(), 2);
}

#[test]
fn photos_in_a_post_become_pictures() {
    let mut p = post("p", 1, "d");
    p.text = "<p>intro</p>\n<p><img src=\"/assets/a.png\" alt=\"\"></p>\n<p><img src=\"https://x.org/b.png\"></p>\n".to_string();
    assert_eq!(post_photo_sources(&p.text), vec!["./assets/a.png".to_string(), "https://x.org/b.png".to_string()]);
    let groups = vec![
        vec![image("/w/1_600.jxl", "jxl", 600), image("/w/1_600.webp", "webp", 600)],
        vec![image("/w/2_300.jxl", "jxl", 300), image("/w/2_300.webp", "webp", 300)],
    ];
    let served = apply_compression_to_post_photos(&mut p, groups);
    let keys: Vec<&str> = served.iter().map(|s| s.1.as_str()).collect();
    assert_eq!(keys, vec!["/generated/1_600.jxl", "/generated/1_600.webp", "/generated/2_300.jxl", "/generated/2_300.webp"]);
    assert_eq!(
        p.text,
        "<p>intro</p>\n<picture><source type=\"image/jxl\" sizes=\"(min-width: 740px) 600px\" srcset=\"/generated/1_600.jxl 600w\"><img sizes=\"(min-width: 740px) 600px\" type=\"image/webp\" srcset=\"/generated/1_600.webp 600w\" src=\"/generated/1_600.webp\"></picture>\n<picture><source type=\"image/jxl\" sizes=\"(min-width: 740px) 600px\" srcset=\"/generated/2_300.jxl 300w\"><img sizes=\"(min-width: 740px) 600px\" type=\"image/webp\" srcset=\"/generated/2_300.webp 300w\" src=\"/generated/2_300.webp\"></picture>\n"
    );
}
