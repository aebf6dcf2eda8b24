use holligerme::paths::about::index as about_index;
use holligerme::paths::eighteightthirtyone::serve_88x31;
use holligerme::paths::matrix::MatrixConfig;
use holligerme::paths::posts::{post_full_list, serve_post_page};
use holligerme::paths::root::{error_page, error_page_file, generated_image_key, index, serve_generated_image, MergedPage, SiteParts};
use holligerme::posts::{Post, PostDate};

fn site() -> SiteParts {
    SiteParts::new("<img>".to_string(), "B".to_string(), "abc".to_string(), "0", "fix".to_string()).unwrap()
}

const HEAD: &str = "<html><head><meta charset=\"utf-8\"><meta name=\"viewport\" content=\"width=device-width, initial-scale=1.0\"><meta name=\"author\" content=\"Lukas Holliger\">";
const TOP: &str = "<body><header><div class=\"header-top\"><a href=\"/\"><h1>Lukas Holliger</h1></a><span alt=\"profile picture\" class=\"profile-image\"><img></span></div>";
const FOOT: &str = "<p>Source code <a href=\"https://github.com/lholliger/www\">available here</a> released under the <a href=\"https://github.com/lholliger/www/blob/main/COPYING\">GNU AGPLv3 license</a></p><p>Updated Thu, 1 Jan 1970 00:00:00 +0000 (fix) [abc]</p><p>All opinions here are my own and do not reflect the views of my employers or university: future, past, and present.</p></footer></body></html>";
const CSS: &str = "<link rel=\"stylesheet\" href=\"/assets/css/style.css?revision=abc\"></head>";

#[test]
fn commit_time_is_written_as_rfc2822() {
    let s = site();
    assert_eq!(s.updated, "Thu, 1 Jan 1970 00:00:00 +0000");
    let later = SiteParts::new(String::new(), String::new(), String::new(), "1704153600", String::new()).unwrap();
    assert_eq!(later.updated, "Tue, 2 Jan 2024 00:00:00 +0000");
    assert!(SiteParts::new(String::new(), String::new(), String::new(), "yesterday", String::new()).is_none());
    assert!(SiteParts::with_commit_seconds(String::new(), String::new(), String::new(), 253402300800, String::new()).is_none());
    assert!(SiteParts::with_commit_seconds(String::new(), String::new(), String::new(), 253402300799, String::new()).is_some());
    assert!(SiteParts::with_commit_seconds(String::new(), String::new(), String::new(), -62167219201, String::new()).is_none());
}

#[test]
fn missing_page() {
    let (code, html) = error_page(404, "", &site());
    assert_eq!(code, 404);
    let want = format!(
        "{HEAD}<title>Lukas Holliger | 404</title><meta property=\"og:title\" content=\"Lukas Holliger | 404\"><meta property=\"og:description\" content=\"Page not found :(\"><meta name=\"description\" content=\"Page not found :(\">{CSS}{TOP}</header><main><div><h1>Error 404</h1><else><p>Looks like that page can't be found :(</p><a href=\"/\">Return home</a></else></div></main><footer><a href=\"/\">Return home</a><br><br>{FOOT}"
    );
    assert_eq!(html, want);
}

#[test]
fn missing_file_and_messages() {
    let (code, html) = error_page_file(404, "", &site());
    assert_eq!(code, 404);
    assert!(html.contains("content=\"File not found :(\""));
    assert!(html.contains("<div><h1>Error 404</h1><else><p>Looks like that file can't be found :(</p><p>Have you made sure every part of the URL is correct? Capitalization matters!</p><a href=\"/\">Return home</a></else></div>"));
    let (code, html) = error_page(400, "Bad <name>", &site());
    assert_eq!(code, 400);
    assert!(html.contains("<div><h1>Error 400</h1><p>Bad &lt;name&gt;</p><else><p>Looks like that page can't be found :(</p><a href=\"/\">Return home</a></else></div>"));
}

#[test]
fn main_pages_have_menu_and_badges() {
    let page = MergedPage::new_content_and_meta_main("A \"q\"".to_string(), "d".to_string(), "<p>x</p>".to_string());
    let html = page.render(&site());
    assert!(html.starts_with(&format!("{HEAD}<title>Lukas Holliger | A &quot;q&quot;</title><meta property=\"og:title\" content=\"Lukas Holliger | A &quot;q&quot;\">")));
    assert!(html.contains("<ul><li><a href=\"/about\">About</a></li></ul></header><main><p>x</p></main><footer>B<div class=\"fah\">"));
    assert!(html.contains("user_summary.php?s=&amp;u=1353754"));
    assert!(html.ends_with(FOOT));
    let bare = MergedPage::new(None, None, Some("/i.png".to_string()), String::new(), false).render(&site());
    assert!(bare.starts_with(&format!("{HEAD}<title>Lukas Holliger</title><meta property=\"og:title\" content=\"Lukas Holliger\"><meta property=\"og:image\" content=\"/i.png\">{CSS}")));
}

#[test]
fn home_page_lists_posts() {
    let html = index("<div class=\"posts\"></div>", &site());
    assert!(html.contains("<meta property=\"og:description\" content=\"Hello 👋 I'm Lukas\"><meta name=\"description\" content=\"Hello 👋 I'm Lukas\"><meta property=\"og:image\" content=\"/assets/images/me.jpeg\">"));
    assert!(html.contains("<main><section class=\"hero\"><h2>Hello 👋 I'm Lukas</h2><p>I'm a software engineer"));
    assert!(html.contains("<section class=\"content\"><h3>Posts</h3><div class=\"posts\"></div></section></main>"));
}

#[test]
fn about_page_places_the_diving_picture() {
    let html = about_index("<picture>dive</picture>", &site());
    assert!(html.contains("<title>Lukas Holliger | About</title>"));
    assert!(html.contains("content=\"A little information about myself\""));
    assert!(html.contains("otherwise I would put one here.\n        When I am on vacation, I tend to scuba dive wrecks in the area, or coral reefs (posts soon, allegedly).</p><picture>dive</picture><p>On campus"));
    assert!(html.contains("(available at 91.1 FM in Georgia or at <a href=\"https://wrek.org\">wrek.org</a>anywhere with internet),"));
    assert!(html.contains("<i>This page was last updated November 19, 2024. It is likely not complete or entirely up to date.</i><br><br><a href=\"/\">Return home</a></main>"));
}

#[test]
fn post_pages() {
    let p = Post {
        slug: "s".to_string(),
        title: "T&T".to_string(),
        date: PostDate { timestamp: 0, day: "1970-01-01".to_string() },
        description: "D".to_string(),
        tags: Vec::new(),
        text: "<p>body</p>\n".to_string(),
    };
    let html = serve_post_page(Some(&p), &site()).unwrap();
    assert!(html.contains("<title>Lukas Holliger | T&amp;T</title>"));
    assert!(html.contains("<main><h1>T&amp;T</h1><hr><p>body</p>\n</main>"));
    let (code, missing) = serve_post_page(None, &site()).unwrap_err();
    assert_eq!(code, 404);
    assert!(missing.contains("<p>Post not found :(</p>"));
    let list = post_full_list("<ul></ul>", &site());
    assert!(list.contains("<title>Lukas Holliger | Posts</title>"));
    assert!(list.contains("content=\"All the things I've written\""));
    assert!(list.contains("<main><ul></ul></main>"));
}

#[test]
fn images_are_served_by_name() {
    assert_eq!(generated_image_key("1_600.webp"), "/generated/1_600.webp");
    let ok = serve_generated_image("1_600.webp", Some(vec![1, 2, 3]), &site()).unwrap();
    assert_eq!(ok.content_type, "image/webp");
    assert_eq!(ok.body, vec![1, 2, 3]);
    let tar = serve_generated_image("a.tar.gz", Some(vec![]), &site()).unwrap();
    assert_eq!(tar.content_type, "image/tar.gz");
    let (code, html) = serve_generated_image("noext", Some(vec![1]), &site()).unwrap_err();
    assert_eq!(code, 400);
    assert!(html.contains("<p>Invalid image name format</p>"));
    let (code, html) = serve_generated_image("x.png", None, &site()).unwrap_err();
    assert_eq!(code, 404);
    assert!(html.contains("<p>Image not found :(</p>"));
    let (code, html) = serve_88x31("x.png", None, &site()).unwrap_err();
    assert_eq!(code, 404);
    assert!(html.contains("<p>88x31 not found :(</p>"));
}

#[test]
fn matrix_server_name() {
    let c = MatrixConfig { homeserver_url: "https://matrix.example.org".to_string() };
    assert_eq!(c.well_known_server(), "matrix.example.org:443");
    let c = MatrixConfig { homeserver_url: "http://http://m.org".to_string() };
    assert_eq!(c.well_known_server(), "m.org:443");
    let c = MatrixConfig { homeserver_url: "http://https://m.org".to_string() };
    assert_eq!(c.well_known_server(), "https://m.org:443");
    let c = MatrixConfig { homeserver_url: "m.org".to_string() };
    assert_eq!(c.well_known_server(), "m.org:443");
}
