use holligerme::image::Image;
use holligerme::posts::{Post, PostDate};
use holligerme::store::{html_cache_entries, internal_image_map, INDEX_POST_COUNT};

fn post(slug: &str, t: i64) -> Post {
    Post {
        slug: slug.to_string(),
        title: slug.to_string(),
        date: PostDate { timestamp: t, day: format!("d{}", t) },
        description: String::new(),
        tags: Vec::new(),
        text: String::new(),
    }
}

#[test]
fn html_cache_holds_newest_posts() {
    let posts: Vec<Post> = (0..7).map(|i| post(&format!("p{}", i), i)).collect();
    let entries = html_cache_entries("<a>badges</a>", posts);
    assert_eq!(entries.len(), 3);
    assert_eq!(entries[0], ("badge_html".to_string(), "<a>badges</a>".to_string()));
    assert_eq!(entries[1].0, "post_index_html");
    assert_eq!(entries[1].1.matches("<li>").count(), INDEX_POST_COUNT);
    assert!(entries[1].1.starts_with("<div class=\"posts\"><ul><li><span>d6: <a href=\"/posts/p6\">p6</a>"));
    assert_eq!(entries[2].0, "post_list_html");
    assert_eq!(entries[2].1.matches("<li>").count(), 7);
    assert!(entries[2].1.ends_with("<li><span>d0: <a href=\"/posts/p0\">p0</a><p class=\"description\"></p></span></li></ul></div>"));
}

#[test]
fn internal_images_map_to_pictures() {
    let img = |p: &str, c: &str| Image { width: 300, height: 2, path: p.to_string(), codec: c.to_string(), animated: false, cached: true };
    let (served, entries) = internal_image_map(vec![("assets/me.jpeg".to_string(), vec![img("/w/5_300.jxl", "jxl"), img("/w/5_300.webp", "webp")])]);
    assert_eq!(served.iter().map(|s| s.1.as_str()).collect::<Vec<_>>(), vec!["/generated/5_300.jxl", "/generated/5_300.webp"]);
    assert_eq!(
        entries,
        vec![(
            "assets/me.jpeg".to_string(),
            "<picture><source srcset=\"/generated/5_300.jxl 300w\" type=\"image/jxl\"><img srcset=\"/generated/5_300.webp 300w\" type=\"image/webp\" src=\"/generated/5_300.webp\"></picture>\n".to_string()
        )]
    );
}
