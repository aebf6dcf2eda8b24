//! What the build step writes into the site's store: the HTML of each internal image and
//! the prepared HTML fragments.
use vstd::prelude::*;

use crate::codegen::{compressed_view, internal_served};
use crate::image::{Image, ImageView};
use crate::outside::entries_view;
use crate::picture::{convert_image_list_to_html_element_and_map, has_codec, picture_html, served_view};
use crate::posts::{get_posts_html, newest_first, posts_list_html, posts_view, sort_posts_newest_first, Post, PostView};
use crate::text::owned;

verus! {

/// How many posts the home page lists.
pub const INDEX_POST_COUNT: usize = 5;

/// Each internal image's name with its `<picture>` element.
pub open spec fn internal_map_entries(es: Seq<(Seq<char>, Seq<ImageView>)>) -> Seq<(Seq<char>, Seq<char>)> {
    es.map_values(|e: (Seq<char>, Seq<ImageView>)| (e.0, picture_html(e.1, None)))
}

/// The published images of the internal images, and each internal image's name with its
/// `<picture>` element, from each image's name and compressed versions (each with a JPEG XL
/// and a WebP version).
pub fn internal_image_map(compressed: Vec<(String, Vec<Image>)>) -> (r: (Vec<(Image, String)>, Vec<(String, String)>))
    requires
        forall|k: int| 0 <= k < compressed@.len() ==> has_codec(#[trigger] compressed_view(compressed@)[k].1, "jxl"@)
            && has_codec(compressed_view(compressed@)[k].1, "webp"@),
    ensures
        served_view(r.0@) == internal_served(compressed_view(compressed@)),
        entries_view(r.1@) == internal_map_entries(compressed_view(compressed@)),
{
    let ghost es = compressed_view(compressed@);
    let n0 = compressed.len();
    let mut rest = compressed;
    let mut images: Vec<(Image, String)> = Vec::new();
    let mut entries: Vec<(String, String)> = Vec::new();
    let mut k: usize = 0;
    assert(es.take(0) =~= Seq::<(Seq<char>, Seq<ImageView>)>::empty());
    while rest.len() > 0
        invariant
            k + rest@.len() == es.len(),
            es.len() == n0,
            compressed_view(rest@) =~= es.skip(k as int),
            forall|m: int| 0 <= m < es.len() ==> has_codec(#[trigger] es[m].1, "jxl"@) && has_codec(es[m].1, "webp"@),
            served_view(images@) == internal_served(es.take(k as int)),
            entries_view(entries@) == internal_map_entries(es.take(k as int)),
        decreases rest@.len(),
    {
        let ghost old_rest = rest@;
        let (name, outputs) = rest.remove(0);
        assert((name@, outputs@.map_values(|i: Image| i@)) == es[k as int]) by {
            assert(compressed_view(old_rest)[0] == es.skip(k as int)[0]);
        }
        assert(compressed_view(rest@) =~= es.skip(k + 1)) by {
            assert(rest@ =~= old_rest.subrange(1, old_rest.len() as int));
            assert forall|m: int| 0 <= m < rest@.len() implies compressed_view(rest@)[m] == es.skip(k + 1)[m] by {
                assert(rest@[m] == old_rest[m + 1]);
                assert(compressed_view(old_rest)[m + 1] == es.skip(k as int)[m + 1]);
            }
        }
        assert(has_codec(es[k as int].1, "jxl"@) && has_codec(es[k as int].1, "webp"@));
        let (served, html) = convert_image_list_to_html_element_and_map(outputs, None);
        let ghost before_images = images@;
        let ghost served_items = served@;
        let mut served = served;
        images.append(&mut served);
        assert(served_view(images@) =~= served_view(before_images) + served_view(served_items)) by {
            assert(images@ =~= before_images + served_items);
        }
        let ghost before_entries = entries@;
        entries.push((name, html));
        assert(es.take(k + 1).drop_last() =~= es.take(k as int));
        assert(es.take(k + 1).last() == es[k as int]);
        assert(entries_view(entries@) =~= entries_view(before_entries).push(internal_map_entries(es)[k as int]));
        assert(internal_map_entries(es.take(k + 1)) =~= internal_map_entries(es.take(k as int)).push(internal_map_entries(es)[k as int]));
        k += 1;
    }
    assert(es.take(k as int) =~= es);
    (images, entries)
}

/// The prepared HTML fragments, by key: the badges, the home page's list of the newest
/// posts, and the list of all posts, both newest first.
pub open spec fn html_cache(badge_html: Seq<char>, posts: Seq<PostView>) -> Seq<(Seq<char>, Seq<char>)> {
    seq![
        ("badge_html"@, badge_html),
        ("post_index_html"@, posts_list_html(newest_first(posts), INDEX_POST_COUNT as nat)),
        ("post_list_html"@, posts_list_html(newest_first(posts), posts.len())),
    ]
}

/// The prepared HTML fragments to store (see `html_cache`).
pub fn html_cache_entries(badge_html: &str, posts: Vec<Post>) -> (r: Vec<(String, String)>)
    ensures
        entries_view(r@) == html_cache(badge_html@, posts_view(posts@)),
{
    let ghost all = posts_view(posts@);
    let sorted = sort_posts_newest_first(posts);
    proof {
        crate::posts::lemma_newest_first(all);
    }
    let index = get_posts_html(&sorted, INDEX_POST_COUNT);
    let list = get_posts_html(&sorted, sorted.len());
    let mut r: Vec<(String, String)> = Vec::new();
    r.push((owned("badge_html"), owned(badge_html)));
    r.push((owned("post_index_html"), index));
    r.push((owned("post_list_html"), list));
    assert(entries_view(r@) =~= html_cache(badge_html@, all));
    r
}

} // verus!
