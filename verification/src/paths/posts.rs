//! The list of all posts and the page of one post.
use vstd::prelude::*;

use crate::outside::{chars_of, string_of};
use crate::paths::root::{error_html, error_page, page_html, MergedPage, PageView, SiteParts};
use crate::posts::{Post, PostView};
use crate::text::{escape_html, owned, push_escaped, push_str};

verus! {

/// The page listing every post, around the prepared list.
pub fn post_full_list(list_html: &str, site: &SiteParts) -> (r: String)
    ensures
        r@ == page_html(
            PageView {
                title: Some("Posts"@),
                meta_description: Some("All the things I've written"@),
                meta_image: None,
                body: list_html@,
                main_page: false,
            },
            site@,
        ),
{
    let page = MergedPage::new_content_and_meta(owned("Posts"), owned("All the things I've written"), owned(list_html));
    page.render(site)
}

/// The content of a post's page: its title as a heading, a rule, then its HTML.
pub open spec fn post_page_body(p: PostView) -> Seq<char> {
    "<h1>"@ + escape_html(p.title) + "</h1><hr>"@ + p.text
}

/// The answer to a request for a post: its page, or 404 where no post has the slug.
pub open spec fn post_page_reply(post: Option<PostView>, s: crate::paths::root::PartsView) -> Result<Seq<char>, (u16, Seq<char>)> {
    match post {
        Some(p) => Ok(
            page_html(
                PageView {
                    title: Some(p.title),
                    meta_description: Some(p.description),
                    meta_image: None,
                    body: post_page_body(p),
                    main_page: false,
                },
                s,
            ),
        ),
        None => Err((404u16, error_html(404, "Post not found :("@, false, s))),
    }
}

/// The answer to a request for a post, given the post stored under its slug, if any.
pub fn serve_post_page(post: Option<&Post>, site: &SiteParts) -> (r: Result<String, (u16, String)>)
    ensures
        match (r, post) {
            (Ok(html), Some(p)) => post_page_reply(Some(p@), site@) == Ok::<Seq<char>, (u16, Seq<char>)>(html@),
            (Err((code, html)), None) => post_page_reply(None, site@) == Err::<Seq<char>, (u16, Seq<char>)>((code, html@)),
            _ => false,
        },
{
    match post {
        Some(p) => {
            let mut body = chars_of("<h1>");
            push_escaped(&mut body, chars_of(p.title.as_str()).as_slice());
            push_str(&mut body, "</h1><hr>");
            push_str(&mut body, p.text.as_str());
            assert(body@ =~= post_page_body(p@));
            let page = MergedPage::new_content_and_meta(owned(p.title.as_str()), owned(p.description.as_str()), string_of(&body));
            Ok(page.render(site))
        },
        None => Err(error_page(404, "Post not found :(", site)),
    }
}

} // verus!
