//! The about page.
use vstd::prelude::*;

use crate::outside::{chars_of, string_of};
use crate::paths::copy::{ABOUT_AQUARIUM, ABOUT_FREE_TIME, ABOUT_HEADING, ABOUT_RADIO_END, ABOUT_RADIO_START, ABOUT_RESUME, ABOUT_STUDIES, ABOUT_UPDATED};
use crate::paths::root::{page_html, MergedPage, PageView, SiteParts};
use crate::text::{escape_html, owned, push_escaped, push_str};

verus! {

/// The paragraphs of the about page above the diving picture.
pub open spec fn about_intro() -> Seq<char> {
    "<h1>"@ + escape_html(ABOUT_HEADING@) + "</h1>"@ + ("<p>"@ + escape_html(ABOUT_STUDIES@) + "</p>"@)
        + ("<p>"@ + escape_html(ABOUT_FREE_TIME@) + "</p>"@) + ("<p>"@ + escape_html(ABOUT_AQUARIUM@) + "</p>"@)
}

/// The paragraphs of the about page below the diving picture.
pub open spec fn about_outro() -> Seq<char> {
    "<p>"@ + escape_html(ABOUT_RADIO_START@) + "<a href=\"https://wrek.org\">wrek.org</a>"@
        + (escape_html(ABOUT_RADIO_END@) + "</p>"@) + ("<p>"@ + escape_html(ABOUT_RESUME@) + "</p>"@)
        + ("<i>"@ + escape_html(ABOUT_UPDATED@) + "</i><br><br><a href=\"/\">Return home</a>"@)
}

/// The about page's own content; `diving` is the HTML of the diving picture, placed as it is.
pub open spec fn about_body(diving: Seq<char>) -> Seq<char> {
    about_intro() + diving + about_outro()
}

fn push_text(out: &mut Vec<char>, open: &str, text: &str, close: &str)
    ensures
        final(out)@ == old(out)@ + open@ + escape_html(text@) + close@,
{
    push_str(out, open);
    push_escaped(out, chars_of(text).as_slice());
    push_str(out, close);
}

/// The about page, given the HTML of its diving picture.
pub fn index(diving: &str, site: &SiteParts) -> (r: String)
    ensures
        r@ == page_html(
            PageView {
                title: Some("About"@),
                meta_description: Some("A little information about myself"@),
                meta_image: None,
                body: about_body(diving@),
                main_page: true,
            },
            site@,
        ),
{
    let mut body: Vec<char> = Vec::new();
    push_text(&mut body, "<h1>", ABOUT_HEADING, "</h1>");
    push_text(&mut body, "<p>", ABOUT_STUDIES, "</p>");
    push_text(&mut body, "<p>", ABOUT_FREE_TIME, "</p>");
    push_text(&mut body, "<p>", ABOUT_AQUARIUM, "</p>");
    assert(body@ =~= about_intro());
    push_str(&mut body, diving);
    let ghost mid = body@;
    push_text(&mut body, "<p>", ABOUT_RADIO_START, "<a href=\"https://wrek.org\">wrek.org</a>");
    push_escaped(&mut body, chars_of(ABOUT_RADIO_END).as_slice());
    push_str(&mut body, "</p>");
    push_text(&mut body, "<p>", ABOUT_RESUME, "</p>");
    push_text(&mut body, "<i>", ABOUT_UPDATED, "</i><br><br><a href=\"/\">Return home</a>");
    assert(body@ =~= mid + about_outro());
    assert(body@ =~= about_body(diving@));
    let page = MergedPage::new_content_and_meta_main(
        owned("About"),
        owned("A little information about myself"),
        string_of(&body),
    );
    page.render(site)
}

} // verus!
