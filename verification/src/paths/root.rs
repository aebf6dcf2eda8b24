//! The frame shared by every page, the home page, the error pages, and the answers to
//! requests for images.
use vstd::prelude::*;

use crate::outside::{chars_of, string_of};
use crate::paths::copy::{FILE_NOT_FOUND_HINT, FOOTER_OPINIONS, HOME_CONTACT_START, HOME_EXPERIENCE, HOME_INTRO, HOME_PROJECTS};
use crate::text::{dec, escape_html, push_dec, push_escaped, push_str, split_once, split_once_chars};

verus! {

/// What every page shows besides its own content: the profile picture and badge HTML made
/// by the build step, and the commit the site was built from.
pub struct SiteParts {
    pub profile_picture: String,
    pub badges: String,
    pub git_hash: String,
    /// When the commit was made, as RFC 2822 text.
    pub updated: String,
    pub git_message: String,
}

pub struct PartsView {
    pub profile_picture: Seq<char>,
    pub badges: Seq<char>,
    pub git_hash: Seq<char>,
    pub updated: Seq<char>,
    pub git_message: Seq<char>,
}

impl View for SiteParts {
    type V = PartsView;

    open spec fn view(&self) -> PartsView {
        PartsView {
            profile_picture: self.profile_picture@,
            badges: self.badges@,
            git_hash: self.git_hash@,
            updated: self.updated@,
            git_message: self.git_message@,
        }
    }
}

/// The date line of the footer for a commit time written as seconds since the Unix epoch:
/// `None` where the text is no such time or the time falls outside the years 0 to 9999.
pub open spec fn commit_date(git_time: Seq<char>) -> Option<Seq<char>> {
    match crate::outside::unix_seconds_of(git_time) {
        Some(t) => if crate::outside::RFC2822_FIRST_SECOND <= t <= crate::outside::RFC2822_LAST_SECOND {
            Some(crate::outside::rfc2822_text(t))
        } else {
            None
        },
        None => None,
    }
}

impl SiteParts {
    /// The parts of every page, with the commit time (seconds since the Unix epoch, as text)
    /// written as an RFC 2822 date; `None` where that time cannot be read or written.
    pub fn new(profile_picture: String, badges: String, git_hash: String, git_time: &str, git_message: String) -> (r: Option<SiteParts>)
        ensures
            match commit_date(git_time@) {
                Some(d) => r matches Some(p) && p@ == (PartsView {
                    profile_picture: profile_picture@,
                    badges: badges@,
                    git_hash: git_hash@,
                    updated: d,
                    git_message: git_message@,
                }),
                None => r is None,
            },
    {
        match crate::outside::parse_unix_seconds(git_time) {
            Some(t) => SiteParts::with_commit_seconds(profile_picture, badges, git_hash, t, git_message),
            None => None,
        }
    }

    /// The parts of every page, given the commit time in seconds since the Unix epoch:
    /// `None` where it falls outside the years 0 to 9999, which RFC 2822 cannot write.
    pub fn with_commit_seconds(profile_picture: String, badges: String, git_hash: String, seconds: i64, git_message: String) -> (r: Option<SiteParts>)
        ensures
            if crate::outside::RFC2822_FIRST_SECOND <= seconds <= crate::outside::RFC2822_LAST_SECOND {
                r matches Some(p) && p@ == (PartsView {
                    profile_picture: profile_picture@,
                    badges: badges@,
                    git_hash: git_hash@,
                    updated: crate::outside::rfc2822_text(seconds),
                    git_message: git_message@,
                })
            } else {
                r is None
            },
    {
        if seconds < crate::outside::RFC2822_FIRST_SECOND || seconds > crate::outside::RFC2822_LAST_SECOND {
            return None;
        }
        let updated = crate::outside::rfc2822_of(seconds);
        Some(SiteParts { profile_picture, badges, git_hash, updated, git_message })
    }
}

/// A page: its title, description and image for the head, its body (HTML), and whether it is
/// a main page (with the menu and the badges) or an inner one (with a link home).
pub struct MergedPage {
    pub title: Option<String>,
    pub meta_description: Option<String>,
    pub meta_image: Option<String>,
    pub body: String,
    pub main_page: bool,
}

pub struct PageView {
    pub title: Option<Seq<char>>,
    pub meta_description: Option<Seq<char>>,
    pub meta_image: Option<Seq<char>>,
    pub body: Seq<char>,
    pub main_page: bool,
}

pub open spec fn opt_view(o: Option<String>) -> Option<Seq<char>> {
    match o {
        Some(s) => Some(s@),
        None => None,
    }
}

impl View for MergedPage {
    type V = PageView;

    open spec fn view(&self) -> PageView {
        PageView {
            title: opt_view(self.title),
            meta_description: opt_view(self.meta_description),
            meta_image: opt_view(self.meta_image),
            body: self.body@,
            main_page: self.main_page,
        }
    }
}

/// The title part of a page's head.
pub open spec fn title_html(title: Option<Seq<char>>) -> Seq<char> {
    match title {
        None => "<title>Lukas Holliger</title><meta property=\"og:title\" content=\"Lukas Holliger\">"@,
        Some(t) => "<title>Lukas Holliger | "@ + escape_html(t) + "</title><meta property=\"og:title\" content=\""@
            + escape_html("Lukas Holliger | "@ + t) + "\">"@,
    }
}

/// The description and image part of a page's head.
pub open spec fn meta_html(description: Option<Seq<char>>, image: Option<Seq<char>>) -> Seq<char> {
    (match description {
        Some(d) => "<meta property=\"og:description\" content=\""@ + escape_html(d)
            + "\"><meta name=\"description\" content=\""@ + escape_html(d) + "\">"@,
        None => Seq::empty(),
    }) + (match image {
        Some(i) => "<meta property=\"og:image\" content=\""@ + escape_html(i) + "\">"@,
        None => Seq::empty(),
    })
}

/// The head of a page.
pub open spec fn head_html(p: PageView, s: PartsView) -> Seq<char> {
    "<head><meta charset=\"utf-8\"><meta name=\"viewport\" content=\"width=device-width, initial-scale=1.0\"><meta name=\"author\" content=\"Lukas Holliger\">"@
        + title_html(p.title) + meta_html(p.meta_description, p.meta_image)
        + "<link rel=\"stylesheet\" href=\""@ + escape_html("/assets/css/style.css?revision="@ + s.git_hash)
        + "\"></head>"@
}

/// The body of a page: header with the profile picture (and the menu on main pages), the
/// page's own content, and the footer (badges on main pages, a link home on others).
pub open spec fn body_html(p: PageView, s: PartsView) -> Seq<char> {
    "<body><header><div class=\"header-top\"><a href=\"/\"><h1>Lukas Holliger</h1></a><span alt=\"profile picture\" class=\"profile-image\">"@
        + s.profile_picture + "</span></div>"@ + (if p.main_page {
        "<ul><li><a href=\"/about\">About</a></li></ul>"@
    } else {
        Seq::empty()
    }) + "</header><main>"@ + p.body + "</main><footer>"@ + (if p.main_page {
        s.badges
            + "<div class=\"fah\"><i>Stay warm this winter, do some folding!</i><br><a href=\"https://folding.extremeoverclocking.com/user_summary.php?s=&amp;u=1353754\"><img src=\"https://folding.extremeoverclocking.com/sigs/sigimage.php?u=1353754\"></a></div>"@
    } else {
        "<a href=\"/\">Return home</a><br><br>"@
    })
        + "<p>Source code <a href=\"https://github.com/lholliger/www\">available here</a> released under the <a href=\"https://github.com/lholliger/www/blob/main/COPYING\">GNU AGPLv3 license</a></p><p>Updated "@
        + escape_html(s.updated) + " ("@ + escape_html(s.git_message) + ") ["@ + escape_html(s.git_hash)
        + "]</p><p>"@ + escape_html(FOOTER_OPINIONS@) + "</p></footer></body>"@
}

/// A whole page.
pub open spec fn page_html(p: PageView, s: PartsView) -> Seq<char> {
    "<html>"@ + head_html(p, s) + body_html(p, s) + "</html>"@
}

impl MergedPage {
    pub fn new(title: Option<String>, description: Option<String>, image: Option<String>, body: String, main_page: bool) -> (r: MergedPage)
        ensures
            r@ == (PageView {
                title: opt_view(title),
                meta_description: opt_view(description),
                meta_image: opt_view(image),
                body: body@,
                main_page: main_page,
            }),
    {
        MergedPage { title, meta_description: description, meta_image: image, body, main_page }
    }

    /// An inner page with a title and a description.
    pub fn new_content_and_meta(title: String, description: String, body: String) -> (r: MergedPage)
        ensures
            r@ == (PageView {
                title: Some(title@),
                meta_description: Some(description@),
                meta_image: None,
                body: body@,
                main_page: false,
            }),
    {
        MergedPage::new(Some(title), Some(description), None, body, false)
    }

    /// A main page with a title and a description.
    pub fn new_content_and_meta_main(title: String, description: String, body: String) -> (r: MergedPage)
        ensures
            r@ == (PageView {
                title: Some(title@),
                meta_description: Some(description@),
                meta_image: None,
                body: body@,
                main_page: true,
            }),
    {
        MergedPage::new(Some(title), Some(description), None, body, true)
    }

    fn push_title(&self, out: &mut Vec<char>)
        ensures
            final(out)@ == old(out)@ + title_html(self@.title),
    {
        let ghost start = out@;
        match &self.title {
            None => {
                push_str(out, "<title>Lukas Holliger</title><meta property=\"og:title\" content=\"Lukas Holliger\">");
            },
            Some(t) => {
                push_str(out, "<title>Lukas Holliger | ");
                push_escaped(out, chars_of(t.as_str()).as_slice());
                push_str(out, "</title><meta property=\"og:title\" content=\"");
                let mut full = chars_of("Lukas Holliger | ");
                push_str(&mut full, t.as_str());
                push_escaped(out, full.as_slice());
                push_str(out, "\">");
            },
        }
        assert(out@ =~= start + title_html(self@.title));
    }

    fn push_meta(&self, out: &mut Vec<char>)
        ensures
            final(out)@ == old(out)@ + meta_html(self@.meta_description, self@.meta_image),
    {
        let ghost start = out@;
        match &self.meta_description {
            Some(d) => {
                push_str(out, "<meta property=\"og:description\" content=\"");
                push_escaped(out, chars_of(d.as_str()).as_slice());
                push_str(out, "\"><meta name=\"description\" content=\"");
                push_escaped(out, chars_of(d.as_str()).as_slice());
                push_str(out, "\">");
            },
            None => {},
        }
        let ghost mid = out@;
        match &self.meta_image {
            Some(i) => {
                push_str(out, "<meta property=\"og:image\" content=\"");
                push_escaped(out, chars_of(i.as_str()).as_slice());
                push_str(out, "\">");
            },
            None => {},
        }
        assert(out@ =~= start + meta_html(self@.meta_description, self@.meta_image));
    }

    fn push_head(&self, out: &mut Vec<char>, site: &SiteParts)
        ensures
            final(out)@ == old(out)@ + head_html(self@, site@),
    {
        let ghost start = out@;
        push_str(out, "<head><meta charset=\"utf-8\"><meta name=\"viewport\" content=\"width=device-width, initial-scale=1.0\"><meta name=\"author\" content=\"Lukas Holliger\">");
        self.push_title(out);
        self.push_meta(out);
        push_str(out, "<link rel=\"stylesheet\" href=\"");
        let mut css = chars_of("/assets/css/style.css?revision=");
        push_str(&mut css, site.git_hash.as_str());
        push_escaped(out, css.as_slice());
        push_str(out, "\"></head>");
        assert(out@ =~= start + head_html(self@, site@));
    }

    fn push_body(&self, out: &mut Vec<char>, site: &SiteParts)
        ensures
            final(out)@ == old(out)@ + body_html(self@, site@),
    {
        let ghost start = out@;
        push_str(out, "<body><header><div class=\"header-top\"><a href=\"/\"><h1>Lukas Holliger</h1></a><span alt=\"profile picture\" class=\"profile-image\">");
        push_str(out, site.profile_picture.as_str());
        push_str(out, "</span></div>");
        if self.main_page {
            push_str(out, "<ul><li><a href=\"/about\">About</a></li></ul>");
        }
        push_str(out, "</header><main>");
        push_str(out, self.body.as_str());
        push_str(out, "</main><footer>");
        if self.main_page {
            push_str(out, site.badges.as_str());
            push_str(out, "<div class=\"fah\"><i>Stay warm this winter, do some folding!</i><br><a href=\"https://folding.extremeoverclocking.com/user_summary.php?s=&amp;u=1353754\"><img src=\"https://folding.extremeoverclocking.com/sigs/sigimage.php?u=1353754\"></a></div>");
        } else {
            push_str(out, "<a href=\"/\">Return home</a><br><br>");
        }
        push_str(out, "<p>Source code <a href=\"https://github.com/lholliger/www\">available here</a> released under the <a href=\"https://github.com/lholliger/www/blob/main/COPYING\">GNU AGPLv3 license</a></p><p>Updated ");
        push_escaped(out, chars_of(site.updated.as_str()).as_slice());
        push_str(out, " (");
        push_escaped(out, chars_of(site.git_message.as_str()).as_slice());
        push_str(out, ") [");
        push_escaped(out, chars_of(site.git_hash.as_str()).as_slice());
        push_str(out, "]</p><p>");
        push_escaped(out, chars_of(FOOTER_OPINIONS).as_slice());
        push_str(out, "</p></footer></body>");
        assert(out@ =~= start + body_html(self@, site@));
    }

    /// The page as HTML (see `page_html`).
    pub fn render(&self, site: &SiteParts) -> (r: String)
        ensures
            r@ == page_html(self@, site@),
    {
        let mut out = chars_of("<html>");
        self.push_head(&mut out, site);
        self.push_body(&mut out, site);
        push_str(&mut out, "</html>");
        string_of(&out)
    }
}

/// The home page's own content: an introduction, then the list of posts.
pub open spec fn home_body(post_html: Seq<char>) -> Seq<char> {
    "<section class=\"hero\"><h2>Hello 👋 I'm Lukas</h2><p>"@ + escape_html(HOME_INTRO@) + "</p><p>"@
        + escape_html(HOME_EXPERIENCE@) + "</p><p>"@ + escape_html(HOME_PROJECTS@) + "</p><p>"@
        + escape_html(HOME_CONTACT_START@)
        + "<a href=\"https://linkedin.com/in/lukasholliger\">LinkedIn</a>, contact me on Signal at <tt>@lukash.01</tt>, or email me at <tt>[anything]@holliger.me</tt>. </p></section><section class=\"content\"><h3>Posts</h3>"@
        + post_html + "</section>"@
}

/// The home page, with the prepared list of recent posts.
pub fn index(post_html: &str, site: &SiteParts) -> (r: String)
    ensures
        r@ == page_html(
            PageView {
                title: None,
                meta_description: Some("Hello 👋 I'm Lukas"@),
                meta_image: Some("/assets/images/me.jpeg"@),
                body: home_body(post_html@),
                main_page: true,
            },
            site@,
        ),
{
    let mut body = chars_of("<section class=\"hero\"><h2>Hello 👋 I'm Lukas</h2><p>");
    push_escaped(&mut body, chars_of(HOME_INTRO).as_slice());
    push_str(&mut body, "</p><p>");
    push_escaped(&mut body, chars_of(HOME_EXPERIENCE).as_slice());
    push_str(&mut body, "</p><p>");
    push_escaped(&mut body, chars_of(HOME_PROJECTS).as_slice());
    push_str(&mut body, "</p><p>");
    push_escaped(&mut body, chars_of(HOME_CONTACT_START).as_slice());
    push_str(&mut body, "<a href=\"https://linkedin.com/in/lukasholliger\">LinkedIn</a>, contact me on Signal at <tt>@lukash.01</tt>, or email me at <tt>[anything]@holliger.me</tt>. </p></section><section class=\"content\"><h3>Posts</h3>");
    push_str(&mut body, post_html);
    push_str(&mut body, "</section>");
    assert(body@ =~= home_body(post_html@));
    let page = MergedPage::new(
        None,
        Some(crate::text::owned("Hello 👋 I'm Lukas")),
        Some(crate::text::owned("/assets/images/me.jpeg")),
        string_of(&body),
        true,
    );
    page.render(site)
}

/// The content of an error page: the code, the message where there is one, then always an
/// `<else>` element holding the default text (`file`: for a missing file) and a link home.
pub open spec fn error_body(code: u16, message: Seq<char>, file: bool) -> Seq<char> {
    "<div><h1>Error "@ + dec(code as nat) + "</h1>"@ + (if message.len() > 0 {
        "<p>"@ + escape_html(message) + "</p>"@
    } else {
        Seq::empty()
    }) + (if file {
        "<else><p>Looks like that file can't be found :(</p><p>"@ + escape_html(FILE_NOT_FOUND_HINT@)
            + "</p><a href=\"/\">Return home</a></else>"@
    } else {
        "<else><p>Looks like that page can't be found :(</p><a href=\"/\">Return home</a></else>"@
    }) + "</div>"@
}

/// An error page.
pub open spec fn error_html(code: u16, message: Seq<char>, file: bool, s: PartsView) -> Seq<char> {
    page_html(
        PageView {
            title: Some("404"@),
            meta_description: Some(if file { "File not found :("@ } else { "Page not found :("@ }),
            meta_image: None,
            body: error_body(code, message, file),
            main_page: false,
        },
        s,
    )
}

fn error_response(code: u16, message: &str, file: bool, site: &SiteParts) -> (r: (u16, String))
    ensures
        r.0 == code,
        r.1@ == error_html(code, message@, file, site@),
{
    let mut body = chars_of("<div><h1>Error ");
    push_dec(&mut body, code as u64);
    push_str(&mut body, "</h1>");
    let msg = chars_of(message);
    if msg.len() > 0 {
        push_str(&mut body, "<p>");
        push_escaped(&mut body, msg.as_slice());
        push_str(&mut body, "</p>");
    }
    if file {
        push_str(&mut body, "<else><p>Looks like that file can't be found :(</p><p>");
        push_escaped(&mut body, chars_of(FILE_NOT_FOUND_HINT).as_slice());
        push_str(&mut body, "</p><a href=\"/\">Return home</a></else>");
    } else {
        push_str(&mut body, "<else><p>Looks like that page can't be found :(</p><a href=\"/\">Return home</a></else>");
    }
    push_str(&mut body, "</div>");
    assert(body@ =~= error_body(code, message@, file));
    let description = if file { crate::text::owned("File not found :(") } else { crate::text::owned("Page not found :(") };
    let page = MergedPage::new_content_and_meta(crate::text::owned("404"), description, string_of(&body));
    (code, page.render(site))
}

/// The answer for a page that cannot be served: the status code and its page.
pub fn error_page(code: u16, message: &str, site: &SiteParts) -> (r: (u16, String))
    ensures
        r.0 == code,
        r.1@ == error_html(code, message@, false, site@),
{
    error_response(code, message, false, site)
}

/// The answer for a file that cannot be served: the status code and its page.
pub fn error_page_file(code: u16, message: &str, site: &SiteParts) -> (r: (u16, String))
    ensures
        r.0 == code,
        r.1@ == error_html(code, message@, true, site@),
{
    error_response(code, message, true, site)
}

/// An image to send: its media type and its bytes.
#[derive(Debug)]
pub struct ImageReply {
    pub content_type: String,
    pub body: Vec<u8>,
}

/// The answer to a request for an image: refused with 400 where its name has no `.`, with
/// 404 where nothing is stored under it, else its bytes as `image/` and what follows the
/// first `.` of its name.
pub open spec fn image_reply(image: Seq<char>, stored: Option<Seq<u8>>, missing: Seq<char>, s: PartsView) -> Result<(Seq<char>, Seq<u8>), (u16, Seq<char>)> {
    match split_once(image, '.') {
        None => Err((400u16, error_html(400, "Invalid image name format"@, false, s))),
        Some((_, ext)) => match stored {
            None => Err((404u16, error_html(404, missing, false, s))),
            Some(bytes) => Ok(("image/"@ + ext, bytes)),
        },
    }
}

pub open spec fn reply_view(r: Result<ImageReply, (u16, String)>) -> Result<(Seq<char>, Seq<u8>), (u16, Seq<char>)> {
    match r {
        Ok(i) => Ok((i.content_type@, i.body@)),
        Err((c, h)) => Err((c, h@)),
    }
}

pub(crate) fn image_response(image: &str, stored: Option<Vec<u8>>, missing: &str, site: &SiteParts) -> (r: Result<ImageReply, (u16, String)>)
    ensures
        reply_view(r) == image_reply(
            image@,
            match stored {
                Some(b) => Some(b@),
                None => None,
            },
            missing@,
            site@,
        ),
{
    let ext = match split_once_chars(chars_of(image).as_slice(), '.') {
        None => return Err(error_page(400, "Invalid image name format", site)),
        Some(parts) => parts.1,
    };
    match stored {
        None => Err(error_page(404, missing, site)),
        Some(bytes) => {
            let mut ct = chars_of("image/");
            crate::text::push_chars(&mut ct, ext.as_slice());
            Ok(ImageReply { content_type: string_of(&ct), body: bytes })
        },
    }
}

/// The key a generated image is stored under: `/generated/` and its name.
pub fn generated_image_key(image: &str) -> (r: String)
    ensures
        r@ == "/generated/"@ + image@,
{
    let mut v = chars_of("/generated/");
    push_str(&mut v, image);
    string_of(&v)
}

/// The answer to a request for a generated image, given what is stored under its key
/// (`generated_image_key`).
pub fn serve_generated_image(image: &str, stored: Option<Vec<u8>>, site: &SiteParts) -> (r: Result<ImageReply, (u16, String)>)
    ensures
        reply_view(r) == image_reply(
            image@,
            match stored {
                Some(b) => Some(b@),
                None => None,
            },
            "Image not found :("@,
            site@,
        ),
{
    image_response(image, stored, "Image not found :(", site)
}

} // verus!
