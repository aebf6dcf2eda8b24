//! The Rust sources the site's build step writes: maps from names to embedded files or to
//! prepared HTML, as `phf` maps.
use vstd::prelude::*;

use crate::badges::{
    badge_of, badge_sources, badges_from_converted, badges_html, converted_view, push_badges,
    ConvertedBadge,
};
use crate::image::{Image, ImageView};
use crate::outside::{chars_of, distinct_keys, entries_view, phf_map_source, phf_map_text, string_of};
use crate::picture::{has_codec, served_images, served_view};
use crate::posts::{newest_first, posts_list_html, posts_view, sort_posts_newest_first, get_posts_html, Post, PostView};
use crate::text::{escape_html, escape_quotes, push_escaped, push_quotes_escaped, push_str};
use crate::store::{internal_image_map, internal_map_entries};

verus! {

/// The first line of every written source.
pub open spec fn banner() -> Seq<char> {
    "// This file was auto generated, do not modify!\n\n"@
}

/// The name of the macro that embeds a file's bytes.
pub open spec fn embed_macro() -> Seq<char> {
    seq!['i', 'n', 'c', 'l', 'u', 'd', 'e', '_', 'b', 'y', 't', 'e', 's', '!']
}

/// The expression that embeds the file at `path`.
pub open spec fn embed_expr(path: Seq<char>) -> Seq<char> {
    embed_macro() + "(\""@ + path + "\")"@
}

fn push_embed_expr(out: &mut Vec<char>, path: &str)
    ensures
        final(out)@ == old(out)@ + embed_expr(path@),
{
    let ghost start = out@;
    out.push('i'); out.push('n'); out.push('c'); out.push('l'); out.push('u'); out.push('d');
    out.push('e'); out.push('_'); out.push('b'); out.push('y'); out.push('t'); out.push('e');
    out.push('s'); out.push('!');
    push_str(out, "(\"");
    push_str(out, path);
    push_str(out, "\")");
    assert(out@ =~= start + embed_expr(path@));
}

/// Each key with the expression embedding the file it names.
pub open spec fn embed_entries(es: Seq<(Seq<char>, Seq<char>)>) -> Seq<(Seq<char>, Seq<char>)> {
    es.map_values(|e: (Seq<char>, Seq<char>)| (e.0, embed_expr(e.1)))
}

fn to_embed_entries(es: &Vec<(String, String)>) -> (r: Vec<(String, String)>)
    ensures
        entries_view(r@) == embed_entries(entries_view(es@)),
{
    let mut r: Vec<(String, String)> = Vec::new();
    let mut i: usize = 0;
    while i < es.len()
        invariant
            0 <= i <= es@.len(),
            entries_view(r@) == embed_entries(entries_view(es@)).take(i as int),
        decreases es@.len() - i,
    {
        let mut e: Vec<char> = Vec::new();
        push_embed_expr(&mut e, es[i].1.as_str());
        let ghost before = r@;
        r.push((es[i].0.clone(), string_of(&e)));
        assert(entries_view(r@) =~= entries_view(before).push((es@[i as int].0@, embed_expr(es@[i as int].1@))));
        assert(embed_entries(entries_view(es@)).take(i + 1) =~= embed_entries(entries_view(es@)).take(i as int).push(
            (es@[i as int].0@, embed_expr(es@[i as int].1@)),
        ));
        i += 1;
    }
    assert(embed_entries(entries_view(es@)).take(es@.len() as int) =~= embed_entries(entries_view(es@)));
    r
}

// ---------------------------------------------------------------- badges

/// The source of the badges: their HTML as a constant (images served under `/88x31/`), and
/// a map from each published badge image to its embedded bytes.
pub open spec fn badge_source_file(cs: Seq<(Seq<char>, Seq<char>, Seq<Seq<char>>)>) -> Seq<char> {
    banner() + "pub const BADGE_HTML: &str = \""@ + escape_quotes(
        badges_html(cs.map_values(|c: (Seq<char>, Seq<char>, Seq<Seq<char>>)| badge_of(c)), "/88x31/"@),
    ) + "\";\n\nstatic BADGE_DATA: phf::Map<&'static str, &[u8]> = "@ + phf_map_text(
        embed_entries(badge_sources(cs, Seq::empty())),
    ) + ";"@
}

/// Writes the badges' source (see `badge_source_file`); no two badge images may share a
/// published name.
pub fn generate_badge_file(converted_badges: Vec<ConvertedBadge>) -> (r: String)
    requires
        distinct_keys(badge_sources(converted_view(converted_badges@), Seq::empty())),
    ensures
        r@ == badge_source_file(converted_view(converted_badges@)),
{
    let (badges, sources) = badges_from_converted(&converted_badges, "");
    proof {
        assert(""@ =~= Seq::<char>::empty()) by {
            reveal_strlit("");
        }
    }
    let mut html: Vec<char> = Vec::new();
    push_badges(&mut html, &badges, "/88x31/");
    let entries = to_embed_entries(&sources);
    proof {
        let es = entries_view(sources@);
        assert forall|i: int, j: int| 0 <= i < j < embed_entries(es).len() implies embed_entries(es)[i].0
            != embed_entries(es)[j].0 by {
            assert(embed_entries(es)[i].0 == es[i].0);
            assert(embed_entries(es)[j].0 == es[j].0);
        }
    }
    let map = phf_map_source(&entries);
    let mut out = chars_of("// This file was auto generated, do not modify!\n\n");
    push_str(&mut out, "pub const BADGE_HTML: &str = \"");
    push_quotes_escaped(&mut out, html.as_slice());
    push_str(&mut out, "\";\n\nstatic BADGE_DATA: phf::Map<&'static str, &[u8]> = ");
    push_str(&mut out, map.as_str());
    push_str(&mut out, ";");
    string_of(&out)
}

// ---------------------------------------------------------------- images

/// The source that maps each published image's key to its embedded bytes.
pub open spec fn images_source_file(images: Seq<(ImageView, Seq<char>)>) -> Seq<char> {
    banner() + "static IMAGES: phf::Map<&'static str, &[u8]> = "@ + phf_map_text(
        embed_entries(images.map_values(|e: (ImageView, Seq<char>)| (e.1, e.0.path))),
    ) + ";"@
}

/// Writes the source of the published images (see `images_source_file`); no two may share
/// a key.
pub fn zip_images_and_paths_to_file(images: Vec<(Image, String)>) -> (r: String)
    requires
        distinct_keys(served_view(images@).map_values(|e: (ImageView, Seq<char>)| (e.1, e.0.path))),
    ensures
        r@ == images_source_file(served_view(images@)),
{
    let ghost keyed = served_view(images@).map_values(|e: (ImageView, Seq<char>)| (e.1, e.0.path));
    let mut pairs: Vec<(String, String)> = Vec::new();
    let mut i: usize = 0;
    while i < images.len()
        invariant
            0 <= i <= images@.len(),
            keyed == served_view(images@).map_values(|e: (ImageView, Seq<char>)| (e.1, e.0.path)),
            entries_view(pairs@) == keyed.take(i as int),
        decreases images@.len() - i,
    {
        let ghost before = pairs@;
        pairs.push((images[i].1.clone(), images[i].0.path.clone()));
        assert(entries_view(pairs@) =~= entries_view(before).push((images@[i as int].1@, images@[i as int].0.path@)));
        assert(keyed.take(i + 1) =~= keyed.take(i as int).push(keyed[i as int]));
        i += 1;
    }
    assert(keyed.take(images@.len() as int) =~= keyed);
    let entries = to_embed_entries(&pairs);
    proof {
        assert forall|a: int, b: int| 0 <= a < b < embed_entries(keyed).len() implies embed_entries(keyed)[a].0
            != embed_entries(keyed)[b].0 by {
            assert(embed_entries(keyed)[a].0 == keyed[a].0);
            assert(embed_entries(keyed)[b].0 == keyed[b].0);
        }
    }
    let map = phf_map_source(&entries);
    let mut out = chars_of("// This file was auto generated, do not modify!\n\n");
    push_str(&mut out, "static IMAGES: phf::Map<&'static str, &[u8]> = ");
    push_str(&mut out, map.as_str());
    push_str(&mut out, ";");
    string_of(&out)
}


// ---------------------------------------------------------------- internal images

/// Each value of a list of numbers, or `None` where one is not a number.
pub open spec fn parse_all(fs: Seq<Seq<char>>) -> Option<Seq<usize>>
    decreases fs.len(),
{
    if fs.len() == 0 {
        Some(Seq::empty())
    } else {
        match parse_all(fs.drop_last()) {
            None => None,
            Some(v) => match crate::text::parse_usize(fs.last()) {
                None => None,
                Some(n) => Some(v.push(n)),
            },
        }
    }
}

/// The images listed in a CSV text: per line, a file and the widths to make of it; `None`
/// where a width is not a number.
pub open spec fn internal_rows(ls: Seq<Seq<char>>) -> Option<Seq<(Seq<char>, Seq<usize>)>>
    decreases ls.len(),
{
    if ls.len() == 0 {
        Some(Seq::empty())
    } else {
        match internal_rows(ls.drop_last()) {
            None => None,
            Some(rows) => {
                let f = crate::text::split_all(ls.last(), ',');
                match parse_all(f.skip(1)) {
                    None => None,
                    Some(ws) => Some(rows.push((f[0], ws))),
                }
            },
        }
    }
}

pub open spec fn internal_view(v: Seq<(String, Vec<usize>)>) -> Seq<(Seq<char>, Seq<usize>)> {
    v.map_values(|r: (String, Vec<usize>)| (r.0@, r.1@))
}

fn parse_widths(fs: &Vec<Vec<char>>, from: usize) -> (r: Option<Vec<usize>>)
    requires
        from <= fs@.len(),
    ensures
        r matches Some(v) ==> parse_all(fs@.map_values(|p: Vec<char>| p@).skip(from as int)) == Some(v@),
        r is None ==> parse_all(fs@.map_values(|p: Vec<char>| p@).skip(from as int)) is None,
{
    let ghost all = fs@.map_values(|p: Vec<char>| p@).skip(from as int);
    let mut v: Vec<usize> = Vec::new();
    let mut i = from;
    assert(all.take(0) =~= Seq::<Seq<char>>::empty());
    while i < fs.len()
        invariant
            from <= i <= fs@.len(),
            all == fs@.map_values(|p: Vec<char>| p@).skip(from as int),
            parse_all(all.take(i - from)) == Some(v@),
        decreases fs@.len() - i,
    {
        assert(all.take(i - from + 1).drop_last() =~= all.take(i - from));
        assert(all.take(i - from + 1).last() == fs@[i as int]@);
        match crate::text::parse_usize_chars(fs[i].as_slice()) {
            None => {
                proof {
                    lemma_parse_all_none(all, i - from + 1);
                }
                return None;
            },
            Some(n) => {
                v.push(n);
            },
        }
        i += 1;
    }
    assert(all.take(i - from) =~= all);
    Some(v)
}

proof fn lemma_parse_all_none(fs: Seq<Seq<char>>, k: int)
    requires
        0 <= k <= fs.len(),
        parse_all(fs.take(k)) is None,
    ensures
        parse_all(fs) is None,
    decreases fs.len() - k,
{
    if k < fs.len() {
        assert(fs.take(k + 1).drop_last() =~= fs.take(k));
        lemma_parse_all_none(fs, k + 1);
    } else {
        assert(fs.take(k) =~= fs);
    }
}

proof fn lemma_internal_rows_none(ls: Seq<Seq<char>>, k: int)
    requires
        0 <= k <= ls.len(),
        internal_rows(ls.take(k)) is None,
    ensures
        internal_rows(ls) is None,
    decreases ls.len() - k,
{
    if k < ls.len() {
        assert(ls.take(k + 1).drop_last() =~= ls.take(k));
        lemma_internal_rows_none(ls, k + 1);
    } else {
        assert(ls.take(k) =~= ls);
    }
}

/// Reads the list of internal images (see `internal_rows`).
pub fn parse_internal_image_csv(csv: &str) -> (r: Option<Vec<(String, Vec<usize>)>>)
    ensures
        r matches Some(v) ==> internal_rows(crate::text::lines_of(csv@)) == Some(internal_view(v@)),
        r is None ==> internal_rows(crate::text::lines_of(csv@)) is None,
{
    let lines = crate::text::split_lines(chars_of(csv).as_slice());
    let ghost ls = crate::text::lines_of(csv@);
    let mut rows: Vec<(String, Vec<usize>)> = Vec::new();
    let mut i: usize = 0;
    assert(ls.take(0) =~= Seq::<Seq<char>>::empty());
    while i < lines.len()
        invariant
            0 <= i <= lines@.len(),
            ls == crate::text::lines_of(csv@),
            lines@.len() == ls.len(),
            forall|k: int| 0 <= k < lines@.len() ==> #[trigger] lines@[k]@ == ls[k],
            internal_rows(ls.take(i as int)) == Some(internal_view(rows@)),
        decreases lines@.len() - i,
    {
        assert(lines@[i as int]@ == ls[i as int]);
        assert(ls.take(i + 1).drop_last() =~= ls.take(i as int));
        assert(ls.take(i + 1).last() == ls[i as int]);
        let fields = crate::text::split_all_chars(lines[i].as_slice(), ',');
        let ghost fv = fields@.map_values(|p: Vec<char>| p@);
        assert(fv.len() >= 1) by {
            let l = ls[i as int];
            match crate::text::index_of(l, ',') {
                Some(_) => {},
                None => {},
            }
        }
        assert(fv == crate::text::split_all(ls[i as int], ','));
        match parse_widths(&fields, 1) {
            None => {
                proof {
                    assert(parse_all(fv.skip(1)) is None);
                    assert(internal_rows(ls.take(i + 1)) is None);
                    lemma_internal_rows_none(ls, i + 1);
                }
                return None;
            },
            Some(ws) => {
                let ghost before = rows@;
                rows.push((string_of(&fields[0]), ws));
                assert(fv[0] == fields@[0]@);
                assert(internal_view(rows@) =~= internal_view(before).push((fv[0], ws@)));
            },
        }
        i += 1;
    }
    assert(ls.take(ls.len() as int) =~= ls);
    Some(rows)
}

pub open spec fn compressed_view(v: Seq<(String, Vec<Image>)>) -> Seq<(Seq<char>, Seq<ImageView>)> {
    v.map_values(|e: (String, Vec<Image>)| (e.0@, e.1@.map_values(|i: Image| i@)))
}

/// The prepared picture of each internal image as a quoted expression.
pub open spec fn internal_entries(es: Seq<(Seq<char>, Seq<ImageView>)>) -> Seq<(Seq<char>, Seq<char>)> {
    quoted_values(internal_map_entries(es))
}

/// The published images of all internal images.
pub open spec fn internal_served(es: Seq<(Seq<char>, Seq<ImageView>)>) -> Seq<(ImageView, Seq<char>)>
    decreases es.len(),
{
    if es.len() == 0 {
        Seq::empty()
    } else {
        internal_served(es.drop_last()) + served_images(es.last().1)
    }
}

/// The source that maps each internal image to its prepared picture.
pub open spec fn internal_source_file(es: Seq<(Seq<char>, Seq<ImageView>)>) -> Seq<char> {
    banner() + "pub static INTERNAL_IMAGES: phf::Map<&'static str, &str> = "@ + phf_map_text(internal_entries(es)) + ";"@
}

/// Each value written as a string literal: between quotes, its quotes escaped.
pub open spec fn quoted_values(es: Seq<(Seq<char>, Seq<char>)>) -> Seq<(Seq<char>, Seq<char>)> {
    es.map_values(|e: (Seq<char>, Seq<char>)| (e.0, "\""@ + escape_quotes(e.1) + "\""@))
}

fn quote_values(es: &Vec<(String, String)>) -> (r: Vec<(String, String)>)
    ensures
        entries_view(r@) == quoted_values(entries_view(es@)),
{
    let mut r: Vec<(String, String)> = Vec::new();
    let mut i: usize = 0;
    while i < es.len()
        invariant
            0 <= i <= es@.len(),
            entries_view(r@) == quoted_values(entries_view(es@)).take(i as int),
        decreases es@.len() - i,
    {
        let mut value = chars_of("\"");
        push_quotes_escaped(&mut value, chars_of(es[i].1.as_str()).as_slice());
        push_str(&mut value, "\"");
        let ghost before = r@;
        r.push((es[i].0.clone(), string_of(&value)));
        assert(entries_view(r@) =~= entries_view(before).push(quoted_values(entries_view(es@))[i as int]));
        assert(quoted_values(entries_view(es@)).take(i + 1) =~= quoted_values(entries_view(es@)).take(i as int).push(
            quoted_values(entries_view(es@))[i as int],
        ));
        i += 1;
    }
    assert(quoted_values(entries_view(es@)).take(es@.len() as int) =~= quoted_values(entries_view(es@)));
    r
}

/// The published images of the internal images and the source of their pictures, from each
/// image's name and compressed versions (each with a JPEG XL and a WebP version, no name
/// twice).
pub fn process_internal_images_to_file(compressed: Vec<(String, Vec<Image>)>) -> (r: (Vec<(Image, String)>, String))
    requires
        forall|k: int| 0 <= k < compressed@.len() ==> has_codec(#[trigger] compressed_view(compressed@)[k].1, "jxl"@)
            && has_codec(compressed_view(compressed@)[k].1, "webp"@),
        distinct_keys(internal_entries(compressed_view(compressed@))),
    ensures
        served_view(r.0@) == internal_served(compressed_view(compressed@)),
        r.1@ == internal_source_file(compressed_view(compressed@)),
{
    let ghost es = compressed_view(compressed@);
    let (images, pictures) = internal_image_map(compressed);
    let entries = quote_values(&pictures);
    assert(entries_view(entries@) =~= internal_entries(es));
    let map = phf_map_source(&entries);
    let mut out = chars_of("// This file was auto generated, do not modify!\n\n");
    push_str(&mut out, "pub static INTERNAL_IMAGES: phf::Map<&'static str, &str> = ");
    push_str(&mut out, map.as_str());
    push_str(&mut out, ";");
    (images, string_of(&out))
}

// ---------------------------------------------------------------- posts

/// The page of a post: title, day, description and the rendered text.
pub open spec fn post_page_html(p: PostView) -> Seq<char> {
    "<h1>"@ + escape_html(p.title) + "</h1><p class=\"post-date\">"@ + escape_html(p.day)
        + "</p><p class=\"description\">"@ + escape_html(p.description) + "</p><div class=\"post-content\">"@
        + p.text + "</div>"@
}

/// A post's entry: title, description and page as a tuple of string literals (only the page
/// has its backslashes and quotes escaped).
pub open spec fn post_entry(p: PostView) -> (Seq<char>, Seq<char>) {
    (
        p.slug,
        "(\""@ + p.title + "\", \""@ + p.description + "\", \""@ + escape_quotes(
            crate::text::escape_backslashes(post_page_html(p)),
        ) + "\")"@,
    )
}

/// A post's entry is keyed by its slug, and its value is a tuple whose first string is the
/// post's title, whose second is its description, and which ends with the page.
pub proof fn lemma_post_entry_fields(p: PostView)
    ensures
        post_entry(p).0 == p.slug,
        ("(\""@ + p.title + "\", \""@ + p.description + "\", \""@).is_prefix_of(post_entry(p).1),
        "\")"@.is_suffix_of(post_entry(p).1),
{
    let head = "(\""@ + p.title + "\", \""@ + p.description + "\", \""@;
    let v = post_entry(p).1;
    let mid = escape_quotes(crate::text::escape_backslashes(post_page_html(p)));
    assert(v =~= head + mid + "\")"@);
    assert(v.subrange(0, head.len() as int) =~= head);
    assert(v.subrange(v.len() - 2, v.len() as int) =~= "\")"@) by {
        reveal_strlit("\")");
    }
}

/// The source of the posts: the index list (five newest), the full list (a hundred newest)
/// and a map from each slug to its entry.
pub open spec fn posts_source_file(ps: Seq<PostView>) -> Seq<char> {
    let sorted = newest_first(ps);
    banner() + "pub static POST_INDEX_HTML: &str = \""@ + escape_quotes(posts_list_html(sorted, 5))
        + "\";\n\npub static POST_LIST_HTML: &str = \""@ + escape_quotes(posts_list_html(sorted, 100))
        + "\";\n\n\n// title, description, content\n\nstatic POSTS: phf::Map<&'static str, (&str, &str, &str)> = "@
        + phf_map_text(ps.map_values(|p: PostView| post_entry(p))) + ";"@
}

fn post_entry_of(p: &Post) -> (r: (String, String))
    ensures
        (r.0@, r.1@) == post_entry(p@),
{
    let mut page: Vec<char> = chars_of("<h1>");
    push_escaped(&mut page, chars_of(p.title.as_str()).as_slice());
    push_str(&mut page, "</h1><p class=\"post-date\">");
    push_escaped(&mut page, chars_of(p.date.day.as_str()).as_slice());
    push_str(&mut page, "</p><p class=\"description\">");
    push_escaped(&mut page, chars_of(p.description.as_str()).as_slice());
    push_str(&mut page, "</p><div class=\"post-content\">");
    push_str(&mut page, p.text.as_str());
    push_str(&mut page, "</div>");
    assert(page@ =~= post_page_html(p@));
    let mut doubled: Vec<char> = Vec::new();
    crate::text::push_backslashes_escaped(&mut doubled, page.as_slice());
    let mut v = chars_of("(\"");
    push_str(&mut v, p.title.as_str());
    push_str(&mut v, "\", \"");
    push_str(&mut v, p.description.as_str());
    push_str(&mut v, "\", \"");
    push_quotes_escaped(&mut v, doubled.as_slice());
    push_str(&mut v, "\")");
    (p.slug.clone(), string_of(&v))
}

/// Writes the posts' source (see `posts_source_file`); no two posts may share a slug.
pub fn generate_posts_file(posts: Vec<Post>) -> (r: String)
    requires
        distinct_keys(posts_view(posts@).map_values(|p: PostView| post_entry(p))),
    ensures
        r@ == posts_source_file(posts_view(posts@)),
{
    let ghost ps = posts_view(posts@);
    let mut entries: Vec<(String, String)> = Vec::new();
    let mut i: usize = 0;
    while i < posts.len()
        invariant
            0 <= i <= posts@.len(),
            ps == posts_view(posts@),
            entries_view(entries@) == ps.map_values(|p: PostView| post_entry(p)).take(i as int),
        decreases posts@.len() - i,
    {
        let e = post_entry_of(&posts[i]);
        let ghost before = entries@;
        entries.push(e);
        assert(entries_view(entries@) =~= entries_view(before).push(post_entry(ps[i as int])));
        assert(ps.map_values(|p: PostView| post_entry(p)).take(i + 1) =~= ps.map_values(|p: PostView| post_entry(p)).take(
            i as int,
        ).push(post_entry(ps[i as int])));
        i += 1;
    }
    assert(ps.map_values(|p: PostView| post_entry(p)).take(posts@.len() as int) =~= ps.map_values(
        |p: PostView| post_entry(p),
    ));
    let map = phf_map_source(&entries);
    let sorted = sort_posts_newest_first(posts);
    let index = get_posts_html(&sorted, 5);
    let list = get_posts_html(&sorted, 100);
    let mut out = chars_of("// This file was auto generated, do not modify!\n\n");
    push_str(&mut out, "pub static POST_INDEX_HTML: &str = \"");
    push_quotes_escaped(&mut out, chars_of(index.as_str()).as_slice());
    push_str(&mut out, "\";\n\npub static POST_LIST_HTML: &str = \"");
    push_quotes_escaped(&mut out, chars_of(list.as_str()).as_slice());
    push_str(&mut out, "\";\n\n\n// title, description, content\n\nstatic POSTS: phf::Map<&'static str, (&str, &str, &str)> = ");
    push_str(&mut out, map.as_str());
    push_str(&mut out, ";");
    string_of(&out)
}
} // verus!
