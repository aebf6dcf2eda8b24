//! The 88x31 badges in the page footer: the list of them, and their HTML.
use vstd::prelude::*;

use crate::outside::{chars_of, string_of};
use crate::text::{
    after_last, after_last_chars, escape_html, index_of, lemma_index_of, lines_of, push_chars,
    push_escaped, push_str, split_all, split_all_chars, split_lines, split_once, split_once_chars,
};

verus! {

/// A badge: its name, the page it links to, and its image files (best format first).
pub struct Badge {
    pub name: String,
    pub url: String,
    pub paths: Vec<String>,
}

pub struct BadgeView {
    pub name: Seq<char>,
    pub url: Seq<char>,
    pub paths: Seq<Seq<char>>,
}

impl View for Badge {
    type V = BadgeView;

    open spec fn view(&self) -> BadgeView {
        BadgeView { name: self.name@, url: self.url@, paths: self.paths@.map_values(|p: String| p@) }
    }
}

pub open spec fn badges_view(v: Seq<Badge>) -> Seq<BadgeView> {
    v.map_values(|b: Badge| b@)
}

/// A badge as the compressor leaves it: name, link, image files.
pub type ConvertedBadge = (String, String, Vec<String>);

pub open spec fn converted_view(v: Seq<ConvertedBadge>) -> Seq<(Seq<char>, Seq<char>, Seq<Seq<char>>)> {
    v.map_values(|c: ConvertedBadge| (c.0@, c.1@, c.2@.map_values(|p: String| p@)))
}

/// The badges listed in a CSV text: one per line with at least three comma-separated fields
/// (name, link, image); other lines are skipped.
pub open spec fn csv_rows(ls: Seq<Seq<char>>) -> Seq<(Seq<char>, Seq<char>, Seq<char>)>
    decreases ls.len(),
{
    if ls.len() == 0 {
        Seq::empty()
    } else {
        let f = split_all(ls.last(), ',');
        if f.len() >= 3 {
            csv_rows(ls.drop_last()).push((f[0], f[1], f[2]))
        } else {
            csv_rows(ls.drop_last())
        }
    }
}

pub open spec fn rows_view(v: Seq<(String, String, String)>) -> Seq<(Seq<char>, Seq<char>, Seq<char>)> {
    v.map_values(|r: (String, String, String)| (r.0@, r.1@, r.2@))
}

/// Reads the badge list (see `csv_rows`).
pub fn parse_badge_csv(csv: &str) -> (r: Vec<(String, String, String)>)
    ensures
        rows_view(r@) == csv_rows(lines_of(csv@)),
{
    let lines = split_lines(chars_of(csv).as_slice());
    let ghost ls = lines_of(csv@);
    let mut rows: Vec<(String, String, String)> = Vec::new();
    let mut i: usize = 0;
    while i < lines.len()
        invariant
            0 <= i <= lines@.len(),
            lines@.len() == ls.len(),
            forall|k: int| 0 <= k < lines@.len() ==> #[trigger] lines@[k]@ == ls[k],
            rows_view(rows@) == csv_rows(ls.take(i as int)),
        decreases lines@.len() - i,
    {
        assert(lines@[i as int]@ == ls[i as int]);
        assert(ls.take(i + 1).drop_last() =~= ls.take(i as int));
        assert(ls.take(i + 1).last() == ls[i as int]);
        let fields = split_all_chars(lines[i].as_slice(), ',');
        let ghost fv = fields@.map_values(|p: Vec<char>| p@);
        if fields.len() >= 3 {
            assert(fv[0] == fields@[0]@ && fv[1] == fields@[1]@ && fv[2] == fields@[2]@);
            let ghost before = rows@;
            rows.push((string_of(&fields[0]), string_of(&fields[1]), string_of(&fields[2])));
            assert(rows_view(rows@) =~= rows_view(before).push((fv[0], fv[1], fv[2])));
        }
        i += 1;
    }
    assert(ls.take(ls.len() as int) =~= ls);
    rows
}

/// The name a badge image is published under: the badge's name and the image's extension.
pub open spec fn badge_file_name(name: Seq<char>, image: Seq<char>) -> Seq<char> {
    name + "."@ + after_last(after_last(image, '/'), '.')
}

/// The badge made of a compressed row.
pub open spec fn badge_of(c: (Seq<char>, Seq<char>, Seq<Seq<char>>)) -> BadgeView {
    BadgeView { name: c.0, url: c.1, paths: c.2.map_values(|i: Seq<char>| badge_file_name(c.0, i)) }
}

/// One image of a badge: a `<source>` with its media type for all but the last, an `<img>`
/// for the last.
pub open spec fn badge_image_html(b: BadgeView, prefix: Seq<char>, i: int) -> Seq<char> {
    let p = b.paths[i];
    if i < b.paths.len() - 1 {
        "<source alt=\""@ + escape_html(b.name) + "\" srcset=\""@ + escape_html(prefix + p)
            + "\" type=\""@ + escape_html("image/"@ + split_once(p, '.').unwrap().1) + "\">"@
    } else {
        "<img alt=\""@ + escape_html(b.name) + "\" width=\"88\" height=\"31\" src=\""@
            + escape_html(prefix + p) + "\">"@
    }
}

pub open spec fn badge_images_html(b: BadgeView, prefix: Seq<char>, k: nat) -> Seq<char>
    decreases k,
{
    if k == 0 {
        Seq::empty()
    } else {
        badge_images_html(b, prefix, (k - 1) as nat) + badge_image_html(b, prefix, k - 1)
    }
}

/// A badge: a link around a `<picture>` of its images, served under `prefix`.
pub open spec fn badge_html(b: BadgeView, prefix: Seq<char>) -> Seq<char> {
    "<a href=\""@ + escape_html(b.url) + "\" target=\"_blank\"><picture class=\"eightyeightthirtyone\">"@
        + badge_images_html(b, prefix, b.paths.len()) + "</picture></a>"@
}

pub open spec fn badges_html(bs: Seq<BadgeView>, prefix: Seq<char>) -> Seq<char>
    decreases bs.len(),
{
    if bs.len() == 0 {
        Seq::empty()
    } else {
        badges_html(bs.drop_last(), prefix) + badge_html(bs.last(), prefix)
    }
}

/// A badge added to a list adds its HTML after the HTML of the others.
pub proof fn lemma_badges_html_push(bs: Seq<BadgeView>, b: BadgeView, prefix: Seq<char>)
    ensures
        badges_html(bs.push(b), prefix) == badges_html(bs, prefix) + badge_html(b, prefix),
{
    assert(bs.push(b).drop_last() =~= bs);
}

/// The HTML of two lists of badges one after the other is the HTML of each list, in order.
pub proof fn lemma_badges_html_concat(a: Seq<BadgeView>, c: Seq<BadgeView>, prefix: Seq<char>)
    ensures
        badges_html(a + c, prefix) == badges_html(a, prefix) + badges_html(c, prefix),
    decreases c.len(),
{
    if c.len() == 0 {
        assert(a + c =~= a);
    } else {
        lemma_badges_html_concat(a, c.drop_last(), prefix);
        assert(a + c =~= (a + c.drop_last()).push(c.last()));
        lemma_badges_html_push(a + c.drop_last(), c.last(), prefix);
    }
}

/// Every badge of the list has its own link and picture in the footer, between those of the
/// badges before it and those after it.
pub proof fn lemma_every_badge_shown(bs: Seq<BadgeView>, prefix: Seq<char>, i: int)
    requires
        0 <= i < bs.len(),
    ensures
        badges_html(bs, prefix) == badges_html(bs.take(i), prefix) + badge_html(bs[i], prefix)
            + badges_html(bs.skip(i + 1), prefix),
{
    assert(bs =~= bs.take(i).push(bs[i]) + bs.skip(i + 1));
    lemma_badges_html_concat(bs.take(i).push(bs[i]), bs.skip(i + 1), prefix);
    lemma_badges_html_push(bs.take(i), bs[i], prefix);
}

/// Whether every image of a badge has a `.` in its published name, so that its media type can
/// be read from it.
pub open spec fn paths_have_dots(b: BadgeView) -> bool {
    forall|i: int| 0 <= i < b.paths.len() ==> (#[trigger] index_of(b.paths[i], '.')) is Some
}

/// The published name of a badge image.
pub fn badge_file_name_of(name: &String, image: &String) -> (r: String)
    ensures
        r@ == badge_file_name(name@, image@),
        index_of(r@, '.') is Some,
{
    let file = after_last_chars(chars_of(image.as_str()).as_slice(), '/');
    let ext = after_last_chars(file.as_slice(), '.');
    let mut v = chars_of(name.as_str());
    let dot_at = v.len();
    push_str(&mut v, ".");
    push_chars(&mut v, ext.as_slice());
    proof {
        reveal_strlit(".");
        assert(v@[dot_at as int] == '.');
        lemma_index_of(v@, '.');
    }
    string_of(&v)
}

fn push_badge_image(out: &mut Vec<char>, b: &Badge, prefix: &str, i: usize)
    requires
        i < b.paths@.len(),
        paths_have_dots(b@),
    ensures
        final(out)@ == old(out)@ + badge_image_html(b@, prefix@, i as int),
{
    let p = &b.paths[i];
    assert(b@.paths[i as int] == p@);
    let name = chars_of(b.name.as_str());
    let mut target = chars_of(prefix);
    push_str(&mut target, p.as_str());
    if i < b.paths.len() - 1 {
        push_str(out, "<source alt=\"");
        push_escaped(out, name.as_slice());
        push_str(out, "\" srcset=\"");
        push_escaped(out, target.as_slice());
        push_str(out, "\" type=\"");
        let ext = match split_once_chars(chars_of(p.as_str()).as_slice(), '.') {
            Some(parts) => parts.1,
            None => {
                proof {
                    assert(index_of(b@.paths[i as int], '.') is Some);
                }
                Vec::new()
            },
        };
        let mut media = chars_of("image/");
        push_chars(&mut media, ext.as_slice());
        push_escaped(out, media.as_slice());
        push_str(out, "\">");
    } else {
        push_str(out, "<img alt=\"");
        push_escaped(out, name.as_slice());
        push_str(out, "\" width=\"88\" height=\"31\" src=\"");
        push_escaped(out, target.as_slice());
        push_str(out, "\">");
    }
}

fn push_badge(out: &mut Vec<char>, b: &Badge, prefix: &str)
    requires
        paths_have_dots(b@),
    ensures
        final(out)@ == old(out)@ + badge_html(b@, prefix@),
{
    let ghost start = out@;
    push_str(out, "<a href=\"");
    push_escaped(out, chars_of(b.url.as_str()).as_slice());
    push_str(out, "\" target=\"_blank\"><picture class=\"eightyeightthirtyone\">");
    let ghost head = out@;
    let mut i: usize = 0;
    while i < b.paths.len()
        invariant
            0 <= i <= b.paths@.len(),
            paths_have_dots(b@),
            out@ == head + badge_images_html(b@, prefix@, i as nat),
        decreases b.paths@.len() - i,
    {
        push_badge_image(out, b, prefix, i);
        i += 1;
    }
    push_str(out, "</picture></a>");
    assert(out@ =~= start + badge_html(b@, prefix@));
}

/// The HTML of all badges, their images served under `prefix`.
pub fn push_badges(out: &mut Vec<char>, badges: &Vec<Badge>, prefix: &str)
    requires
        forall|k: int| 0 <= k < badges@.len() ==> paths_have_dots(#[trigger] badges@[k]@),
    ensures
        final(out)@ == old(out)@ + badges_html(badges_view(badges@), prefix@),
{
    let ghost bs = badges_view(badges@);
    let mut i: usize = 0;
    while i < badges.len()
        invariant
            0 <= i <= badges@.len(),
            bs == badges_view(badges@),
            forall|k: int| 0 <= k < badges@.len() ==> paths_have_dots(#[trigger] badges@[k]@),
            out@ == old(out)@ + badges_html(bs.take(i as int), prefix@),
        decreases badges@.len() - i,
    {
        assert(bs.take(i + 1).drop_last() =~= bs.take(i as int));
        assert(bs.take(i + 1).last() == badges@[i as int]@);
        push_badge(out, &badges[i], prefix);
        i += 1;
    }
    assert(bs.take(badges@.len() as int) =~= bs);
}

/// The badges of compressed rows, with the key and source file of each published image,
/// keys made of `key_prefix` and the published name.
pub fn badges_from_converted(converted: &Vec<ConvertedBadge>, key_prefix: &str) -> (r: (Vec<Badge>, Vec<(String, String)>))
    ensures
        badges_view(r.0@) == converted_view(converted@).map_values(
            |c: (Seq<char>, Seq<char>, Seq<Seq<char>>)| badge_of(c),
        ),
        forall|k: int| 0 <= k < r.0@.len() ==> paths_have_dots(#[trigger] r.0@[k]@),
        crate::outside::entries_view(r.1@) == badge_sources(converted_view(converted@), key_prefix@),
{
    let ghost cv = converted_view(converted@);
    let mut badges: Vec<Badge> = Vec::new();
    let mut sources: Vec<(String, String)> = Vec::new();
    let mut i: usize = 0;
    while i < converted.len()
        invariant
            0 <= i <= converted@.len(),
            cv == converted_view(converted@),
            badges_view(badges@) == cv.take(i as int).map_values(
                |c: (Seq<char>, Seq<char>, Seq<Seq<char>>)| badge_of(c),
            ),
            forall|k: int| 0 <= k < badges@.len() ==> paths_have_dots(#[trigger] badges@[k]@),
            crate::outside::entries_view(sources@) == badge_sources(cv.take(i as int), key_prefix@),
        decreases converted@.len() - i,
    {
        let (name, url, images) = (&converted[i].0, &converted[i].1, &converted[i].2);
        let ghost c = cv[i as int];
        assert(c == (name@, url@, images@.map_values(|p: String| p@)));
        let mut paths: Vec<String> = Vec::new();
        let ghost src_before = crate::outside::entries_view(sources@);
        let mut j: usize = 0;
        while j < images.len()
            invariant
                0 <= j <= images@.len(),
                c == (name@, url@, images@.map_values(|p: String| p@)),
                src_before == badge_sources(cv.take(i as int), key_prefix@),
                paths@.map_values(|p: String| p@) == c.2.take(j as int).map_values(
                    |im: Seq<char>| badge_file_name(c.0, im),
                ),
                forall|k: int| 0 <= k < paths@.len() ==> (#[trigger] index_of(paths@[k]@, '.')) is Some,
                crate::outside::entries_view(sources@) == src_before + badge_image_sources(c, key_prefix@, j as nat),
            decreases images@.len() - j,
        {
            let file = badge_file_name_of(name, &images[j]);
            let mut key = chars_of(key_prefix);
            push_str(&mut key, file.as_str());
            let ghost pb = paths@;
            let ghost sb = sources@;
            sources.push((string_of(&key), images[j].clone()));
            paths.push(file);
            assert(c.2.take(j + 1) =~= c.2.take(j as int).push(images@[j as int]@));
            assert(paths@.map_values(|p: String| p@) =~= pb.map_values(|p: String| p@).push(
                badge_file_name(c.0, images@[j as int]@),
            ));
            assert(crate::outside::entries_view(sources@) =~= crate::outside::entries_view(sb).push(
                (key_prefix@ + badge_file_name(c.0, images@[j as int]@), images@[j as int]@),
            ));
            j += 1;
        }
        assert(c.2.take(images@.len() as int) =~= c.2);
        let badge = Badge { name: name.clone(), url: url.clone(), paths };
        assert(badge@ == badge_of(c));
        assert(paths_have_dots(badge@)) by {
            assert forall|k: int| 0 <= k < badge@.paths.len() implies (#[trigger] index_of(badge@.paths[k], '.')) is Some by {
                assert(badge@.paths[k] == badge.paths@[k]@);
            }
        }
        let ghost bb = badges@;
        badges.push(badge);
        assert(cv.take(i + 1) =~= cv.take(i as int).push(c));
        assert(cv.take(i + 1).drop_last() =~= cv.take(i as int));
        assert(badges_view(badges@) =~= badges_view(bb).push(badge_of(c)));
        assert(badge_sources(cv.take(i + 1), key_prefix@) == badge_sources(cv.take(i as int), key_prefix@)
            + badge_image_sources(c, key_prefix@, c.2.len()));
        i += 1;
    }
    assert(cv.take(converted@.len() as int) =~= cv);
    (badges, sources)
}

/// The published images of one badge, each under `key_prefix` and its published name, with
/// the file it comes from; of its first `k` images.
pub open spec fn badge_image_sources(c: (Seq<char>, Seq<char>, Seq<Seq<char>>), key_prefix: Seq<char>, k: nat) -> Seq<(Seq<char>, Seq<char>)>
    decreases k,
{
    if k == 0 {
        Seq::empty()
    } else {
        badge_image_sources(c, key_prefix, (k - 1) as nat).push(
            (key_prefix + badge_file_name(c.0, c.2[k - 1]), c.2[k - 1]),
        )
    }
}

/// The published images of all badges.
pub open spec fn badge_sources(cs: Seq<(Seq<char>, Seq<char>, Seq<Seq<char>>)>, key_prefix: Seq<char>) -> Seq<(Seq<char>, Seq<char>)>
    decreases cs.len(),
{
    if cs.len() == 0 {
        Seq::empty()
    } else {
        badge_sources(cs.drop_last(), key_prefix) + badge_image_sources(cs.last(), key_prefix, cs.last().2.len())
    }
}

/// The badges' HTML, the badges themselves, and each published image under
/// `/generated/88x31_` and its published name with its bytes (`contents` holds the bytes of
/// the image files, in the order the badges list them).
pub fn generate_badge_file(converted_badges: Vec<ConvertedBadge>, contents: Vec<Vec<u8>>) -> (r: (String, Vec<Badge>, Vec<(String, Vec<u8>)>))
    requires
        contents@.len() == badge_sources(converted_view(converted_badges@), "/generated/88x31_"@).len(),
    ensures
        r.0@ == badges_html(
            converted_view(converted_badges@).map_values(|c: (Seq<char>, Seq<char>, Seq<Seq<char>>)| badge_of(c)),
            "/generated/88x31_"@,
        ),
        badges_view(r.1@) == converted_view(converted_badges@).map_values(
            |c: (Seq<char>, Seq<char>, Seq<Seq<char>>)| badge_of(c),
        ),
        r.2@.len() == contents@.len(),
        forall|k: int| 0 <= k < r.2@.len() ==> (#[trigger] r.2@[k]).0@ == badge_sources(
            converted_view(converted_badges@),
            "/generated/88x31_"@,
        )[k].0 && r.2@[k].1@ == contents@[k]@,
{
    let prefix = "/generated/88x31_";
    let (badges, sources) = badges_from_converted(&converted_badges, prefix);
    let mut out: Vec<char> = Vec::new();
    push_badges(&mut out, &badges, prefix);
    let mut data: Vec<(String, Vec<u8>)> = Vec::new();
    let mut rest = contents;
    let ghost all = rest@;
    let mut k: usize = 0;
    while k < sources.len()
        invariant
            0 <= k <= sources@.len(),
            sources@.len() == all.len(),
            crate::outside::entries_view(sources@) == badge_sources(converted_view(converted_badges@), prefix@),
            rest@ =~= all.skip(k as int),
            data@.len() == k,
            forall|m: int| 0 <= m < k ==> (#[trigger] data@[m]).0@ == sources@[m].0@ && data@[m].1@ == all[m]@,
        decreases sources@.len() - k,
    {
        let ghost old_rest = rest@;
        let bytes = rest.remove(0);
        assert(bytes == all[k as int]);
        assert(rest@ =~= all.skip(k + 1)) by {
            assert(rest@ =~= old_rest.subrange(1, old_rest.len() as int));
        }
        data.push((sources[k].0.clone(), bytes));
        k += 1;
    }
    proof {
        assert forall|m: int| 0 <= m < data@.len() implies (#[trigger] data@[m]).0@ == badge_sources(
            converted_view(converted_badges@),
            "/generated/88x31_"@,
        )[m].0 && data@[m].1@ == contents@[m]@ by {
            assert(crate::outside::entries_view(sources@)[m] == (sources@[m].0@, sources@[m].1@));
        }
    }
    (string_of(&out), badges, data)
}

} // verus!
