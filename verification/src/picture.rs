//! The `<picture>` element that offers the compressed versions of an image.
use vstd::prelude::*;

use crate::image::{Image, ImageView};
use crate::outside::{chars_of, string_of};
use crate::text::{
    after_last, after_last_chars, before_first, before_first_chars, dec, join, push_chars,
    push_dec, push_joined, push_str, str_eq,
};

verus! {

/// Where an image is served: `/generated/` and the last part of its path.
pub open spec fn generated_path(img: ImageView) -> Seq<char> {
    "/generated/"@ + after_last(img.path, '/')
}

/// An image's entry in a `srcset`: its served path and its width.
pub open spec fn srcset_entry(img: ImageView) -> Seq<char> {
    generated_path(img) + " "@ + dec(img.width as nat) + "w"@
}

/// The `srcset` entries of the images of one codec, in order.
pub open spec fn codec_entries(imgs: Seq<ImageView>, codec: Seq<char>) -> Seq<Seq<char>>
    decreases imgs.len(),
{
    if imgs.len() == 0 {
        Seq::empty()
    } else {
        let rest = codec_entries(imgs.drop_last(), codec);
        if imgs.last().codec == codec {
            rest.push(srcset_entry(imgs.last()))
        } else {
            rest
        }
    }
}

pub open spec fn has_codec(imgs: Seq<ImageView>, codec: Seq<char>) -> bool {
    exists|i: int| 0 <= i < imgs.len() && #[trigger] imgs[i].codec == codec
}

/// The `<picture>` element: the JPEG XL versions as a source, the WebP versions as the
/// image with the first of them as fallback, and the `sizes` hint where given.
pub open spec fn picture_html(imgs: Seq<ImageView>, sizes: Option<Seq<char>>) -> Seq<char> {
    let jxl = join(codec_entries(imgs, "jxl"@), ", "@);
    let webp = join(codec_entries(imgs, "webp"@), ", "@);
    let first = before_first(codec_entries(imgs, "webp"@)[0], ' ');
    match sizes {
        Some(size) => "<picture><source type=\"image/jxl\" sizes=\""@ + size + "\" srcset=\""@ + jxl
            + "\"><img sizes=\""@ + size + "\" type=\"image/webp\" srcset=\""@ + webp
            + "\" src=\""@ + first + "\"></picture>\n"@,
        None => "<picture><source srcset=\""@ + jxl + "\" type=\"image/jxl\"><img srcset=\""@ + webp
            + "\" type=\"image/webp\" src=\""@ + first + "\"></picture>\n"@,
    }
}

/// The `srcset` of a codec lists every image of that codec, in order: it is the images of
/// that codec, each as its entry.
pub proof fn lemma_codec_entries_every_image(imgs: Seq<ImageView>, codec: Seq<char>)
    ensures
        codec_entries(imgs, codec) == imgs.filter(|i: ImageView| i.codec == codec).map_values(
            |i: ImageView| srcset_entry(i),
        ),
        codec_entries(imgs, codec).len() == imgs.filter(|i: ImageView| i.codec == codec).len(),
    decreases imgs.len(),
{
    reveal(Seq::filter);
    let pred = |i: ImageView| i.codec == codec;
    if imgs.len() > 0 {
        lemma_codec_entries_every_image(imgs.drop_last(), codec);
        let f = imgs.drop_last().filter(pred);
        if imgs.last().codec == codec {
            assert(f.push(imgs.last()).map_values(|i: ImageView| srcset_entry(i)) =~= f.map_values(
                |i: ImageView| srcset_entry(i),
            ).push(srcset_entry(imgs.last())));
        }
    } else {
        assert(imgs.filter(pred).map_values(|i: ImageView| srcset_entry(i)) =~= Seq::<Seq<char>>::empty());
    }
}

/// Adding an image of a codec adds its entry at the end of that codec's `srcset`, and leaves
/// the other codecs' lists as they were.
pub proof fn lemma_codec_entries_push(imgs: Seq<ImageView>, x: ImageView, codec: Seq<char>)
    ensures
        x.codec == codec ==> codec_entries(imgs.push(x), codec) == codec_entries(imgs, codec).push(srcset_entry(x)),
        x.codec != codec ==> codec_entries(imgs.push(x), codec) == codec_entries(imgs, codec),
{
    assert(imgs.push(x).drop_last() =~= imgs);
}

pub open spec fn served_view(v: Seq<(Image, String)>) -> Seq<(ImageView, Seq<char>)> {
    v.map_values(|p: (Image, String)| (p.0@, p.1@))
}

/// Every image with the path it is served at.
pub open spec fn served_images(imgs: Seq<ImageView>) -> Seq<(ImageView, Seq<char>)> {
    imgs.map_values(|i: ImageView| (i, generated_path(i)))
}

proof fn lemma_codec_entries_nonempty(imgs: Seq<ImageView>, codec: Seq<char>, i: int)
    requires
        0 <= i < imgs.len(),
        imgs[i].codec == codec,
    ensures
        codec_entries(imgs, codec).len() > 0,
    decreases imgs.len(),
{
    if i < imgs.len() - 1 {
        lemma_codec_entries_nonempty(imgs.drop_last(), codec, i);
    }
}

/// The images each with the path it is served at, and the `<picture>` element offering
/// them. The list must hold a JPEG XL and a WebP version.
pub fn convert_image_list_to_html_element_and_map(compressed_images: Vec<Image>, sizes: Option<&str>) -> (r: (Vec<(Image, String)>, String))
    requires
        has_codec(compressed_images@.map_values(|i: Image| i@), "jxl"@),
        has_codec(compressed_images@.map_values(|i: Image| i@), "webp"@),
    ensures
        served_view(r.0@) == served_images(compressed_images@.map_values(|i: Image| i@)),
        r.1@ == picture_html(
            compressed_images@.map_values(|i: Image| i@),
            match sizes {
                Some(s) => Some(s@),
                None => None,
            },
        ),
{
    let ghost imgs = compressed_images@.map_values(|i: Image| i@);
    let mut jxl: Vec<Vec<char>> = Vec::new();
    let mut webp: Vec<Vec<char>> = Vec::new();
    let mut post_images: Vec<(Image, String)> = Vec::new();
    let mut i: usize = 0;
    while i < compressed_images.len()
        invariant
            0 <= i <= compressed_images@.len(),
            imgs == compressed_images@.map_values(|i: Image| i@),
            jxl@.map_values(|p: Vec<char>| p@) == codec_entries(imgs.take(i as int), "jxl"@),
            webp@.map_values(|p: Vec<char>| p@) == codec_entries(imgs.take(i as int), "webp"@),
            served_view(post_images@) == served_images(imgs.take(i as int)),
        decreases compressed_images@.len() - i,
    {
        let image = &compressed_images[i];
        let name_chars = chars_of(image.path.as_str());
        let name = after_last_chars(name_chars.as_slice(), '/');
        let mut served = chars_of("/generated/");
        push_chars(&mut served, name.as_slice());
        let mut entry = served.clone();
        push_str(&mut entry, " ");
        push_dec(&mut entry, image.width as u64);
        push_str(&mut entry, "w");
        assert(imgs.take(i + 1).drop_last() =~= imgs.take(i as int));
        assert(imgs.take(i + 1).last() == image@);
        let ghost jb = jxl@;
        let ghost wb = webp@;
        if str_eq(image.codec.as_str(), "jxl") {
            jxl.push(entry.clone());
            assert(jxl@.map_values(|p: Vec<char>| p@) =~= jb.map_values(|p: Vec<char>| p@).push(entry@));
        }
        if str_eq(image.codec.as_str(), "webp") {
            webp.push(entry);
            assert(webp@.map_values(|p: Vec<char>| p@) =~= wb.map_values(|p: Vec<char>| p@).push(entry@));
        }
        let ghost pb = post_images@;
        post_images.push((image.duplicate(), string_of(&served)));
        assert(served_view(post_images@) =~= served_view(pb).push((image@, generated_path(image@))));
        assert(served_images(imgs.take(i + 1)) =~= served_images(imgs.take(i as int)).push(
            (image@, generated_path(image@)),
        ));
        i += 1;
    }
    assert(imgs.take(compressed_images@.len() as int) =~= imgs);
    proof {
        let a = choose|k: int| 0 <= k < imgs.len() && #[trigger] imgs[k].codec == "jxl"@;
        lemma_codec_entries_nonempty(imgs, "jxl"@, a);
        let b = choose|k: int| 0 <= k < imgs.len() && #[trigger] imgs[k].codec == "webp"@;
        lemma_codec_entries_nonempty(imgs, "webp"@, b);
    }
    let mut jxl_text: Vec<char> = Vec::new();
    push_joined(&mut jxl_text, &jxl, ", ");
    let mut webp_text: Vec<char> = Vec::new();
    push_joined(&mut webp_text, &webp, ", ");
    let first = before_first_chars(webp[0].as_slice(), ' ');
    let mut out: Vec<char> = Vec::new();
    match sizes {
        Some(size) => {
            push_str(&mut out, "<picture><source type=\"image/jxl\" sizes=\"");
            push_str(&mut out, size);
            push_str(&mut out, "\" srcset=\"");
            push_chars(&mut out, jxl_text.as_slice());
            push_str(&mut out, "\"><img sizes=\"");
            push_str(&mut out, size);
            push_str(&mut out, "\" type=\"image/webp\" srcset=\"");
            push_chars(&mut out, webp_text.as_slice());
            push_str(&mut out, "\" src=\"");
            push_chars(&mut out, first.as_slice());
            push_str(&mut out, "\"></picture>\n");
        },
        None => {
            push_str(&mut out, "<picture><source srcset=\"");
            push_chars(&mut out, jxl_text.as_slice());
            push_str(&mut out, "\" type=\"image/jxl\"><img srcset=\"");
            push_chars(&mut out, webp_text.as_slice());
            push_str(&mut out, "\" type=\"image/webp\" src=\"");
            push_chars(&mut out, first.as_slice());
            push_str(&mut out, "\"></picture>\n");
        },
    }
    assert(webp@[0]@ == codec_entries(imgs, "webp"@)[0]);
    (post_images, string_of(&out))
}

} // verus!
