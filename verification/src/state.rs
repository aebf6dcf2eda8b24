//! What the site decides about its store: whether it must be built first, and what a page
//! shows for a cached fragment that is found or missing.
use vstd::prelude::*;

use crate::outside::{lossy_text, utf8_lossy, utf8_text};
use crate::text::owned;
use vstd::utf8::{decode_utf8, encode_utf8, valid_utf8};

verus! {

/// The trees a built store holds at least: the default tree and one written by the build.
pub const BUILT_TREE_COUNT: usize = 2;

/// What to do with the store when the site starts.
pub enum Startup {
    /// Build the store first.
    Build,
    /// Stop: the store is empty and building was not asked for.
    Refuse,
    /// Serve from the store as it is.
    Open,
}

/// An empty store (fewer than two trees) is built where building is allowed and refused
/// where it is not; any other store is opened.
pub fn startup(tree_count: usize, allow_building: bool) -> (r: Startup)
    ensures
        tree_count < BUILT_TREE_COUNT && allow_building ==> r is Build,
        tree_count < BUILT_TREE_COUNT && !allow_building ==> r is Refuse,
        tree_count >= BUILT_TREE_COUNT ==> r is Open,
{
    if tree_count < BUILT_TREE_COUNT && allow_building {
        Startup::Build
    } else if tree_count < BUILT_TREE_COUNT {
        Startup::Refuse
    } else {
        Startup::Open
    }
}

/// What a page shows in place of a fragment that cannot be found.
pub open spec fn placeholder() -> Seq<char> {
    "???"@
}

/// The text of a cached HTML fragment: its bytes read leniently as UTF-8 (as they are where
/// valid), or the placeholder where nothing is stored under its key.
pub open spec fn cached_html_text(found: Option<Seq<u8>>) -> Seq<char> {
    match found {
        Some(b) => if valid_utf8(b) {
            decode_utf8(b)
        } else {
            utf8_lossy(b)
        },
        None => placeholder(),
    }
}

/// The HTML of an internal image: its bytes where they are valid UTF-8, else the placeholder.
pub open spec fn internal_image_text(found: Option<Seq<u8>>) -> Seq<char> {
    match found {
        Some(b) => if valid_utf8(b) {
            decode_utf8(b)
        } else {
            placeholder()
        },
        None => placeholder(),
    }
}

pub open spec fn bytes_view(found: Option<&[u8]>) -> Option<Seq<u8>> {
    match found {
        Some(b) => Some(b@),
        None => None,
    }
}

/// A cached HTML fragment, given the bytes stored under its key, if any.
pub fn cached_html_or_placeholder(found: Option<&[u8]>) -> (r: String)
    ensures
        r@ == cached_html_text(bytes_view(found)),
{
    match found {
        Some(b) => lossy_text(b),
        None => owned("???"),
    }
}

/// The HTML of an internal image, given the bytes stored under its path, if any.
pub fn internal_image_or_placeholder(found: Option<&[u8]>) -> (r: String)
    ensures
        r@ == internal_image_text(bytes_view(found)),
{
    match found {
        Some(b) => match utf8_text(b) {
            Some(s) => s,
            None => owned("???"),
        },
        None => owned("???"),
    }
}

/// HTML stored as its UTF-8 bytes is read back unchanged, as a cached fragment and as the
/// HTML of an internal image.
pub proof fn lemma_stored_html_reads_back(html: Seq<char>)
    ensures
        cached_html_text(Some(encode_utf8(html))) == html,
        internal_image_text(Some(encode_utf8(html))) == html,
{
    vstd::utf8::encode_utf8_valid_utf8(html);
    vstd::utf8::encode_utf8_decode_utf8(html);
}

} // verus!
