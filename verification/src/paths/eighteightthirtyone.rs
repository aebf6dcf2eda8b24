//! The route that serves 88x31 badge images.
use vstd::prelude::*;

use crate::paths::root::{image_reply, image_response, reply_view, ImageReply, SiteParts};

verus! {

/// The answer to a request for a badge image, given the bytes stored under its name, if any.
pub fn serve_88x31(image: &str, stored: Option<Vec<u8>>, site: &SiteParts) -> (r: Result<ImageReply, (u16, String)>)
    ensures
        reply_view(r) == image_reply(
            image@,
            match stored {
                Some(b) => Some(b@),
                None => None,
            },
            "88x31 not found :("@,
            site@,
        ),
{
    image_response(image, stored, "88x31 not found :(", site)
}

} // verus!
