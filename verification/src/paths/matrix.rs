//! The Matrix discovery answers, which point clients and other servers at the homeserver.
use vstd::prelude::*;

use crate::outside::{chars_of, string_of};
use crate::text::{push_str, starts_with_chars, sub_chars};

verus! {

/// Where the Matrix homeserver is reached, as a URL.
#[derive(Clone)]
pub struct MatrixConfig {
    pub homeserver_url: String,
}

/// `s` with every leading repetition of a non-empty `p` removed (what `trim_start_matches`
/// gives).
pub open spec fn trim_start_all(s: Seq<char>, p: Seq<char>) -> Seq<char>
    decreases s.len(),
{
    if p.len() > 0 && p.is_prefix_of(s) {
        trim_start_all(s.skip(p.len() as int), p)
    } else {
        s
    }
}

/// What trimming leaves is an ending of the text, and it no longer starts with the pattern.
pub proof fn lemma_trim_start_all(s: Seq<char>, p: Seq<char>)
    requires
        p.len() > 0,
    ensures
        trim_start_all(s, p).is_suffix_of(s),
        !p.is_prefix_of(trim_start_all(s, p)),
    decreases s.len(),
{
    if p.is_prefix_of(s) {
        let rest = s.skip(p.len() as int);
        lemma_trim_start_all(rest, p);
        let t = trim_start_all(rest, p);
        assert(s.subrange(s.len() - t.len(), s.len() as int) =~= rest.subrange(rest.len() - t.len(), rest.len() as int));
    } else {
        assert(s.subrange(0, s.len() as int) =~= s);
    }
}

/// The host that other servers federate with: the homeserver URL without its leading
/// `https://`s, then without its leading `http://`s.
pub open spec fn federation_host(url: Seq<char>) -> Seq<char> {
    trim_start_all(trim_start_all(url, "https://"@), "http://"@)
}

fn trim_start_chars(s: &[char], p: &[char]) -> (r: Vec<char>)
    ensures
        r@ == trim_start_all(s@, p@),
{
    if p.len() == 0 {
        return sub_chars(s, 0, s.len());
    }
    let mut start: usize = 0;
    let mut rest = sub_chars(s, 0, s.len());
    assert(rest@ =~= s@);
    assert(s@.skip(0) =~= s@);
    while starts_with_chars(rest.as_slice(), p)
        invariant
            p@.len() > 0,
            start <= s.len(),
            rest@ == s@.skip(start as int),
            trim_start_all(rest@, p@) == trim_start_all(s@, p@),
        decreases s.len() - start,
    {
        start = start + p.len();
        let next = sub_chars(rest.as_slice(), p.len(), rest.len());
        assert(next@ =~= s@.skip(start as int));
        rest = next;
    }
    rest
}

impl MatrixConfig {
    /// The server name that `/.well-known/matrix/server` announces: the federation host on
    /// port 443.
    pub fn well_known_server(&self) -> (r: String)
        ensures
            r@ == federation_host(self.homeserver_url@) + ":443"@,
            !("http://"@.is_prefix_of(federation_host(self.homeserver_url@))),
    {
        proof {
            reveal_strlit("http://");
            lemma_trim_start_all(trim_start_all(self.homeserver_url@, "https://"@), "http://"@);
        }
        let url = chars_of(self.homeserver_url.as_str());
        let https = chars_of("https://");
        let http = chars_of("http://");
        let once = trim_start_chars(url.as_slice(), https.as_slice());
        let mut host = trim_start_chars(once.as_slice(), http.as_slice());
        push_str(&mut host, ":443");
        string_of(&host)
    }
}

} // verus!
