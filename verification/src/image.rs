//! Images as the compressor sees them, and what `identify` reports of them.
use vstd::prelude::*;

use crate::outside::{chars_of, string_of};
use crate::text::{
    after_last, after_last_chars, before_first, before_first_chars, contains_chars, contains_text,
    lines_of, nth_field, nth_field_chars, parse_usize, parse_usize_chars, split_lines, split_once,
    split_once_chars,
};

verus! {

/// The seconds of a week: a cached file younger than this is kept.
pub const CACHE_LIFETIME_SECS: u64 = 604800;

/// The exit code and the text (standard output on success, standard error otherwise) of a
/// finished command.
pub struct CommandOutput {
    pub code: i32,
    pub text: String,
}

impl View for CommandOutput {
    type V = (i32, Seq<char>);

    open spec fn view(&self) -> (i32, Seq<char>) {
        (self.code, self.text@)
    }
}

/// An image file known to the compressor.
#[derive(Debug)]
pub struct Image {
    pub width: usize,
    pub height: usize,
    pub path: String,
    pub codec: String,
    pub animated: bool,
    /// Cleared when the file this one is derived from has just been rewritten.
    pub cached: bool,
}

pub struct ImageView {
    pub width: usize,
    pub height: usize,
    pub path: Seq<char>,
    pub codec: Seq<char>,
    pub animated: bool,
    pub cached: bool,
}

impl View for Image {
    type V = ImageView;

    open spec fn view(&self) -> ImageView {
        ImageView {
            width: self.width,
            height: self.height,
            path: self.path@,
            codec: self.codec@,
            animated: self.animated,
            cached: self.cached,
        }
    }
}

/// Why a line of `identify` output could not be read.
#[derive(PartialEq, Eq, Structural, Clone, Copy, Debug)]
pub enum IdentifyError {
    /// The line has no fourth space-separated field.
    MissingGeometry,
    /// The geometry has no `+`.
    MissingOffset,
    /// The size has no `x`.
    MissingSeparator,
    /// The width is not a number.
    BadWidth,
    /// The height is not a number.
    BadHeight,
}

/// What `identify` says of an image: whether it has several frames, and the size given on
/// its last line.
#[derive(Clone, Copy, Debug)]
pub struct IdentifyReport {
    pub animated: bool,
    pub size: Option<(usize, usize)>,
}

/// The size on one line of `identify` output: the fourth space-separated field, up to its
/// first `+`, split at its first `x`, each side read as a number up to its first `.`.
pub open spec fn identify_line_size(l: Seq<char>) -> Result<(usize, usize), IdentifyError> {
    match nth_field(l, ' ', 3) {
        None => Err(IdentifyError::MissingGeometry),
        Some(g) => match split_once(g, '+') {
            None => Err(IdentifyError::MissingOffset),
            Some((dims, _)) => match split_once(dims, 'x') {
                None => Err(IdentifyError::MissingSeparator),
                Some((w, h)) => match parse_usize(before_first(w, '.')) {
                    None => Err(IdentifyError::BadWidth),
                    Some(wv) => match parse_usize(before_first(h, '.')) {
                        None => Err(IdentifyError::BadHeight),
                        Some(hv) => Ok((wv, hv)),
                    },
                },
            },
        },
    }
}

/// The report of a run of lines, or the error of the first line that cannot be read.
pub open spec fn identify_lines(lines: Seq<Seq<char>>) -> Result<IdentifyReport, IdentifyError>
    decreases lines.len(),
{
    if lines.len() == 0 {
        Ok(IdentifyReport { animated: false, size: None })
    } else {
        match identify_lines(lines.drop_last()) {
            Err(e) => Err(e),
            Ok(r) => match identify_line_size(lines.last()) {
                Err(e) => Err(e),
                Ok(sz) => Ok(
                    IdentifyReport {
                        animated: r.animated || contains_text(lines.last(), seq!['[', '0', ']']),
                        size: Some(sz),
                    },
                ),
            },
        }
    }
}

/// The report of a whole `identify` output.
pub open spec fn identify_report(text: Seq<char>) -> Result<IdentifyReport, IdentifyError> {
    identify_lines(lines_of(text))
}

/// Whether a finished `identify` run can be applied to an image: a failed run changes
/// nothing, a successful one must be readable.
pub open spec fn probe_readable(out: (i32, Seq<char>)) -> bool {
    out.0 != 0 || identify_report(out.1) is Ok
}

/// An image after an `identify` run: unchanged where the run failed, otherwise its frame
/// flag replaced and its size taken from the last line, if there is one.
pub open spec fn probed(img: ImageView, out: (i32, Seq<char>)) -> ImageView {
    if out.0 != 0 {
        img
    } else {
        match identify_report(out.1) {
            Ok(r) => match r.size {
                Some((w, h)) => ImageView { width: w, height: h, animated: r.animated, ..img },
                None => ImageView { animated: r.animated, ..img },
            },
            Err(_) => img,
        }
    }
}

/// A fresh image record for a path, before `identify` has run on it.
pub open spec fn fresh_image(path: Seq<char>, cached: bool) -> ImageView {
    ImageView {
        width: 0,
        height: 0,
        path: path,
        codec: after_last(path, '.'),
        animated: false,
        cached: cached,
    }
}

/// Whether a file must be made anew: its source changed, or it is missing, or it is a week
/// old or older (`age` is `None` where the file or its time cannot be read).
pub open spec fn violates_cache_rules(cached: bool, age: Option<u64>) -> bool {
    !cached || match age {
        None => true,
        Some(a) => a >= CACHE_LIFETIME_SECS,
    }
}

/// Reads one line of `identify` output.
pub fn parse_identify_line(l: &[char]) -> (r: Result<(usize, usize), IdentifyError>)
    ensures
        r == identify_line_size(l@),
{
    let g = match nth_field_chars(l, ' ', 3) {
        None => return Err(IdentifyError::MissingGeometry),
        Some(g) => g,
    };
    let dims = match split_once_chars(g.as_slice(), '+') {
        None => return Err(IdentifyError::MissingOffset),
        Some(p) => p.0,
    };
    let (w, h) = match split_once_chars(dims.as_slice(), 'x') {
        None => return Err(IdentifyError::MissingSeparator),
        Some(p) => p,
    };
    let w_int = before_first_chars(w.as_slice(), '.');
    let wv = match parse_usize_chars(w_int.as_slice()) {
        None => return Err(IdentifyError::BadWidth),
        Some(v) => v,
    };
    let h_int = before_first_chars(h.as_slice(), '.');
    match parse_usize_chars(h_int.as_slice()) {
        None => Err(IdentifyError::BadHeight),
        Some(hv) => Ok((wv, hv)),
    }
}

/// Reads a whole `identify` output: the error of the first unreadable line, or whether
/// some line names frame `[0]` and the size on the last line.
pub fn parse_identify(text: &str) -> (r: Result<IdentifyReport, IdentifyError>)
    ensures
        r == identify_report(text@),
{
    let chars = chars_of(text);
    let lines = split_lines(chars.as_slice());
    let ghost ls = lines_of(text@);
    let marker = chars_of("[0]");
    assert(marker@ == seq!['[', '0', ']']) by {
        reveal_strlit("[0]");
    }
    let mut report = IdentifyReport { animated: false, size: None };
    let mut i: usize = 0;
    assert(ls.take(0) =~= Seq::<Seq<char>>::empty());
    while i < lines.len()
        invariant
            0 <= i <= lines@.len(),
            ls == lines_of(text@),
            lines@.len() == ls.len(),
            forall|k: int| 0 <= k < lines@.len() ==> #[trigger] lines@[k]@ == ls[k],
            marker@ == seq!['[', '0', ']'],
            identify_lines(ls.take(i as int)) == Ok::<IdentifyReport, IdentifyError>(report),
        decreases lines@.len() - i,
    {
        let line = &lines[i];
        assert(lines@[i as int]@ == ls[i as int]);
        assert(ls.take(i + 1).drop_last() =~= ls.take(i as int));
        assert(ls.take(i + 1).last() == line@);
        let has_marker = contains_chars(line.as_slice(), marker.as_slice());
        match parse_identify_line(line.as_slice()) {
            Err(e) => {
                proof {
                    assert(lines@[i as int]@ == ls[i as int]);
                    assert(identify_line_size(ls.take(i + 1).last()) == Err::<(usize, usize), IdentifyError>(e));
                    assert(identify_lines(ls.take(i + 1)) == Err::<IdentifyReport, IdentifyError>(e));
                    lemma_identify_prefix_error(ls, (i + 1) as int, e);
                    assert(ls.take(ls.len() as int) =~= ls);
                }
                return Err(e);
            },
            Ok(sz) => {
                report = IdentifyReport { animated: report.animated || has_marker, size: Some(sz) };
            },
        }
        i += 1;
    }
    assert(ls.take(ls.len() as int) =~= ls);
    Ok(report)
}

/// An error on some line stays the error of every longer run of lines.
proof fn lemma_identify_prefix_error(ls: Seq<Seq<char>>, k: int, e: IdentifyError)
    requires
        0 <= k <= ls.len(),
        identify_lines(ls.take(k)) == Err::<IdentifyReport, IdentifyError>(e),
    ensures
        identify_lines(ls) == Err::<IdentifyReport, IdentifyError>(e),
    decreases ls.len() - k,
{
    if k < ls.len() {
        assert(ls.take(k + 1).drop_last() =~= ls.take(k));
        lemma_identify_prefix_error(ls, k + 1, e);
    } else {
        assert(ls.take(k) =~= ls);
    }
}

/// Whether a file must be made anew (see `violates_cache_rules`).
pub fn file_violates_cache_rules(cached: bool, age: Option<u64>) -> (r: bool)
    ensures
        r == violates_cache_rules(cached, age),
{
    if !cached {
        return true;
    }
    match age {
        Some(a) => a >= CACHE_LIFETIME_SECS,
        None => true,
    }
}

impl Image {
    /// A copy of the record.
    pub fn duplicate(&self) -> (r: Image)
        ensures
            r@ == self@,
    {
        Image {
            width: self.width,
            height: self.height,
            path: self.path.clone(),
            codec: self.codec.clone(),
            animated: self.animated,
            cached: self.cached,
        }
    }

    /// Applies a finished `identify` run on the image's path: a failed run changes nothing;
    /// a successful one sets the frame flag and, where it reports a size, the size.
    pub fn refresh(&mut self, probe: &CommandOutput)
        requires
            probe_readable(probe@),
        ensures
            final(self)@ == probed(old(self)@, probe@),
    {
        if probe.code != 0 {
            return;
        }
        match parse_identify(probe.text.as_str()) {
            Ok(r) => {
                self.animated = r.animated;
                match r.size {
                    Some((w, h)) => {
                        self.width = w;
                        self.height = h;
                    },
                    None => {},
                }
            },
            Err(_) => {},
        }
    }

    /// The record of the image at `path`, its codec taken from the extension, then
    /// `probe` (the `identify` run on `path`) applied.
    pub fn new_with_cache_set(path: String, cached: bool, probe: &CommandOutput) -> (r: Image)
        requires
            probe_readable(probe@),
        ensures
            r@ == probed(fresh_image(path@, cached), probe@),
    {
        let mut img = Image::fresh(path, cached);
        img.refresh(probe);
        img
    }

    /// The record of a path before `identify` has run on it.
    pub fn fresh(path: String, cached: bool) -> (r: Image)
        ensures
            r@ == fresh_image(path@, cached),
    {
        let chars = chars_of(path.as_str());
        let ext = after_last_chars(chars.as_slice(), '.');
        Image { width: 0, height: 0, codec: string_of(&ext), path: path, animated: false, cached: cached }
    }

    /// `new_with_cache_set` for a file whose source has not changed.
    pub fn new(path: String, probe: &CommandOutput) -> (r: Image)
        requires
            probe_readable(probe@),
        ensures
            r@ == probed(fresh_image(path@, true), probe@),
    {
        Self::new_with_cache_set(path, true, probe)
    }

    /// Points the record at another file: codec from the new extension, then `probe` (the
    /// `identify` run on the new path) applied; size and frame flag stay where it fails.
    pub fn update_path(&mut self, path: String, probe: &CommandOutput)
        requires
            probe_readable(probe@),
        ensures
            final(self)@ == probed(
                ImageView { path: path@, codec: after_last(path@, '.'), ..old(self)@ },
                probe@,
            ),
    {
        let chars = chars_of(path.as_str());
        let ext = after_last_chars(chars.as_slice(), '.');
        self.codec = string_of(&ext);
        self.path = path;
        self.refresh(probe);
    }

    /// Whether the file must be made anew, given its age in seconds (`None` where it cannot
    /// be read).
    pub fn file_violates_cache_rules(&self, age: Option<u64>) -> (r: bool)
        ensures
            r == violates_cache_rules(self.cached, age),
    {
        file_violates_cache_rules(self.cached, age)
    }
}

} // verus!
