//! The image compressor: which files it makes, with which commands, and in which order.
//!
//! Compressing one image alternates outside work (running `identify`, `curl`, `convert`,
//! `gif2webp`, `cjxl`, `cwebp`, and reading how old a file is) with decisions. A
//! [`CompressJob`] holds the decisions: it names the next piece of outside work with
//! [`CompressJob::action`], and [`CompressJob::resume`] takes what that work gave back.
use vstd::prelude::*;

use crate::image::{
    fresh_image, identify_report, probe_readable, probed, violates_cache_rules, CommandOutput, IdentifyError,
    IdentifyReport, Image, ImageView,
};
use crate::outside::{chars_of, crc32, crc32_of, string_of};
use crate::text::{after_last, dec, digit_char, hex, owned, push_dec, push_hex, push_str, str_ends_with, str_starts_with};
use vstd::utf8::encode_utf8;

verus! {

/// The widest image that is ever encoded.
pub const MAX_ENCODED_WIDTH: usize = 3600;

/// Where the compressor keeps its files, and whether it trades quality for speed.
pub struct ImageCompressor {
    pub work_directory: String,
    pub speed_mode: bool,
}

pub struct CompressorView {
    pub work_directory: Seq<char>,
    pub speed_mode: bool,
}

impl View for ImageCompressor {
    type V = CompressorView;

    open spec fn view(&self) -> CompressorView {
        CompressorView { work_directory: self.work_directory@, speed_mode: self.speed_mode }
    }
}

/// The settings handed to the encoders. The JPEG XL distance is kept in tenths
/// (`10` stands for a distance of `1`).
pub struct EncodingOptions {
    pub webp_lossless: bool,
    pub webp_quality: u32,
    pub jxl_distance_tenths: u32,
    pub webp_animation_effort: u8,
    pub webp_effort: u8,
    pub jxl_effort: u8,
    pub resolutions: Option<Vec<usize>>,
}

pub struct OptionsView {
    pub webp_lossless: bool,
    pub webp_quality: u32,
    pub jxl_distance_tenths: u32,
    pub webp_animation_effort: u8,
    pub webp_effort: u8,
    pub jxl_effort: u8,
    pub resolutions: Option<Seq<usize>>,
}

impl View for EncodingOptions {
    type V = OptionsView;

    open spec fn view(&self) -> OptionsView {
        OptionsView {
            webp_lossless: self.webp_lossless,
            webp_quality: self.webp_quality,
            jxl_distance_tenths: self.jxl_distance_tenths,
            webp_animation_effort: self.webp_animation_effort,
            webp_effort: self.webp_effort,
            jxl_effort: self.jxl_effort,
            resolutions: match self.resolutions {
                Some(r) => Some(r@),
                None => None,
            },
        }
    }
}

/// The step of a file's making that a job waits at.
#[derive(PartialEq, Eq, Structural, Clone, Copy, Debug)]
pub enum Phase {
    /// `identify` on the file.
    Probe,
    /// How old the file is.
    Age,
    /// The command that makes the file.
    Run,
    /// `identify` on the file once made.
    Refresh,
}

/// Which file a job is making, and at which step; or how it ended.
#[derive(PartialEq, Eq, Structural, Clone, Copy, Debug)]
pub enum Stage {
    /// The source image (downloaded first where it is a URL).
    Source(Phase),
    /// A PNG copy of a WebP or JPEG XL source; its `Refresh` points the source at the copy.
    Png(Phase),
    /// An animated WebP of an animated source.
    Animation(Phase),
    /// The source resized to the current width.
    Resize(Phase),
    /// The JPEG XL encoding of the resized image.
    Jxl(Phase),
    /// The WebP encoding of the resized image.
    Webp(Phase),
    /// Finished with the images gathered.
    Done,
    /// Finished because the download failed.
    DownloadFailed,
}

/// What a job waits for.
pub enum Event {
    /// A finished command (`identify` included).
    Output(CommandOutput),
    /// The age of a file in seconds, `None` where it cannot be read.
    Age(Option<u64>),
}

pub enum EventView {
    Output((i32, Seq<char>)),
    Age(Option<u64>),
}

impl View for Event {
    type V = EventView;

    open spec fn view(&self) -> EventView {
        match self {
            Event::Output(o) => EventView::Output(o@),
            Event::Age(a) => EventView::Age(*a),
        }
    }
}

/// The outside work a job asks for next.
pub enum Action {
    /// Run `identify` on this path.
    Identify(String),
    /// Tell how old the file at this path is.
    FileAge(String),
    /// Run this command (program first, then its arguments).
    Run(Vec<String>),
    /// The job is over, with this result.
    Finished(Result<Vec<Image>, &'static str>),
}

pub enum ActionView {
    Identify(Seq<char>),
    FileAge(Seq<char>),
    Run(Seq<Seq<char>>),
    Finished(Result<Seq<ImageView>, Seq<char>>),
}

pub open spec fn strings_view(v: Seq<String>) -> Seq<Seq<char>> {
    v.map_values(|s: String| s@)
}

pub open spec fn images_view(v: Seq<Image>) -> Seq<ImageView> {
    v.map_values(|i: Image| i@)
}

impl View for Action {
    type V = ActionView;

    open spec fn view(&self) -> ActionView {
        match self {
            Action::Identify(p) => ActionView::Identify(p@),
            Action::FileAge(p) => ActionView::FileAge(p@),
            Action::Run(args) => ActionView::Run(strings_view(args@)),
            Action::Finished(Ok(imgs)) => ActionView::Finished(Ok(images_view(imgs@))),
            Action::Finished(Err(e)) => ActionView::Finished(Err(e@)),
        }
    }
}

/// The compression of one image, between two pieces of outside work.
pub struct CompressJob {
    work_directory: String,
    speed_mode: bool,
    image_path: String,
    options: EncodingOptions,
    stage: Stage,
    working: Image,
    current: Image,
    resized: Image,
    cache_output: String,
    publish_output: String,
    plan: Vec<usize>,
    next: usize,
    res: usize,
    images: Vec<Image>,
}

pub struct JobView {
    pub work_directory: Seq<char>,
    pub speed_mode: bool,
    pub image_path: Seq<char>,
    pub options: OptionsView,
    pub stage: Stage,
    /// The source image as the job now knows it.
    pub working: ImageView,
    /// The file being made.
    pub current: ImageView,
    /// The resized image of the current width.
    pub resized: ImageView,
    pub cache_output: Seq<char>,
    pub publish_output: Seq<char>,
    /// The widths to make, in order, and the index of the next one.
    pub plan: Seq<usize>,
    pub next: nat,
    /// The width being made.
    pub res: usize,
    /// The images gathered so far.
    pub images: Seq<ImageView>,
}

impl View for CompressJob {
    type V = JobView;

    closed spec fn view(&self) -> JobView {
        JobView {
            work_directory: self.work_directory@,
            speed_mode: self.speed_mode,
            image_path: self.image_path@,
            options: self.options@,
            stage: self.stage,
            working: self.working@,
            current: self.current@,
            resized: self.resized@,
            cache_output: self.cache_output@,
            publish_output: self.publish_output@,
            plan: self.plan@,
            next: self.next as nat,
            res: self.res,
            images: images_view(self.images@),
        }
    }
}

// ---------------------------------------------------------------- names of files

/// The checksum of the UTF-8 bytes of a text.
pub open spec fn text_crc(s: Seq<char>) -> u32 {
    crc32_of(encode_utf8(s))
}

/// Where a downloaded image is kept: named by the checksum of its URL in hexadecimal, with
/// the URL's extension.
pub open spec fn url_cache_path(wd: Seq<char>, url: Seq<char>) -> Seq<char> {
    wd + "/artifacts/"@ + "cache/image-url-"@ + hex(text_crc(url) as nat) + "."@ + after_last(url, '.')
}

/// The file a job starts from: the download location for a URL (a path starting with
/// `http`), else the path itself.
pub open spec fn source_path(wd: Seq<char>, path: Seq<char>) -> Seq<char> {
    if "http"@.is_prefix_of(path) {
        url_cache_path(wd, path)
    } else {
        path
    }
}

/// The stem of the intermediate files of a source, named by the decimal checksum of its path.
pub open spec fn cache_base(wd: Seq<char>, path: Seq<char>) -> Seq<char> {
    wd + "/artifacts/"@ + "cache/"@ + dec(text_crc(path) as nat)
}

/// The stem of the published files of a source.
pub open spec fn publish_base(wd: Seq<char>, path: Seq<char>) -> Seq<char> {
    wd + "/artifacts/"@ + "publish/"@ + dec(text_crc(path) as nat)
}

pub open spec fn png_path(cache: Seq<char>) -> Seq<char> {
    cache + ".png"@
}

pub open spec fn animation_path(publish: Seq<char>, res: usize) -> Seq<char> {
    publish + "_ani_"@ + dec(res as nat) + ".webp"@
}

pub open spec fn resize_path(cache: Seq<char>, res: usize) -> Seq<char> {
    cache + "_resize_pre_"@ + dec(res as nat) + ".png"@
}

pub open spec fn jxl_path(publish: Seq<char>, res: usize) -> Seq<char> {
    publish + "_"@ + dec(res as nat) + ".jxl"@
}

pub open spec fn webp_path(publish: Seq<char>, res: usize) -> Seq<char> {
    publish + "_"@ + dec(res as nat) + ".webp"@
}

/// A distance in tenths written as a float prints: `10` as `1`, `15` as `1.5`.
pub open spec fn distance_text(tenths: nat) -> Seq<char> {
    if tenths % 10 == 0 {
        dec(tenths / 10)
    } else {
        dec(tenths / 10) + seq!['.', digit_char(tenths % 10)]
    }
}

/// The widths to make: the ones asked for; else, at full quality, six fixed widths and the
/// source's own; at speed, the source's own width below 600 pixels, else 1200 and 600.
pub open spec fn plan_for(resolutions: Option<Seq<usize>>, speed_mode: bool, width: usize) -> Seq<usize> {
    match resolutions {
        Some(r) => r,
        None => if !speed_mode {
            seq![1800usize, 1530, 1200, 792, 600, 300, width]
        } else if width < 600 {
            seq![width]
        } else {
            seq![1200usize, 600]
        },
    }
}

// ---------------------------------------------------------------- transitions

/// A job at its first step.
pub open spec fn start_job(c: CompressorView, path: Seq<char>, o: OptionsView) -> JobView {
    JobView {
        work_directory: c.work_directory,
        speed_mode: c.speed_mode,
        image_path: path,
        options: o,
        stage: Stage::Source(Phase::Probe),
        working: fresh_image(source_path(c.work_directory, path), true),
        current: fresh_image(Seq::empty(), true),
        resized: fresh_image(Seq::empty(), true),
        cache_output: Seq::empty(),
        publish_output: Seq::empty(),
        plan: Seq::empty(),
        next: 0,
        res: 0,
        images: Seq::empty(),
    }
}

/// Moves on to the next width of the plan that can be made, or ends the job with the
/// images gathered. Widths above the source's or above `MAX_ENCODED_WIDTH` are skipped;
/// an animated source is only made at its own width.
pub open spec fn advance(j: JobView) -> JobView
    decreases j.plan.len() - j.next,
{
    if j.next >= j.plan.len() {
        JobView { stage: Stage::Done, ..j }
    } else {
        let res = j.plan[j.next as int];
        let k = JobView { next: j.next + 1, res: res, ..j };
        if j.working.width < res || res > MAX_ENCODED_WIDTH {
            advance(k)
        } else if j.working.animated {
            if j.working.width == res {
                JobView {
                    stage: Stage::Animation(Phase::Probe),
                    current: fresh_image(animation_path(j.publish_output, res), j.working.cached),
                    ..k
                }
            } else {
                advance(k)
            }
        } else {
            JobView {
                stage: Stage::Resize(Phase::Probe),
                current: fresh_image(resize_path(j.cache_output, res), j.working.cached),
                ..k
            }
        }
    }
}

/// Once the source is known: names its intermediate and published files, then converts it
/// to PNG where it is a still WebP or JPEG XL, else plans the widths.
pub open spec fn after_source(j: JobView) -> JobView {
    let k = JobView {
        cache_output: cache_base(j.work_directory, j.working.path),
        publish_output: publish_base(j.work_directory, j.working.path),
        ..j
    };
    if ("webp"@.is_suffix_of(j.working.path) || "jxl"@.is_suffix_of(j.working.path))
        && !j.working.animated {
        JobView {
            stage: Stage::Png(Phase::Probe),
            current: fresh_image(png_path(k.cache_output), true),
            ..k
        }
    } else {
        after_png(k)
    }
}

/// Plans the widths from the source's width and moves to the first one.
pub open spec fn after_png(j: JobView) -> JobView {
    advance(
        JobView {
            plan: plan_for(j.options.resolutions, j.speed_mode, j.working.width),
            next: 0,
            ..j
        },
    )
}

/// After a file's `identify`: ask its age, or make it at once where its source changed.
pub open spec fn after_probe(j: JobView, kind: spec_fn(Phase) -> Stage) -> JobView {
    if j.current.cached {
        JobView { stage: kind(Phase::Age), ..j }
    } else {
        JobView { stage: kind(Phase::Run), ..j }
    }
}

/// The images of an animated width: the animated WebP where it came out animated, then the
/// source itself.
pub open spec fn finish_animation(j: JobView) -> JobView {
    let gathered = if j.current.animated { j.images.push(j.current) } else { j.images };
    advance(JobView { images: gathered.push(j.working), ..j })
}

pub open spec fn begin_jxl(j: JobView) -> JobView {
    JobView {
        stage: Stage::Jxl(Phase::Probe),
        resized: j.current,
        current: fresh_image(jxl_path(j.publish_output, j.res), j.current.cached),
        ..j
    }
}

pub open spec fn begin_webp(j: JobView) -> JobView {
    JobView {
        stage: Stage::Webp(Phase::Probe),
        current: fresh_image(webp_path(j.publish_output, j.res), j.resized.cached),
        ..j
    }
}

/// Ends the job with the source alone.
pub open spec fn give_up(j: JobView) -> JobView {
    JobView { stage: Stage::Done, images: seq![j.working], ..j }
}

pub open spec fn output_code(ev: EventView) -> i32 {
    match ev {
        EventView::Output(o) => o.0,
        EventView::Age(_) => 0,
    }
}

pub open spec fn output_of(ev: EventView) -> (i32, Seq<char>) {
    match ev {
        EventView::Output(o) => o,
        EventView::Age(_) => (0, Seq::empty()),
    }
}

pub open spec fn age_of(ev: EventView) -> Option<u64> {
    match ev {
        EventView::Age(a) => a,
        EventView::Output(_) => None,
    }
}

/// Whether a job can take an event: an age where it asked for one, a command's output
/// where it ran one, and readable `identify` output where it ran `identify`.
pub open spec fn accepts(j: JobView, ev: EventView) -> bool {
    match j.stage {
        Stage::Done | Stage::DownloadFailed => false,
        Stage::Source(p) | Stage::Png(p) | Stage::Animation(p) | Stage::Resize(p) | Stage::Jxl(p)
        | Stage::Webp(p) => match p {
            Phase::Age => ev is Age,
            Phase::Run => ev is Output,
            Phase::Probe | Phase::Refresh => ev is Output && probe_readable(output_of(ev)),
        },
    }
}

/// One step of a job.
pub open spec fn step(j: JobView, ev: EventView) -> JobView {
    let out = output_of(ev);
    let ok = output_code(ev) == 0;
    let age = age_of(ev);
    match j.stage {
        Stage::Source(Phase::Probe) => {
            let k = JobView { working: probed(j.working, out), ..j };
            if "http"@.is_prefix_of(j.image_path) {
                JobView { stage: Stage::Source(Phase::Age), ..k }
            } else {
                after_source(k)
            }
        },
        Stage::Source(Phase::Age) => if violates_cache_rules(j.working.cached, age) {
            JobView { stage: Stage::Source(Phase::Run), ..j }
        } else {
            after_source(j)
        },
        Stage::Source(Phase::Run) => if ok {
            JobView { stage: Stage::Source(Phase::Refresh), ..j }
        } else {
            JobView { stage: Stage::DownloadFailed, ..j }
        },
        Stage::Source(Phase::Refresh) => after_source(
            JobView { working: ImageView { cached: false, ..probed(j.working, out) }, ..j },
        ),
        Stage::Png(Phase::Probe) => after_probe(
            JobView { current: probed(j.current, out), ..j },
            |p: Phase| Stage::Png(p),
        ),
        Stage::Png(Phase::Age) => if violates_cache_rules(j.current.cached, age) {
            JobView { stage: Stage::Png(Phase::Run), ..j }
        } else {
            JobView { stage: Stage::Png(Phase::Refresh), ..j }
        },
        Stage::Png(Phase::Run) => if ok {
            JobView {
                stage: Stage::Png(Phase::Refresh),
                working: ImageView { cached: false, ..j.working },
                ..j
            }
        } else {
            give_up(j)
        },
        Stage::Png(Phase::Refresh) => after_png(
            JobView {
                working: probed(
                    ImageView {
                        path: j.current.path,
                        codec: after_last(j.current.path, '.'),
                        ..j.working
                    },
                    out,
                ),
                ..j
            },
        ),
        Stage::Animation(Phase::Probe) => after_probe(
            JobView { current: probed(j.current, out), ..j },
            |p: Phase| Stage::Animation(p),
        ),
        Stage::Animation(Phase::Age) => if violates_cache_rules(j.current.cached, age) {
            JobView { stage: Stage::Animation(Phase::Run), ..j }
        } else {
            finish_animation(j)
        },
        Stage::Animation(Phase::Run) => if ok {
            JobView { stage: Stage::Animation(Phase::Refresh), ..j }
        } else {
            finish_animation(j)
        },
        Stage::Animation(Phase::Refresh) => finish_animation(
            JobView { current: probed(j.current, out), ..j },
        ),
        Stage::Resize(Phase::Probe) => after_probe(
            JobView { current: probed(j.current, out), ..j },
            |p: Phase| Stage::Resize(p),
        ),
        Stage::Resize(Phase::Age) => if violates_cache_rules(j.current.cached, age) {
            JobView { stage: Stage::Resize(Phase::Run), ..j }
        } else {
            begin_jxl(j)
        },
        Stage::Resize(Phase::Run) => if ok {
            JobView { stage: Stage::Resize(Phase::Refresh), ..j }
        } else {
            give_up(j)
        },
        Stage::Resize(Phase::Refresh) => begin_jxl(
            JobView { current: ImageView { cached: false, ..probed(j.current, out) }, ..j },
        ),
        Stage::Jxl(Phase::Probe) => after_probe(
            JobView { current: probed(j.current, out), ..j },
            |p: Phase| Stage::Jxl(p),
        ),
        Stage::Jxl(Phase::Age) => if violates_cache_rules(j.current.cached, age) {
            JobView { stage: Stage::Jxl(Phase::Run), ..j }
        } else {
            begin_webp(JobView { images: j.images.push(j.current), ..j })
        },
        Stage::Jxl(Phase::Run) => if ok {
            JobView { stage: Stage::Jxl(Phase::Refresh), ..j }
        } else {
            begin_webp(j)
        },
        Stage::Jxl(Phase::Refresh) => {
            let c = probed(j.current, out);
            begin_webp(JobView { current: c, images: j.images.push(c), ..j })
        },
        Stage::Webp(Phase::Probe) => after_probe(
            JobView { current: probed(j.current, out), ..j },
            |p: Phase| Stage::Webp(p),
        ),
        Stage::Webp(Phase::Age) => if violates_cache_rules(j.current.cached, age) {
            JobView { stage: Stage::Webp(Phase::Run), ..j }
        } else {
            advance(JobView { images: j.images.push(j.current), ..j })
        },
        Stage::Webp(Phase::Run) => if ok {
            JobView { stage: Stage::Webp(Phase::Refresh), ..j }
        } else {
            advance(j)
        },
        Stage::Webp(Phase::Refresh) => {
            let c = probed(j.current, out);
            advance(JobView { current: c, images: j.images.push(c), ..j })
        },
        Stage::Done | Stage::DownloadFailed => j,
    }
}

// ---------------------------------------------------------------- actions

/// The `cwebp` command for the current width.
pub open spec fn webp_command(j: JobView) -> Seq<Seq<char>> {
    if j.options.webp_lossless {
        seq![
            "cwebp"@, "-mt"@, "-lossless"@, "-z"@, dec(j.options.webp_effort as nat),
            "-alpha_filter"@, "best"@, "-metadata"@, "icc"@, j.resized.path, "-o"@, j.current.path,
        ]
    } else {
        seq![
            "cwebp"@, "-mt"@, "-q"@, dec(j.options.webp_quality as nat), "-z"@,
            dec(j.options.webp_effort as nat), "-alpha_filter"@, "best"@, "-metadata"@, "icc"@,
            j.resized.path, "-o"@, j.current.path,
        ]
    }
}

/// The command that makes the file a job is at.
pub open spec fn run_command(j: JobView) -> Seq<Seq<char>> {
    match j.stage {
        Stage::Source(_) => seq!["curl"@, j.image_path, "-o"@, j.working.path],
        Stage::Png(_) => seq!["convert"@, j.working.path, j.current.path],
        Stage::Animation(_) => seq![
            "gif2webp"@, "-q"@, dec(j.options.webp_quality as nat), "-m"@,
            dec(j.options.webp_animation_effort as nat), "-metadata"@, "icc"@, j.working.path,
            "-o"@, j.current.path,
        ],
        Stage::Resize(_) => seq![
            "convert"@, j.working.path, "-resize"@, dec(j.res as nat) + "x"@, j.current.path,
        ],
        Stage::Jxl(_) => seq![
            "cjxl"@, "-d"@, distance_text(j.options.jxl_distance_tenths as nat), "-e"@,
            dec(j.options.jxl_effort as nat), j.resized.path, j.current.path,
        ],
        Stage::Webp(_) => webp_command(j),
        Stage::Done | Stage::DownloadFailed => Seq::empty(),
    }
}

/// The file a job is at.
pub open spec fn subject(j: JobView) -> Seq<char> {
    match j.stage {
        Stage::Source(_) => j.working.path,
        _ => j.current.path,
    }
}

/// The outside work a job asks for.
pub open spec fn next_action(j: JobView) -> ActionView {
    match j.stage {
        Stage::Done => ActionView::Finished(Ok(j.images)),
        Stage::DownloadFailed => ActionView::Finished(Err("Curl failed"@)),
        Stage::Source(p) | Stage::Png(p) | Stage::Animation(p) | Stage::Resize(p) | Stage::Jxl(p)
        | Stage::Webp(p) => match p {
            Phase::Probe | Phase::Refresh => ActionView::Identify(subject(j)),
            Phase::Age => ActionView::FileAge(subject(j)),
            Phase::Run => ActionView::Run(run_command(j)),
        },
    }
}

/// What every job keeps: its place in the plan is within the plan.
pub open spec fn job_wf(j: JobView) -> bool {
    j.next <= j.plan.len()
}


// ================================================================ exec

/// The checksum of the UTF-8 bytes of a text.
fn text_checksum(s: &str) -> (r: u32)
    ensures
        r == text_crc(s@),
{
    crc32(s.as_bytes())
}

/// `base` followed by a text, a number and another text.
fn numbered(base: &String, mid: &str, n: usize, tail: &str) -> (r: String)
    ensures
        r@ == base@ + mid@ + dec(n as nat) + tail@,
{
    let mut v = chars_of(base.as_str());
    push_str(&mut v, mid);
    push_dec(&mut v, n as u64);
    push_str(&mut v, tail);
    string_of(&v)
}

/// `base` followed by a text.
fn suffixed(base: &String, tail: &str) -> (r: String)
    ensures
        r@ == base@ + tail@,
{
    let mut v = chars_of(base.as_str());
    push_str(&mut v, tail);
    string_of(&v)
}

/// A stem under the work directory, named by the decimal checksum of a path.
fn checksum_stem(wd: &String, dir: &str, path: &String) -> (r: String)
    ensures
        r@ == wd@ + "/artifacts/"@ + dir@ + dec(text_crc(path@) as nat),
{
    let sum = text_checksum(path.as_str());
    let mut v = chars_of(wd.as_str());
    push_str(&mut v, "/artifacts/");
    push_str(&mut v, dir);
    push_dec(&mut v, sum as u64);
    string_of(&v)
}

/// The file a job starts from.
fn source_location(wd: &String, path: &String) -> (r: String)
    ensures
        r@ == source_path(wd@, path@),
{
    if str_starts_with(path.as_str(), "http") {
        let sum = text_checksum(path.as_str());
        let chars = chars_of(path.as_str());
        let ext = crate::text::after_last_chars(chars.as_slice(), '.');
        let mut v = chars_of(wd.as_str());
        push_str(&mut v, "/artifacts/");
        push_str(&mut v, "cache/image-url-");
        push_hex(&mut v, sum as u64);
        push_str(&mut v, ".");
        crate::text::push_chars(&mut v, ext.as_slice());
        string_of(&v)
    } else {
        path.clone()
    }
}

/// The text a float distance prints as, from tenths.
fn distance_string(tenths: u32) -> (r: String)
    ensures
        r@ == distance_text(tenths as nat),
{
    let mut v: Vec<char> = Vec::new();
    push_dec(&mut v, (tenths / 10) as u64);
    if tenths % 10 != 0 {
        v.push('.');
        v.push(crate::text::digit_of(tenths % 10));
    }
    string_of(&v)
}

/// The widths to make (see `plan_for`).
pub fn resolution_plan(resolutions: &Option<Vec<usize>>, speed_mode: bool, width: usize) -> (r: Vec<usize>)
    ensures
        r@ == plan_for(
            match resolutions {
                Some(v) => Some(v@),
                None => None,
            },
            speed_mode,
            width,
        ),
{
    match resolutions {
        Some(v) => v.clone(),
        None => if !speed_mode {
            let r = vec![1800, 1530, 1200, 792, 600, 300, width];
            assert(r@ =~= seq![1800usize, 1530, 1200, 792, 600, 300, width]);
            r
        } else if width < 600 {
            let r = vec![width];
            assert(r@ =~= seq![width]);
            r
        } else {
            let r = vec![1200, 600];
            assert(r@ =~= seq![1200usize, 600]);
            r
        },
    }
}

/// Copies of a list of images.
fn copy_images(v: &Vec<Image>) -> (r: Vec<Image>)
    ensures
        images_view(r@) == images_view(v@),
{
    let mut r: Vec<Image> = Vec::new();
    let mut i: usize = 0;
    while i < v.len()
        invariant
            0 <= i <= v.len(),
            images_view(r@) =~= images_view(v@).take(i as int),
        decreases v.len() - i,
    {
        let ghost before = r@;
        r.push(v[i].duplicate());
        assert(r@ == before.push(r@.last()));
        assert(images_view(r@) =~= images_view(before).push(v@[i as int]@));
        assert(images_view(v@).take(i + 1) =~= images_view(v@).take(i as int).push(v@[i as int]@));
        i += 1;
    }
    assert(images_view(v@).take(v.len() as int) =~= images_view(v@));
    r
}

impl ImageCompressor {
    /// A compressor working in `working_directory`. The directories it writes to (see
    /// `artifact_directories`) must exist before it runs a job.
    pub fn new(working_directory: &str, speed_mode: bool) -> (r: ImageCompressor)
        ensures
            r@ == (CompressorView { work_directory: working_directory@, speed_mode: speed_mode }),
    {
        ImageCompressor { work_directory: owned(working_directory), speed_mode }
    }

    /// The directories the compressor writes to: its cache and its published files.
    pub fn artifact_directories(&self) -> (r: Vec<String>)
        ensures
            strings_view(r@) == seq![
                self.work_directory@ + "/artifacts/cache"@,
                self.work_directory@ + "/artifacts/publish"@,
            ],
    {
        let r = vec![
            suffixed(&self.work_directory, "/artifacts/cache"),
            suffixed(&self.work_directory, "/artifacts/publish"),
        ];
        assert(strings_view(r@) =~= seq![
            self.work_directory@ + "/artifacts/cache"@,
            self.work_directory@ + "/artifacts/publish"@,
        ]);
        r
    }

    /// Starts the compression of one image with the given encoder settings; the widths are
    /// `override_resolutions` where given, else chosen from the source (see `plan_for`).
    pub fn compress_with_encoding_options(
        &self,
        image_path: &str,
        webp_lossless: bool,
        webp_quality: u32,
        jxl_distance_tenths: u32,
        webp_animation_effort: u8,
        webp_effort: u8,
        jxl_effort: u8,
        override_resolutions: Option<Vec<usize>>,
    ) -> (r: CompressJob)
        ensures
            r@ == start_job(
                self@,
                image_path@,
                OptionsView {
                    webp_lossless,
                    webp_quality,
                    jxl_distance_tenths,
                    webp_animation_effort,
                    webp_effort,
                    jxl_effort,
                    resolutions: match override_resolutions {
                        Some(v) => Some(v@),
                        None => None,
                    },
                },
            ),
            job_wf(r@),
    {
        let path = owned(image_path);
        let source = source_location(&self.work_directory, &path);
        let r = CompressJob {
            work_directory: self.work_directory.clone(),
            speed_mode: self.speed_mode,
            image_path: path,
            options: EncodingOptions {
                webp_lossless,
                webp_quality,
                jxl_distance_tenths,
                webp_animation_effort,
                webp_effort,
                jxl_effort,
                resolutions: override_resolutions,
            },
            stage: Stage::Source(Phase::Probe),
            working: Image::fresh(source, true),
            current: Image::fresh(String::new(), true),
            resized: Image::fresh(String::new(), true),
            cache_output: String::new(),
            publish_output: String::new(),
            plan: Vec::new(),
            next: 0,
            res: 0,
            images: Vec::new(),
        };
        assert(images_view(r.images@) =~= Seq::<ImageView>::empty());
        r
    }

    /// Lossy compression at full quality, or the fast settings in speed mode.
    pub fn compress_lossy(&self, image_path: &str) -> (r: CompressJob)
        ensures
            r@ == (if self.speed_mode {
                start_job(self@, image_path@, speed_options())
            } else {
                start_job(self@, image_path@, lossy_options(None))
            }),
            job_wf(r@),
    {
        if self.speed_mode {
            return self.compress_speed(image_path);
        }
        self.compress_with_encoding_options(image_path, false, 100, 10, 6, 9, 10, None)
    }

    /// Lossless compression at full quality, or the fast settings in speed mode.
    pub fn compress_lossless(&self, image_path: &str) -> (r: CompressJob)
        ensures
            r@ == (if self.speed_mode {
                start_job(self@, image_path@, speed_options())
            } else {
                start_job(self@, image_path@, lossless_options())
            }),
            job_wf(r@),
    {
        if self.speed_mode {
            return self.compress_speed(image_path);
        }
        self.compress_with_encoding_options(image_path, true, 100, 0, 6, 9, 10, None)
    }

    /// The fast settings: lower quality, least effort.
    pub fn compress_speed(&self, image_path: &str) -> (r: CompressJob)
        ensures
            r@ == start_job(self@, image_path@, speed_options()),
            job_wf(r@),
    {
        self.compress_with_encoding_options(image_path, false, 75, 30, 1, 1, 5, None)
    }

    /// Lossy compression at full quality to exactly the given widths (those the source
    /// allows), whatever the mode.
    pub fn compress_lossy_with_custom_resolutions(&self, image_path: &str, overrides: Vec<usize>) -> (r: CompressJob)
        ensures
            r@ == start_job(self@, image_path@, lossy_options(Some(overrides@))),
            job_wf(r@),
    {
        self.compress_with_encoding_options(image_path, false, 100, 10, 6, 9, 10, Some(overrides))
    }
}

/// The full-quality lossy settings.
pub open spec fn lossy_options(resolutions: Option<Seq<usize>>) -> OptionsView {
    OptionsView {
        webp_lossless: false,
        webp_quality: 100,
        jxl_distance_tenths: 10,
        webp_animation_effort: 6,
        webp_effort: 9,
        jxl_effort: 10,
        resolutions: resolutions,
    }
}

/// The full-quality lossless settings.
pub open spec fn lossless_options() -> OptionsView {
    OptionsView {
        webp_lossless: true,
        webp_quality: 100,
        jxl_distance_tenths: 0,
        webp_animation_effort: 6,
        webp_effort: 9,
        jxl_effort: 10,
        resolutions: None,
    }
}

/// The fast settings.
pub open spec fn speed_options() -> OptionsView {
    OptionsView {
        webp_lossless: false,
        webp_quality: 75,
        jxl_distance_tenths: 30,
        webp_animation_effort: 1,
        webp_effort: 1,
        jxl_effort: 5,
        resolutions: None,
    }
}

impl CompressJob {
    /// Where the job stands.
    pub fn stage(&self) -> (r: Stage)
        ensures
            r == self@.stage,
    {
        self.stage
    }

    fn advance(&mut self)
        requires
            job_wf(old(self)@),
        ensures
            final(self)@ == advance(old(self)@),
            job_wf(final(self)@),
    {
        while self.next < self.plan.len()
            invariant
                job_wf(self@),
                advance(self@) == advance(old(self)@),
            decreases self.plan.len() - self.next,
        {
            let res = self.plan[self.next];
            self.next = self.next + 1;
            self.res = res;
            if self.working.width < res || res > MAX_ENCODED_WIDTH {
                continue;
            }
            if self.working.animated {
                if self.working.width == res {
                    let path = numbered(&self.publish_output, "_ani_", res, ".webp");
                    self.current = Image::fresh(path, self.working.cached);
                    self.stage = Stage::Animation(Phase::Probe);
                    return;
                }
                continue;
            }
            let path = numbered(&self.cache_output, "_resize_pre_", res, ".png");
            self.current = Image::fresh(path, self.working.cached);
            self.stage = Stage::Resize(Phase::Probe);
            return;
        }
        self.stage = Stage::Done;
    }

    fn after_png(&mut self)
        requires
            job_wf(old(self)@),
        ensures
            final(self)@ == after_png(old(self)@),
            job_wf(final(self)@),
    {
        self.plan = resolution_plan(&self.options.resolutions, self.speed_mode, self.working.width);
        self.next = 0;
        self.advance();
    }

    fn after_source(&mut self)
        requires
            job_wf(old(self)@),
        ensures
            final(self)@ == after_source(old(self)@),
            job_wf(final(self)@),
    {
        self.cache_output = checksum_stem(&self.work_directory, "cache/", &self.working.path);
        self.publish_output = checksum_stem(&self.work_directory, "publish/", &self.working.path);
        let still_special = (str_ends_with(self.working.path.as_str(), "webp")
            || str_ends_with(self.working.path.as_str(), "jxl")) && !self.working.animated;
        if still_special {
            self.current = Image::fresh(suffixed(&self.cache_output, ".png"), true);
            self.stage = Stage::Png(Phase::Probe);
        } else {
            self.after_png();
        }
    }

    fn finish_animation(&mut self)
        requires
            job_wf(old(self)@),
        ensures
            final(self)@ == finish_animation(old(self)@),
            job_wf(final(self)@),
    {
        if self.current.animated {
            let c = self.current.duplicate();
            self.images.push(c);
        }
        let w = self.working.duplicate();
        self.images.push(w);
        proof {
            let g = if old(self)@.current.animated {
                old(self)@.images.push(old(self)@.current)
            } else {
                old(self)@.images
            };
            assert(self@.images =~= g.push(old(self)@.working));
        }
        self.advance();
    }

    fn begin_jxl(&mut self)
        ensures
            final(self)@ == begin_jxl(old(self)@),
    {
        let path = numbered(&self.publish_output, "_", self.res, ".jxl");
        let cached = self.current.cached;
        let next = Image::fresh(path, cached);
        std::mem::swap(&mut self.resized, &mut self.current);
        self.current = next;
        self.stage = Stage::Jxl(Phase::Probe);
    }

    fn begin_webp(&mut self)
        ensures
            final(self)@ == begin_webp(old(self)@),
    {
        let path = numbered(&self.publish_output, "_", self.res, ".webp");
        self.current = Image::fresh(path, self.resized.cached);
        self.stage = Stage::Webp(Phase::Probe);
    }

    fn give_up(&mut self)
        ensures
            final(self)@ == give_up(old(self)@),
    {
        let w = self.working.duplicate();
        self.images = vec![w];
        assert(self@.images =~= seq![old(self)@.working]);
        self.stage = Stage::Done;
    }

    fn gather_current(&mut self)
        ensures
            final(self)@ == (JobView { images: old(self)@.images.push(old(self)@.current), ..old(self)@ }),
    {
        let c = self.current.duplicate();
        self.images.push(c);
        assert(self@.images =~= old(self)@.images.push(old(self)@.current));
    }

    /// Whether the job can take this event (see `accepts`); an `identify` output that cannot
    /// be read is refused.
    pub fn accepts(&self, ev: &Event) -> (r: bool)
        ensures
            r == accepts(self@, ev@),
    {
        let phase = match self.stage {
            Stage::Done | Stage::DownloadFailed => return false,
            Stage::Source(p) | Stage::Png(p) | Stage::Animation(p) | Stage::Resize(p)
            | Stage::Jxl(p) | Stage::Webp(p) => p,
        };
        match (phase, ev) {
            (Phase::Age, Event::Age(_)) => true,
            (Phase::Run, Event::Output(_)) => true,
            (Phase::Probe, Event::Output(o)) | (Phase::Refresh, Event::Output(o)) => {
                o.code != 0 || crate::image::parse_identify(o.text.as_str()).is_ok()
            },
            _ => false,
        }
    }

    /// Takes what the outside work asked for gave back, and moves to the next step.
    pub fn resume(&mut self, ev: Event)
        requires
            job_wf(old(self)@),
            accepts(old(self)@, ev@),
        ensures
            final(self)@ == step(old(self)@, ev@),
            job_wf(final(self)@),
    {
        let stage = self.stage;
        match ev {
            Event::Age(age) => match stage {
                Stage::Source(_) => {
                    if crate::image::file_violates_cache_rules(self.working.cached, age) {
                        self.stage = Stage::Source(Phase::Run);
                    } else {
                        self.after_source();
                    }
                },
                Stage::Png(_) => {
                    if self.current.file_violates_cache_rules(age) {
                        self.stage = Stage::Png(Phase::Run);
                    } else {
                        self.stage = Stage::Png(Phase::Refresh);
                    }
                },
                Stage::Animation(_) => {
                    if self.current.file_violates_cache_rules(age) {
                        self.stage = Stage::Animation(Phase::Run);
                    } else {
                        self.finish_animation();
                    }
                },
                Stage::Resize(_) => {
                    if self.current.file_violates_cache_rules(age) {
                        self.stage = Stage::Resize(Phase::Run);
                    } else {
                        self.begin_jxl();
                    }
                },
                Stage::Jxl(_) => {
                    if self.current.file_violates_cache_rules(age) {
                        self.stage = Stage::Jxl(Phase::Run);
                    } else {
                        self.gather_current();
                        self.begin_webp();
                    }
                },
                Stage::Webp(_) => {
                    if self.current.file_violates_cache_rules(age) {
                        self.stage = Stage::Webp(Phase::Run);
                    } else {
                        self.gather_current();
                        self.advance();
                    }
                },
                Stage::Done | Stage::DownloadFailed => {},
            },
            Event::Output(out) => {
                let ok = out.code == 0;
                match stage {
                    Stage::Source(Phase::Probe) => {
                        self.working.refresh(&out);
                        if str_starts_with(self.image_path.as_str(), "http") {
                            self.stage = Stage::Source(Phase::Age);
                        } else {
                            self.after_source();
                        }
                    },
                    Stage::Source(Phase::Run) => {
                        if ok {
                            self.stage = Stage::Source(Phase::Refresh);
                        } else {
                            self.stage = Stage::DownloadFailed;
                        }
                    },
                    Stage::Source(_) => {
                        self.working.refresh(&out);
                        self.working.cached = false;
                        self.after_source();
                    },
                    Stage::Png(Phase::Probe) => {
                        self.current.refresh(&out);
                        self.stage = if self.current.cached { Stage::Png(Phase::Age) } else { Stage::Png(Phase::Run) };
                    },
                    Stage::Png(Phase::Run) => {
                        if ok {
                            self.working.cached = false;
                            self.stage = Stage::Png(Phase::Refresh);
                        } else {
                            self.give_up();
                        }
                    },
                    Stage::Png(_) => {
                        let p = self.current.path.clone();
                        self.working.update_path(p, &out);
                        self.after_png();
                    },
                    Stage::Animation(Phase::Probe) => {
                        self.current.refresh(&out);
                        self.stage = if self.current.cached { Stage::Animation(Phase::Age) } else { Stage::Animation(Phase::Run) };
                    },
                    Stage::Animation(Phase::Run) => {
                        if ok {
                            self.stage = Stage::Animation(Phase::Refresh);
                        } else {
                            self.finish_animation();
                        }
                    },
                    Stage::Animation(_) => {
                        self.current.refresh(&out);
                        self.finish_animation();
                    },
                    Stage::Resize(Phase::Probe) => {
                        self.current.refresh(&out);
                        self.stage = if self.current.cached { Stage::Resize(Phase::Age) } else { Stage::Resize(Phase::Run) };
                    },
                    Stage::Resize(Phase::Run) => {
                        if ok {
                            self.stage = Stage::Resize(Phase::Refresh);
                        } else {
                            self.give_up();
                        }
                    },
                    Stage::Resize(_) => {
                        self.current.refresh(&out);
                        self.current.cached = false;
                        self.begin_jxl();
                    },
                    Stage::Jxl(Phase::Probe) => {
                        self.current.refresh(&out);
                        self.stage = if self.current.cached { Stage::Jxl(Phase::Age) } else { Stage::Jxl(Phase::Run) };
                    },
                    Stage::Jxl(Phase::Run) => {
                        if ok {
                            self.stage = Stage::Jxl(Phase::Refresh);
                        } else {
                            self.begin_webp();
                        }
                    },
                    Stage::Jxl(_) => {
                        self.current.refresh(&out);
                        self.gather_current();
                        self.begin_webp();
                    },
                    Stage::Webp(Phase::Probe) => {
                        self.current.refresh(&out);
                        self.stage = if self.current.cached { Stage::Webp(Phase::Age) } else { Stage::Webp(Phase::Run) };
                    },
                    Stage::Webp(Phase::Run) => {
                        if ok {
                            self.stage = Stage::Webp(Phase::Refresh);
                        } else {
                            self.advance();
                        }
                    },
                    Stage::Webp(_) => {
                        self.current.refresh(&out);
                        self.gather_current();
                        self.advance();
                    },
                    Stage::Done | Stage::DownloadFailed => {},
                }
            },
        }
    }

    /// The outside work the job asks for next (see `next_action`).
    pub fn action(&self) -> (r: Action)
        ensures
            r@ == next_action(self@),
    {
        let phase = match self.stage {
            Stage::Done => return Action::Finished(Ok(copy_images(&self.images))),
            Stage::DownloadFailed => return Action::Finished(Err("Curl failed")),
            Stage::Source(p) | Stage::Png(p) | Stage::Animation(p) | Stage::Resize(p)
            | Stage::Jxl(p) | Stage::Webp(p) => p,
        };
        let subject = match self.stage {
            Stage::Source(_) => self.working.path.clone(),
            _ => self.current.path.clone(),
        };
        match phase {
            Phase::Probe | Phase::Refresh => Action::Identify(subject),
            Phase::Age => Action::FileAge(subject),
            Phase::Run => Action::Run(self.command()),
        }
    }

    fn command(&self) -> (r: Vec<String>)
        ensures
            strings_view(r@) == run_command(self@),
    {
        let mut v: Vec<String> = Vec::new();
        match self.stage {
            Stage::Source(_) => {
                v.push(owned("curl"));
                v.push(self.image_path.clone());
                v.push(owned("-o"));
                v.push(self.working.path.clone());
                assert(strings_view(v@) =~= run_command(self@));
            },
            Stage::Png(_) => {
                v.push(owned("convert"));
                v.push(self.working.path.clone());
                v.push(self.current.path.clone());
                assert(strings_view(v@) =~= run_command(self@));
            },
            Stage::Animation(_) => {
                v.push(owned("gif2webp"));
                v.push(owned("-q"));
                v.push(crate::text::dec_string(self.options.webp_quality as u64));
                v.push(owned("-m"));
                v.push(crate::text::dec_string(self.options.webp_animation_effort as u64));
                v.push(owned("-metadata"));
                v.push(owned("icc"));
                v.push(self.working.path.clone());
                v.push(owned("-o"));
                v.push(self.current.path.clone());
                assert(strings_view(v@) =~= run_command(self@));
            },
            Stage::Resize(_) => {
                v.push(owned("convert"));
                v.push(self.working.path.clone());
                v.push(owned("-resize"));
                let mut w: Vec<char> = Vec::new();
                push_dec(&mut w, self.res as u64);
                push_str(&mut w, "x");
                v.push(string_of(&w));
                v.push(self.current.path.clone());
                assert(strings_view(v@) =~= run_command(self@));
            },
            Stage::Jxl(_) => {
                v.push(owned("cjxl"));
                v.push(owned("-d"));
                v.push(distance_string(self.options.jxl_distance_tenths));
                v.push(owned("-e"));
                v.push(crate::text::dec_string(self.options.jxl_effort as u64));
                v.push(self.resized.path.clone());
                v.push(self.current.path.clone());
                assert(strings_view(v@) =~= run_command(self@));
            },
            Stage::Webp(_) => {
                v.push(owned("cwebp"));
                v.push(owned("-mt"));
                if self.options.webp_lossless {
                    v.push(owned("-lossless"));
                } else {
                    v.push(owned("-q"));
                    v.push(crate::text::dec_string(self.options.webp_quality as u64));
                }
                v.push(owned("-z"));
                v.push(crate::text::dec_string(self.options.webp_effort as u64));
                v.push(owned("-alpha_filter"));
                v.push(owned("best"));
                v.push(owned("-metadata"));
                v.push(owned("icc"));
                v.push(self.resized.path.clone());
                v.push(owned("-o"));
                v.push(self.current.path.clone());
                assert(strings_view(v@) =~= run_command(self@));
            },
            Stage::Done | Stage::DownloadFailed => {
                assert(strings_view(v@) =~= run_command(self@));
            },
        }
        v
    }
}


// ================================================================ laws

/// How much outside work a job can still ask for, at most.
pub open spec fn plan_bound(o: OptionsView) -> nat {
    match o.resolutions {
        Some(r) => r.len(),
        None => 7,
    }
}

/// Steps left within the current width.
pub open spec fn width_rank(s: Stage) -> nat {
    match s {
        Stage::Animation(p) | Stage::Webp(p) => phase_rank(p),
        Stage::Jxl(p) => 4 + phase_rank(p),
        Stage::Resize(p) => 8 + phase_rank(p),
        _ => 0,
    }
}

pub open spec fn phase_rank(p: Phase) -> nat {
    match p {
        Phase::Probe => 4,
        Phase::Age => 3,
        Phase::Run => 2,
        Phase::Refresh => 1,
    }
}

/// A bound on the events a job still needs before it finishes.
pub open spec fn remaining_work(j: JobView) -> nat {
    match j.stage {
        Stage::Done | Stage::DownloadFailed => 0,
        Stage::Source(p) => plan_bound(j.options) * 13 + 4 + phase_rank(p),
        Stage::Png(p) => plan_bound(j.options) * 13 + phase_rank(p),
        _ => ((j.plan.len() - j.next) as nat) * 13 + width_rank(j.stage),
    }
}

proof fn lemma_plan_len(o: OptionsView, speed: bool, w: usize)
    ensures
        plan_for(o.resolutions, speed, w).len() <= plan_bound(o),
{
}

/// Moving to the next width never leaves more work than the widths still planned.
proof fn lemma_advance_rank(j: JobView)
    requires
        job_wf(j),
    ensures
        remaining_work(advance(j)) <= ((j.plan.len() - j.next) as nat) * 13,
        j.next < j.plan.len() ==> remaining_work(advance(j)) < ((j.plan.len() - j.next) as nat) * 13,
        advance(j).options == j.options,
        job_wf(advance(j)),
    decreases j.plan.len() - j.next,
{
    if j.next < j.plan.len() {
        let res = j.plan[j.next as int];
        let k = JobView { next: j.next + 1, res: res, ..j };
        lemma_advance_rank(k);
    }
}

proof fn lemma_after_png_rank(j: JobView)
    ensures
        remaining_work(after_png(j)) <= plan_bound(j.options) * 13,
        after_png(j).options == j.options,
        job_wf(after_png(j)),
{
    let k = JobView { plan: plan_for(j.options.resolutions, j.speed_mode, j.working.width), next: 0, ..j };
    lemma_plan_len(j.options, j.speed_mode, j.working.width);
    lemma_advance_rank(k);
}

proof fn lemma_after_source_rank(j: JobView)
    requires
        job_wf(j),
    ensures
        remaining_work(after_source(j)) <= plan_bound(j.options) * 13 + 4,
        after_source(j).options == j.options,
        job_wf(after_source(j)),
{
    let k = JobView {
        cache_output: cache_base(j.work_directory, j.working.path),
        publish_output: publish_base(j.work_directory, j.working.path),
        ..j
    };
    lemma_after_png_rank(k);
}

/// Every event a job takes brings it strictly closer to its end: `remaining_work` falls by
/// at least one, so a job asks for at most `remaining_work` pieces of outside work before
/// it finishes.
pub proof fn lemma_step_progresses(j: JobView, ev: EventView)
    requires
        job_wf(j),
        accepts(j, ev),
    ensures
        remaining_work(step(j, ev)) < remaining_work(j),
        step(j, ev).options == j.options,
        job_wf(step(j, ev)),
{
    let out = output_of(ev);
    match j.stage {
        Stage::Source(_) => {
            lemma_after_source_rank(j);
            lemma_after_source_rank(JobView { working: probed(j.working, out), ..j });
            lemma_after_source_rank(
                JobView { working: ImageView { cached: false, ..probed(j.working, out) }, ..j },
            );
        },
        Stage::Png(_) => {
            lemma_after_png_rank(
                JobView {
                    working: probed(
                        ImageView { path: j.current.path, codec: after_last(j.current.path, '.'), ..j.working },
                        out,
                    ),
                    ..j
                },
            );
        },
        Stage::Animation(_) => {
            let c = probed(j.current, out);
            let g1 = if j.current.animated { j.images.push(j.current) } else { j.images };
            lemma_advance_rank(JobView { images: g1.push(j.working), ..j });
            let g2 = if c.animated { j.images.push(c) } else { j.images };
            lemma_advance_rank(JobView { current: c, images: g2.push(j.working), ..j });
        },
        Stage::Webp(_) => {
            let c = probed(j.current, out);
            lemma_advance_rank(j);
            lemma_advance_rank(JobView { images: j.images.push(j.current), ..j });
            lemma_advance_rank(JobView { current: c, images: j.images.push(c), ..j });
        },
        _ => {},
    }
}

/// A job has at most `13 * widths + 8` steps, where `widths` is the number of widths asked
/// for, or 7 where none are.
pub proof fn lemma_start_bound(c: CompressorView, path: Seq<char>, o: OptionsView)
    ensures
        remaining_work(start_job(c, path, o)) == plan_bound(o) * 13 + 8,
        job_wf(start_job(c, path, o)),
{
}

/// Whether a path lies under the compressor's artifact directory.
pub open spec fn in_artifacts(wd: Seq<char>, p: Seq<char>) -> bool {
    (wd + "/artifacts/"@).is_prefix_of(p)
}

/// What holds of every job at every step: a downloaded source goes to the cache, every file
/// being made lies under the artifact directory, and a width being made is no wider than
/// the source nor than `MAX_ENCODED_WIDTH`.
pub open spec fn job_inv(j: JobView) -> bool {
    match j.stage {
        Stage::Source(Phase::Probe) => j.working.path == source_path(j.work_directory, j.image_path),
        Stage::Source(_) => "http"@.is_prefix_of(j.image_path) && j.working.path == url_cache_path(
            j.work_directory,
            j.image_path,
        ),
        Stage::Png(_) => {
            &&& in_artifacts(j.work_directory, j.cache_output)
            &&& in_artifacts(j.work_directory, j.publish_output)
            &&& in_artifacts(j.work_directory, j.current.path)
        },
        Stage::Animation(_) | Stage::Resize(_) | Stage::Jxl(_) | Stage::Webp(_) => {
            &&& in_artifacts(j.work_directory, j.cache_output)
            &&& in_artifacts(j.work_directory, j.publish_output)
            &&& in_artifacts(j.work_directory, j.current.path)
            &&& j.res <= j.working.width
            &&& j.res <= MAX_ENCODED_WIDTH
        },
        Stage::Done | Stage::DownloadFailed => true,
    }
}

proof fn lemma_prefix_extend(p: Seq<char>, x: Seq<char>, y: Seq<char>)
    requires
        p.is_prefix_of(x),
    ensures
        p.is_prefix_of(x + y),
{
    assert((x + y).subrange(0, p.len() as int) =~= x.subrange(0, p.len() as int));
}

proof fn lemma_base_in_artifacts(wd: Seq<char>, path: Seq<char>)
    ensures
        in_artifacts(wd, cache_base(wd, path)),
        in_artifacts(wd, publish_base(wd, path)),
        in_artifacts(wd, url_cache_path(wd, path)),
{
    let a = wd + "/artifacts/"@;
    assert(a.is_prefix_of(a)) by {
        assert(a.subrange(0, a.len() as int) =~= a);
    }
    lemma_prefix_extend(a, a, "cache/"@);
    lemma_prefix_extend(a, a + "cache/"@, dec(text_crc(path) as nat));
    lemma_prefix_extend(a, a, "publish/"@);
    lemma_prefix_extend(a, a + "publish/"@, dec(text_crc(path) as nat));
    lemma_prefix_extend(a, a, "cache/image-url-"@);
    lemma_prefix_extend(a, a + "cache/image-url-"@, hex(text_crc(path) as nat));
    lemma_prefix_extend(a, a + "cache/image-url-"@ + hex(text_crc(path) as nat), "."@);
    lemma_prefix_extend(
        a,
        a + "cache/image-url-"@ + hex(text_crc(path) as nat) + "."@,
        after_last(path, '.'),
    );
}

proof fn lemma_numbered_in_artifacts(wd: Seq<char>, base: Seq<char>, mid: Seq<char>, n: usize, tail: Seq<char>)
    requires
        in_artifacts(wd, base),
    ensures
        in_artifacts(wd, base + mid + dec(n as nat) + tail),
{
    let a = wd + "/artifacts/"@;
    lemma_prefix_extend(a, base, mid);
    lemma_prefix_extend(a, base + mid, dec(n as nat));
    lemma_prefix_extend(a, base + mid + dec(n as nat), tail);
}

proof fn lemma_advance_inv(j: JobView)
    requires
        job_wf(j),
        in_artifacts(j.work_directory, j.cache_output),
        in_artifacts(j.work_directory, j.publish_output),
    ensures
        job_inv(advance(j)),
        advance(j).working == j.working,
        advance(j).work_directory == j.work_directory,
    decreases j.plan.len() - j.next,
{
    if j.next < j.plan.len() {
        let res = j.plan[j.next as int];
        let k = JobView { next: j.next + 1, res: res, ..j };
        lemma_advance_inv(k);
        lemma_numbered_in_artifacts(j.work_directory, j.publish_output, "_ani_"@, res, ".webp"@);
        lemma_numbered_in_artifacts(j.work_directory, j.cache_output, "_resize_pre_"@, res, ".png"@);
    }
}

proof fn lemma_after_source_inv(j: JobView)
    ensures
        job_inv(after_source(j)),
{
    lemma_base_in_artifacts(j.work_directory, j.working.path);
    let k = JobView {
        cache_output: cache_base(j.work_directory, j.working.path),
        publish_output: publish_base(j.work_directory, j.working.path),
        ..j
    };
    lemma_prefix_extend(j.work_directory + "/artifacts/"@, k.cache_output, ".png"@);
    lemma_advance_inv(JobView { plan: plan_for(k.options.resolutions, k.speed_mode, k.working.width), next: 0, ..k });
}

/// `job_inv` holds when a job starts.
pub proof fn lemma_start_inv(c: CompressorView, path: Seq<char>, o: OptionsView)
    ensures
        job_inv(start_job(c, path, o)),
{
}

/// `job_inv` holds after every step.
pub proof fn lemma_step_keeps_inv(j: JobView, ev: EventView)
    requires
        job_wf(j),
        job_inv(j),
        accepts(j, ev),
    ensures
        job_inv(step(j, ev)),
{
    let out = output_of(ev);
    match j.stage {
        Stage::Source(_) => {
            lemma_after_source_inv(j);
            lemma_after_source_inv(JobView { working: probed(j.working, out), ..j });
            lemma_after_source_inv(
                JobView { working: ImageView { cached: false, ..probed(j.working, out) }, ..j },
            );
            lemma_base_in_artifacts(j.work_directory, j.image_path);
        },
        Stage::Png(_) => {
            let w = probed(
                ImageView { path: j.current.path, codec: after_last(j.current.path, '.'), ..j.working },
                out,
            );
            let k = JobView { working: w, ..j };
            lemma_advance_inv(JobView { plan: plan_for(k.options.resolutions, k.speed_mode, k.working.width), next: 0, ..k });
        },
        Stage::Animation(_) => {
            let c = probed(j.current, out);
            let g1 = if j.current.animated { j.images.push(j.current) } else { j.images };
            lemma_advance_inv(JobView { images: g1.push(j.working), ..j });
            let g2 = if c.animated { j.images.push(c) } else { j.images };
            lemma_advance_inv(JobView { current: c, images: g2.push(j.working), ..j });
        },
        Stage::Resize(_) => {
            lemma_numbered_in_artifacts(j.work_directory, j.publish_output, "_"@, j.res, ".jxl"@);
        },
        Stage::Jxl(_) => {
            lemma_numbered_in_artifacts(j.work_directory, j.publish_output, "_"@, j.res, ".webp"@);
        },
        Stage::Webp(_) => {
            let c = probed(j.current, out);
            lemma_advance_inv(j);
            lemma_advance_inv(JobView { images: j.images.push(j.current), ..j });
            lemma_advance_inv(JobView { current: c, images: j.images.push(c), ..j });
        },
        _ => {},
    }
}

/// What every job keeps of its cache flags: a file made from a source that has changed is
/// marked as changed too, and so is an encoding of a resized image that has changed.
pub open spec fn cache_inv(j: JobView) -> bool {
    match j.stage {
        Stage::Animation(_) | Stage::Resize(_) => !j.working.cached ==> !j.current.cached,
        Stage::Jxl(_) | Stage::Webp(_) => {
            &&& !j.working.cached ==> !j.resized.cached
            &&& !j.resized.cached ==> !j.current.cached
        },
        _ => true,
    }
}

proof fn lemma_advance_cache_inv(j: JobView)
    ensures
        cache_inv(advance(j)),
        advance(j).working == j.working,
    decreases j.plan.len() - j.next,
{
    if j.next < j.plan.len() {
        let res = j.plan[j.next as int];
        lemma_advance_cache_inv(JobView { next: j.next + 1, res: res, ..j });
    }
}

proof fn lemma_after_source_cache_inv(j: JobView)
    ensures
        cache_inv(after_source(j)),
{
    let k = JobView {
        cache_output: cache_base(j.work_directory, j.working.path),
        publish_output: publish_base(j.work_directory, j.working.path),
        ..j
    };
    lemma_advance_cache_inv(JobView { plan: plan_for(k.options.resolutions, k.speed_mode, k.working.width), next: 0, ..k });
}

/// `cache_inv` holds when a job starts.
pub proof fn lemma_start_cache_inv(c: CompressorView, path: Seq<char>, o: OptionsView)
    ensures
        cache_inv(start_job(c, path, o)),
{
}

/// `cache_inv` holds after every step.
pub proof fn lemma_step_keeps_cache_inv(j: JobView, ev: EventView)
    requires
        cache_inv(j),
        accepts(j, ev),
    ensures
        cache_inv(step(j, ev)),
{
    let out = output_of(ev);
    match j.stage {
        Stage::Source(_) => {
            lemma_after_source_cache_inv(j);
            lemma_after_source_cache_inv(JobView { working: probed(j.working, out), ..j });
            lemma_after_source_cache_inv(
                JobView { working: ImageView { cached: false, ..probed(j.working, out) }, ..j },
            );
        },
        Stage::Png(_) => {
            let w = probed(
                ImageView { path: j.current.path, codec: after_last(j.current.path, '.'), ..j.working },
                out,
            );
            let k = JobView { working: w, ..j };
            lemma_advance_cache_inv(JobView { plan: plan_for(k.options.resolutions, k.speed_mode, k.working.width), next: 0, ..k });
        },
        Stage::Animation(_) => {
            let c = probed(j.current, out);
            let g1 = if j.current.animated { j.images.push(j.current) } else { j.images };
            lemma_advance_cache_inv(JobView { images: g1.push(j.working), ..j });
            let g2 = if c.animated { j.images.push(c) } else { j.images };
            lemma_advance_cache_inv(JobView { current: c, images: g2.push(j.working), ..j });
        },
        Stage::Webp(_) => {
            let c = probed(j.current, out);
            lemma_advance_cache_inv(j);
            lemma_advance_cache_inv(JobView { images: j.images.push(j.current), ..j });
            lemma_advance_cache_inv(JobView { current: c, images: j.images.push(c), ..j });
        },
        _ => {},
    }
}

/// A file whose source has changed is made anew without asking its age: from its
/// `identify` the job goes straight to the command that makes it.
pub proof fn lemma_changed_source_is_remade(j: JobView, ev: EventView)
    requires
        cache_inv(j),
        accepts(j, ev),
        j.stage == Stage::Animation(Phase::Probe) || j.stage == Stage::Resize(Phase::Probe)
            || j.stage == Stage::Jxl(Phase::Probe) || j.stage == Stage::Webp(Phase::Probe),
        !j.working.cached,
    ensures
        step(j, ev).stage == (match j.stage {
            Stage::Animation(_) => Stage::Animation(Phase::Run),
            Stage::Resize(_) => Stage::Resize(Phase::Run),
            Stage::Jxl(_) => Stage::Jxl(Phase::Run),
            _ => Stage::Webp(Phase::Run),
        }),
{
}

/// Whether `p` is a file published for the width `r`: its JPEG XL, WebP or animated WebP.
pub open spec fn output_at(publish: Seq<char>, r: usize, p: Seq<char>) -> bool {
    p == jxl_path(publish, r) || p == webp_path(publish, r) || p == animation_path(publish, r)
}

/// Whether an image a job gathered is the source itself, or a file published for a width no
/// wider than the source and than `MAX_ENCODED_WIDTH`.
pub open spec fn allowed_output(working: ImageView, publish: Seq<char>, p: Seq<char>) -> bool {
    p == working.path || exists|r: usize|
        r <= working.width && r <= MAX_ENCODED_WIDTH && #[trigger] output_at(publish, r, p)
}

pub open spec fn all_allowed(working: ImageView, publish: Seq<char>, images: Seq<ImageView>) -> bool {
    forall|i: int| 0 <= i < images.len() ==> allowed_output(working, publish, #[trigger] images[i].path)
}

pub open spec fn gathered_ok(j: JobView) -> bool {
    all_allowed(j.working, j.publish_output, j.images)
}

/// What every job keeps of what it gathers: nothing before the widths are made; while a
/// width is made, the file at hand is the one of that width; and every image gathered is
/// an allowed output (see `allowed_output`).
pub open spec fn outputs_inv(j: JobView) -> bool {
    let width_ok = j.res <= j.working.width && j.res <= MAX_ENCODED_WIDTH;
    match j.stage {
        Stage::Source(_) | Stage::Png(_) => j.images.len() == 0,
        Stage::Animation(_) => width_ok && j.current.path == animation_path(j.publish_output, j.res) && gathered_ok(j),
        Stage::Resize(_) => width_ok && j.current.path == resize_path(j.cache_output, j.res) && gathered_ok(j),
        Stage::Jxl(_) => width_ok && j.current.path == jxl_path(j.publish_output, j.res) && gathered_ok(j),
        Stage::Webp(_) => width_ok && j.current.path == webp_path(j.publish_output, j.res) && gathered_ok(j),
        Stage::Done | Stage::DownloadFailed => gathered_ok(j),
    }
}

proof fn lemma_advance_outputs(j: JobView)
    requires
        gathered_ok(j),
    ensures
        outputs_inv(advance(j)),
        advance(j).working == j.working,
        advance(j).publish_output == j.publish_output,
        advance(j).stage is Done || advance(j).stage == Stage::Animation(Phase::Probe)
            || advance(j).stage == Stage::Resize(Phase::Probe),
    decreases j.plan.len() - j.next,
{
    if j.next < j.plan.len() {
        let res = j.plan[j.next as int];
        lemma_advance_outputs(JobView { next: j.next + 1, res: res, ..j });
    }
}

/// Pushing an allowed output keeps what was gathered allowed.
proof fn lemma_push_allowed(j: JobView, img: ImageView)
    requires
        gathered_ok(j),
        allowed_output(j.working, j.publish_output, img.path),
    ensures
        gathered_ok(JobView { images: j.images.push(img), ..j }),
{
    let k = JobView { images: j.images.push(img), ..j };
    assert forall|i: int| 0 <= i < k.images.len() implies allowed_output(k.working, k.publish_output, #[trigger] k.images[i].path) by {
        if i < j.images.len() {
            assert(k.images[i] == j.images[i]);
        }
    }
}

proof fn lemma_width_output(j: JobView, p: Seq<char>)
    requires
        j.res <= j.working.width,
        j.res <= MAX_ENCODED_WIDTH,
        output_at(j.publish_output, j.res, p),
    ensures
        allowed_output(j.working, j.publish_output, p),
{
}

/// `outputs_inv` holds when a job starts.
pub proof fn lemma_start_outputs_inv(c: CompressorView, path: Seq<char>, o: OptionsView)
    ensures
        outputs_inv(start_job(c, path, o)),
{
}

/// `outputs_inv` holds after every step.
pub proof fn lemma_step_keeps_outputs_inv(j: JobView, ev: EventView)
    requires
        outputs_inv(j),
        accepts(j, ev),
    ensures
        outputs_inv(step(j, ev)),
{
    let out = output_of(ev);
    match j.stage {
        Stage::Source(_) | Stage::Png(_) => {
            assert(j.images =~= Seq::<ImageView>::empty());
            let k = JobView {
                cache_output: cache_base(j.work_directory, j.working.path),
                publish_output: publish_base(j.work_directory, j.working.path),
                ..j
            };
            lemma_advance_outputs(JobView { plan: plan_for(k.options.resolutions, k.speed_mode, k.working.width), next: 0, ..k });
            let w1 = probed(j.working, out);
            let k1 = JobView {
                working: w1,
                cache_output: cache_base(j.work_directory, w1.path),
                publish_output: publish_base(j.work_directory, w1.path),
                ..j
            };
            lemma_advance_outputs(JobView { plan: plan_for(k1.options.resolutions, k1.speed_mode, k1.working.width), next: 0, ..k1 });
            let w2 = ImageView { cached: false, ..probed(j.working, out) };
            let k2 = JobView {
                working: w2,
                cache_output: cache_base(j.work_directory, w2.path),
                publish_output: publish_base(j.work_directory, w2.path),
                ..j
            };
            lemma_advance_outputs(JobView { plan: plan_for(k2.options.resolutions, k2.speed_mode, k2.working.width), next: 0, ..k2 });
            let w3 = probed(
                ImageView { path: j.current.path, codec: after_last(j.current.path, '.'), ..j.working },
                out,
            );
            let k3 = JobView { working: w3, ..j };
            lemma_advance_outputs(JobView { plan: plan_for(k3.options.resolutions, k3.speed_mode, k3.working.width), next: 0, ..k3 });
            let g = give_up(j);
            assert(g.images[0].path == g.working.path);
        },
        Stage::Animation(_) => {
            let c = probed(j.current, out);
            lemma_width_output(j, j.current.path);
            let g1 = if j.current.animated { j.images.push(j.current) } else { j.images };
            lemma_push_allowed(j, j.current);
            let j1 = JobView { images: g1, ..j };
            lemma_push_allowed(j1, j.working);
            lemma_advance_outputs(JobView { images: g1.push(j.working), ..j });
            let jc = JobView { current: c, ..j };
            lemma_width_output(jc, c.path);
            lemma_push_allowed(jc, c);
            let g2 = if c.animated { j.images.push(c) } else { j.images };
            let j2 = JobView { current: c, images: g2, ..j };
            lemma_push_allowed(j2, j.working);
            lemma_advance_outputs(JobView { current: c, images: g2.push(j.working), ..j });
        },
        Stage::Resize(_) => {
            let g = give_up(j);
            assert(g.images[0].path == g.working.path);
        },
        Stage::Jxl(_) => {
            let c = probed(j.current, out);
            lemma_width_output(j, j.current.path);
            lemma_push_allowed(j, j.current);
            let jc = JobView { current: c, ..j };
            lemma_width_output(jc, c.path);
            lemma_push_allowed(jc, c);
        },
        Stage::Webp(_) => {
            let c = probed(j.current, out);
            lemma_advance_outputs(j);
            lemma_width_output(j, j.current.path);
            lemma_push_allowed(j, j.current);
            lemma_advance_outputs(JobView { images: j.images.push(j.current), ..j });
            let jc = JobView { current: c, ..j };
            lemma_width_output(jc, c.path);
            lemma_push_allowed(jc, c);
            lemma_advance_outputs(JobView { current: c, images: j.images.push(c), ..j });
        },
        _ => {},
    }
}

/// What a finished job hands back: each image is the source itself, or the JPEG XL, WebP or
/// animated WebP published for a width no wider than the source and than
/// `MAX_ENCODED_WIDTH`.
pub proof fn lemma_finished_outputs(j: JobView)
    requires
        outputs_inv(j),
    ensures
        next_action(j) matches ActionView::Finished(Ok(imgs)) ==> forall|i: int|
            0 <= i < imgs.len() ==> allowed_output(j.working, j.publish_output, #[trigger] imgs[i].path),
{
}

/// A job fails exactly when its download fails: a step ends in failure if and only if it
/// takes a failed run of the download command, which only a source given as a URL runs;
/// and a job's result is an error if and only if it has failed.
pub proof fn lemma_download_failure(j: JobView, ev: EventView)
    requires
        job_inv(j),
        accepts(j, ev),
    ensures
        step(j, ev).stage == Stage::DownloadFailed <==> (j.stage == Stage::Source(Phase::Run)
            && output_code(ev) != 0),
        step(j, ev).stage == Stage::DownloadFailed ==> "http"@.is_prefix_of(j.image_path),
        (next_action(j) matches ActionView::Finished(Err(_))) <==> j.stage == Stage::DownloadFailed,
{
    let out = output_of(ev);
    match j.stage {
        Stage::Source(_) | Stage::Png(_) => {
            let k = JobView {
                cache_output: cache_base(j.work_directory, j.working.path),
                publish_output: publish_base(j.work_directory, j.working.path),
                ..j
            };
            lemma_advance_stage(JobView { plan: plan_for(k.options.resolutions, k.speed_mode, k.working.width), next: 0, ..k });
            let w1 = probed(j.working, out);
            let k1 = JobView {
                working: w1,
                cache_output: cache_base(j.work_directory, w1.path),
                publish_output: publish_base(j.work_directory, w1.path),
                ..j
            };
            lemma_advance_stage(JobView { plan: plan_for(k1.options.resolutions, k1.speed_mode, k1.working.width), next: 0, ..k1 });
            let w2 = ImageView { cached: false, ..probed(j.working, out) };
            let k2 = JobView {
                working: w2,
                cache_output: cache_base(j.work_directory, w2.path),
                publish_output: publish_base(j.work_directory, w2.path),
                ..j
            };
            lemma_advance_stage(JobView { plan: plan_for(k2.options.resolutions, k2.speed_mode, k2.working.width), next: 0, ..k2 });
            let w3 = probed(
                ImageView { path: j.current.path, codec: after_last(j.current.path, '.'), ..j.working },
                out,
            );
            let k3 = JobView { working: w3, ..j };
            lemma_advance_stage(JobView { plan: plan_for(k3.options.resolutions, k3.speed_mode, k3.working.width), next: 0, ..k3 });
        },
        Stage::Animation(_) => {
            let c = probed(j.current, out);
            let g1 = if j.current.animated { j.images.push(j.current) } else { j.images };
            lemma_advance_stage(JobView { images: g1.push(j.working), ..j });
            let g2 = if c.animated { j.images.push(c) } else { j.images };
            lemma_advance_stage(JobView { current: c, images: g2.push(j.working), ..j });
        },
        Stage::Webp(_) => {
            let c = probed(j.current, out);
            lemma_advance_stage(j);
            lemma_advance_stage(JobView { images: j.images.push(j.current), ..j });
            lemma_advance_stage(JobView { current: c, images: j.images.push(c), ..j });
        },
        _ => {},
    }
}

proof fn lemma_advance_stage(j: JobView)
    ensures
        advance(j).stage is Done || advance(j).stage == Stage::Animation(Phase::Probe)
            || advance(j).stage == Stage::Resize(Phase::Probe),
    decreases j.plan.len() - j.next,
{
    if j.next < j.plan.len() {
        let res = j.plan[j.next as int];
        lemma_advance_stage(JobView { next: j.next + 1, res: res, ..j });
    }
}

/// The answers of a run where no file to be made exists yet and every command succeeds:
/// `identify` of a file before it is made fails, its age cannot be read, and every command
/// (and `identify` once a file is made) succeeds with no output.
pub open spec fn fresh_run_event(j: JobView) -> EventView {
    match j.stage {
        Stage::Source(Phase::Probe) | Stage::Png(Phase::Probe) | Stage::Animation(Phase::Probe)
        | Stage::Resize(Phase::Probe) | Stage::Jxl(Phase::Probe) | Stage::Webp(Phase::Probe) => EventView::Output(
            (1i32, Seq::empty()),
        ),
        Stage::Source(Phase::Age) | Stage::Png(Phase::Age) | Stage::Animation(Phase::Age)
        | Stage::Resize(Phase::Age) | Stage::Jxl(Phase::Age) | Stage::Webp(Phase::Age) => EventView::Age(None),
        _ => EventView::Output((0i32, Seq::empty())),
    }
}

/// A job after at most `n` steps of such a run; a finished job stays as it is.
pub open spec fn run_fresh(j: JobView, n: nat) -> JobView
    decreases n,
{
    if n == 0 || j.stage is Done || j.stage is DownloadFailed {
        j
    } else {
        run_fresh(step(j, fresh_run_event(j)), (n - 1) as nat)
    }
}

/// Whether a list of images holds one at the path `p`.
pub open spec fn has_path(imgs: Seq<ImageView>, p: Seq<char>) -> bool {
    exists|i: int| 0 <= i < imgs.len() && #[trigger] imgs[i].path == p
}

/// Whether a width is made of a still source: no wider than the source nor than
/// `MAX_ENCODED_WIDTH`.
pub open spec fn width_fits(w: ImageView, r: usize) -> bool {
    r <= w.width && r <= MAX_ENCODED_WIDTH
}

pub open spec fn round_len(s0: JobView) -> nat {
    if s0.current.cached { 10 } else { 9 }
}

/// The resize of a width in such a run: from its `identify` to the JPEG XL's first step.
#[verifier::rlimit(40)]
proof fn lemma_fresh_resize(s0: JobView, m: nat)
    requires
        s0.stage == Stage::Resize(Phase::Probe),
        m >= 10,
    ensures
        ({
            let ok = (0i32, Seq::<char>::empty());
            let r = ImageView { cached: false, ..probed(s0.current, ok) };
            let s4 = JobView {
                stage: Stage::Jxl(Phase::Probe),
                resized: r,
                current: fresh_image(jxl_path(s0.publish_output, s0.res), r.cached),
                ..s0
            };
            run_fresh(s0, m) == run_fresh(s4, (m - (round_len(s0) - 6)) as nat)
        }),
{
    let s1 = step(s0, fresh_run_event(s0));
    assert(run_fresh(s0, m) == run_fresh(s1, (m - 1) as nat));
    let sr = if s0.current.cached {
        let s2 = step(s1, fresh_run_event(s1));
        assert(s1.stage == Stage::Resize(Phase::Age));
        assert(run_fresh(s1, (m - 1) as nat) == run_fresh(s2, (m - 2) as nat));
        assert(s2.stage == Stage::Resize(Phase::Run));
        s2
    } else {
        assert(s1.stage == Stage::Resize(Phase::Run));
        s1
    };
    let k = (m - (round_len(s0) - 8)) as nat;
    assert(run_fresh(s0, m) == run_fresh(sr, k));
    assert(sr == JobView { stage: Stage::Resize(Phase::Run), ..s0 });
    let s3 = step(sr, fresh_run_event(sr));
    assert(s3 == JobView { stage: Stage::Resize(Phase::Refresh), ..s0 });
    assert(run_fresh(sr, k) == run_fresh(s3, (k - 1) as nat));
    let s4 = step(s3, fresh_run_event(s3));
    assert(run_fresh(s3, (k - 1) as nat) == run_fresh(s4, (k - 2) as nat));
}

/// The JPEG XL and the WebP of a width in such a run, after which the job moves on.
#[verifier::rlimit(40)]
proof fn lemma_fresh_encode(s4: JobView, m: nat)
    requires
        s4.stage == Stage::Jxl(Phase::Probe),
        !s4.current.cached,
        !s4.resized.cached,
        m >= 6,
    ensures
        ({
            let ok = (0i32, Seq::<char>::empty());
            let cj = probed(s4.current, ok);
            let cw = probed(fresh_image(webp_path(s4.publish_output, s4.res), false), ok);
            run_fresh(s4, m) == run_fresh(
                advance(JobView { stage: Stage::Webp(Phase::Refresh), current: cw, images: s4.images.push(cj).push(cw), ..s4 }),
                (m - 6) as nat,
            )
        }),
{
    let s5 = step(s4, fresh_run_event(s4));
    assert(s5 == JobView { stage: Stage::Jxl(Phase::Run), ..s4 });
    assert(run_fresh(s4, m) == run_fresh(s5, (m - 1) as nat));
    let s6 = step(s5, fresh_run_event(s5));
    assert(s6 == JobView { stage: Stage::Jxl(Phase::Refresh), ..s4 });
    assert(run_fresh(s5, (m - 1) as nat) == run_fresh(s6, (m - 2) as nat));
    let s7 = step(s6, fresh_run_event(s6));
    assert(s7.stage == Stage::Webp(Phase::Probe));
    assert(run_fresh(s6, (m - 2) as nat) == run_fresh(s7, (m - 3) as nat));
    let s8 = step(s7, fresh_run_event(s7));
    assert(s8.stage == Stage::Webp(Phase::Run));
    assert(run_fresh(s7, (m - 3) as nat) == run_fresh(s8, (m - 4) as nat));
    let s9 = step(s8, fresh_run_event(s8));
    assert(s9.stage == Stage::Webp(Phase::Refresh));
    assert(run_fresh(s8, (m - 4) as nat) == run_fresh(s9, (m - 5) as nat));
    let s10 = step(s9, fresh_run_event(s9));
    assert(run_fresh(s9, (m - 5) as nat) == run_fresh(s10, (m - 6) as nat));
}

/// From the next width of the plan on, such a run of a still source makes every width that
/// fits: within `10` steps per width left it finishes, keeping what was gathered before and
/// holding the JPEG XL and the WebP of every width left that fits.
proof fn lemma_fresh_run_widths(j0: JobView, n: nat)
    requires
        !j0.working.animated,
        j0.next <= j0.plan.len(),
        n >= 10 * (j0.plan.len() - j0.next),
    ensures
        run_fresh(advance(j0), n).stage is Done,
        forall|p: Seq<char>| has_path(j0.images, p) ==> has_path(run_fresh(advance(j0), n).images, p),
        forall|k: int| j0.next <= k < j0.plan.len() && width_fits(j0.working, #[trigger] j0.plan[k])
            ==> has_path(run_fresh(advance(j0), n).images, jxl_path(j0.publish_output, j0.plan[k]))
            && has_path(run_fresh(advance(j0), n).images, webp_path(j0.publish_output, j0.plan[k])),
    decreases j0.plan.len() - j0.next,
{
    if j0.next < j0.plan.len() {
        let res = j0.plan[j0.next as int];
        let k1 = JobView { next: j0.next + 1, res: res, ..j0 };
        if j0.working.width < res || res > MAX_ENCODED_WIDTH {
            lemma_fresh_run_widths(k1, n);
        } else {
            let s0 = advance(j0);
            assert(s0.stage == Stage::Resize(Phase::Probe));
            assert(s0.res == res && s0.next == j0.next + 1);
            let ok = (0i32, Seq::<char>::empty());
            let r = ImageView { cached: false, ..probed(s0.current, ok) };
            let s4 = JobView {
                stage: Stage::Jxl(Phase::Probe),
                resized: r,
                current: fresh_image(jxl_path(s0.publish_output, s0.res), r.cached),
                ..s0
            };
            lemma_fresh_resize(s0, n);
            let m = (n - (round_len(s0) - 6)) as nat;
            lemma_fresh_encode(s4, m);
            let cj = probed(s4.current, ok);
            let cw = probed(fresh_image(webp_path(s4.publish_output, s4.res), false), ok);
            let jn = JobView { stage: Stage::Webp(Phase::Refresh), current: cw, images: s4.images.push(cj).push(cw), ..s4 };
            assert(jn.working == j0.working && jn.plan == j0.plan && jn.publish_output == j0.publish_output);
            assert(jn.next == j0.next + 1);
            lemma_fresh_run_widths(jn, (m - 6) as nat);
            let f = run_fresh(advance(jn), (m - 6) as nat);
            assert(run_fresh(advance(j0), n) == f);
            let imgs = jn.images;
            assert(imgs[imgs.len() - 2].path == jxl_path(j0.publish_output, res));
            assert(imgs[imgs.len() - 1].path == webp_path(j0.publish_output, res));
            assert(has_path(imgs, jxl_path(j0.publish_output, res)));
            assert(has_path(imgs, webp_path(j0.publish_output, res)));
            assert forall|p: Seq<char>| has_path(j0.images, p) implies has_path(f.images, p) by {
                let i = choose|i: int| 0 <= i < j0.images.len() && #[trigger] j0.images[i].path == p;
                assert(imgs[i] == j0.images[i]);
                assert(has_path(imgs, p));
            }
        }
    } else {
        assert(advance(j0).stage is Done);
        assert(run_fresh(advance(j0), n) == advance(j0));
    }
}

/// A complete run: a still source given by its path, not a URL and not a WebP or JPEG XL,
/// whose `identify` reports a size, with no file to be made existing yet and every command
/// succeeding, finishes within `10` steps per planned width, with the JPEG XL and the WebP of
/// every planned width that fits (no wider than the source nor than `MAX_ENCODED_WIDTH`).
pub proof fn lemma_fresh_run_makes_every_width(
    c: CompressorView,
    path: Seq<char>,
    o: OptionsView,
    out: (i32, Seq<char>),
    n: nat,
)
    requires
        !"http"@.is_prefix_of(path),
        !"webp"@.is_suffix_of(path),
        !"jxl"@.is_suffix_of(path),
        out.0 == 0,
        identify_report(out.1) matches Ok(r) && !r.animated && r.size is Some,
        n >= 10 * plan_bound(o),
    ensures
        ({
            let w = identify_report(out.1).unwrap().size.unwrap().0;
            let plan = plan_for(o.resolutions, c.speed_mode, w);
            let publish = publish_base(c.work_directory, path);
            let f = run_fresh(step(start_job(c, path, o), EventView::Output(out)), n);
            &&& f.stage is Done
            &&& forall|k: int| 0 <= k < plan.len() && #[trigger] plan[k] <= w && plan[k] <= MAX_ENCODED_WIDTH
                ==> has_path(f.images, jxl_path(publish, plan[k])) && has_path(f.images, webp_path(publish, plan[k]))
        }),
{
    let j = start_job(c, path, o);
    let w = identify_report(out.1).unwrap().size.unwrap().0;
    let k = JobView { working: probed(j.working, out), ..j };
    assert(k.working.width == w && !k.working.animated && k.working.path == path);
    let k2 = JobView {
        cache_output: cache_base(k.work_directory, k.working.path),
        publish_output: publish_base(k.work_directory, k.working.path),
        ..k
    };
    let j0 = JobView { plan: plan_for(k2.options.resolutions, k2.speed_mode, k2.working.width), next: 0, ..k2 };
    assert(step(j, EventView::Output(out)) == advance(j0));
    lemma_plan_len(o, c.speed_mode, w);
    lemma_fresh_run_widths(j0, n);
}

/// Every command a job runs writes its file (its last argument) under the compressor's
/// artifact directory; a resize never asks for a width above the source's or above
/// `MAX_ENCODED_WIDTH`.
pub proof fn lemma_commands_confined(j: JobView)
    requires
        job_inv(j),
    ensures
        next_action(j) matches ActionView::Run(args) ==> args.len() > 0 && in_artifacts(
            j.work_directory,
            args.last(),
        ),
        j.stage == Stage::Resize(Phase::Run) ==> run_command(j)[3] == dec(j.res as nat) + "x"@
            && j.res <= j.working.width && j.res <= MAX_ENCODED_WIDTH,
{
    if j.stage is Source {
        lemma_base_in_artifacts(j.work_directory, j.image_path);
    }
}

} // verus!
