//! Blog posts: reading a post's source (front matter, markdown, inline TeX between `$`
//! signs), ordering posts, and the HTML lists of them.
use vstd::prelude::*;

use crate::outside::{
    chars_of, front_matter, front_matter_field, front_matter_field_of, front_matter_of,
    katex_mathml, lossy_text, markdown_html, markdown_to_html, parse_date, parsed_date,
    render_tex_mathml, string_of, utf8_text, MatterField, MatterFieldView,
    MatterShape,
};
use crate::text::{bytes_of, lines_of, push_chars, push_str, split_lines};
use crate::image::{Image, ImageView};
use vstd::multiset::Multiset;
use vstd::utf8::{decode_utf8, encode_utf8, is_char_boundary, pop_first_scalar, valid_utf8};

verus! {

/// When a post was published: the UTC timestamp, which orders posts, and the day as
/// `YYYY-MM-DD`, which is shown.
#[derive(Debug)]
pub struct PostDate {
    pub timestamp: i64,
    pub day: String,
}

/// A blog post ready to be served.
#[derive(Debug)]
pub struct Post {
    pub slug: String,
    pub title: String,
    pub date: PostDate,
    pub description: String,
    pub tags: Vec<String>,
    pub text: String,
}

pub struct PostView {
    pub slug: Seq<char>,
    pub title: Seq<char>,
    pub timestamp: i64,
    pub day: Seq<char>,
    pub description: Seq<char>,
    pub tags: Seq<Seq<char>>,
    pub text: Seq<char>,
}

impl View for Post {
    type V = PostView;

    open spec fn view(&self) -> PostView {
        PostView {
            slug: self.slug@,
            title: self.title@,
            timestamp: self.date.timestamp,
            day: self.date.day@,
            description: self.description@,
            tags: self.tags@.map_values(|t: String| t@),
            text: self.text@,
        }
    }
}

/// Why a post's source cannot be read.
#[derive(PartialEq, Eq, Structural, Clone, Copy, Debug)]
pub enum PostError {
    NoFrontMatter,
    FrontMatterNotTable,
    MissingTitle,
    TitleNotText,
    MissingDescription,
    DescriptionNotText,
    TagsNotList,
    TagNotText,
    MissingDate,
    DateNotText,
    BadDate,
    /// A `$` at the very start or end of a line, where the scan looks past the line.
    StrayDollar,
    /// KaTeX could not render the text between two `$`.
    EquationNotRendered,
}

// ---------------------------------------------------------------- inline TeX

/// Where the scan of a line stands: inside an equation or not, where the open one starts,
/// and the equations found (start, length including both `$`).
pub struct ScanState {
    pub active: bool,
    pub start: int,
    pub eqs: Seq<(int, int)>,
}

/// One position of the scan: a `$` not after a space or backslash closes an open equation;
/// a `$` not before a space and not after a backslash opens one. The scan reads the byte
/// after a `$` that does not close an equation, and the byte before it unless that next
/// byte is a space, and fails where either lies outside the line.
pub open spec fn scan_step(b: Seq<u8>, pos: int, st: ScanState) -> Option<ScanState> {
    if pos >= b.len() {
        None
    } else if b[pos] != 36 {
        Some(st)
    } else if st.active {
        if b[pos - 1] != 32 && b[pos - 1] != 92 {
            Some(ScanState { active: false, start: st.start, eqs: st.eqs.push((st.start, pos - st.start + 1)) })
        } else {
            Some(st)
        }
    } else if pos + 1 >= b.len() {
        None
    } else if b[pos + 1] == 32 {
        Some(st)
    } else if pos == 0 {
        None
    } else if b[pos - 1] != 92 {
        Some(ScanState { active: true, start: pos, eqs: st.eqs })
    } else {
        Some(st)
    }
}

/// What one position of the scan does, for every state it is in: a byte other than `$` changes
/// nothing; a `$` not after a space or backslash closes an open equation, adding exactly that
/// equation after those already found; a `$` not before a space and not after a backslash
/// opens one, whatever equations were found before, and keeps them.
pub proof fn lemma_scan_step_laws(b: Seq<u8>, pos: int, st: ScanState)
    requires
        0 <= pos < b.len(),
    ensures
        b[pos] != 36 ==> scan_step(b, pos, st) == Some(st),
        st.active && b[pos] == 36 && b[pos - 1] != 32 && b[pos - 1] != 92 ==> scan_step(b, pos, st) == Some(
            ScanState { active: false, start: st.start, eqs: st.eqs.push((st.start, pos - st.start + 1)) },
        ),
        !st.active && 0 < pos && pos + 1 < b.len() && b[pos] == 36 && b[pos + 1] != 32 && b[pos - 1] != 92
            ==> scan_step(b, pos, st) == Some(ScanState { active: true, start: pos, eqs: st.eqs }),
        scan_step(b, pos, st) matches Some(n) ==> (n.eqs == st.eqs || (n.eqs.len() == st.eqs.len() + 1
            && n.eqs.drop_last() == st.eqs)),
{
    if let Some(n) = scan_step(b, pos, st) {
        if n.eqs != st.eqs {
            assert(n.eqs.drop_last() =~= st.eqs);
        }
    }
}

/// The scan never forgets an equation: the equations found in the first `k` positions start
/// those found in more.
pub proof fn lemma_scan_keeps_equations(b: Seq<u8>, k: nat, m: nat)
    requires
        k <= m,
        scan(b, m) is Some,
    ensures
        scan(b, k) is Some,
        scan(b, k).unwrap().eqs.len() <= scan(b, m).unwrap().eqs.len(),
        scan(b, k).unwrap().eqs == scan(b, m).unwrap().eqs.take(scan(b, k).unwrap().eqs.len() as int),
    decreases m - k,
{
    if k < m {
        let prev = scan(b, (m - 1) as nat);
        assert(prev is Some);
        lemma_scan_step_laws_any(b, m - 1, prev.unwrap());
        lemma_scan_keeps_equations(b, k, (m - 1) as nat);
        let e = scan(b, k).unwrap().eqs;
        let p = prev.unwrap().eqs;
        let q = scan(b, m).unwrap().eqs;
        if q != p {
            assert(q.take(e.len() as int) =~= p.take(e.len() as int));
        }
    } else {
        assert(scan(b, m).unwrap().eqs.take(scan(b, m).unwrap().eqs.len() as int) =~= scan(b, m).unwrap().eqs);
    }
}

proof fn lemma_scan_step_laws_any(b: Seq<u8>, pos: int, st: ScanState)
    ensures
        scan_step(b, pos, st) matches Some(n) ==> (n.eqs == st.eqs || (n.eqs.len() == st.eqs.len() + 1
            && n.eqs.drop_last() == st.eqs)),
{
    if let Some(n) = scan_step(b, pos, st) {
        if n.eqs != st.eqs {
            assert(n.eqs.drop_last() =~= st.eqs);
        }
    }
}

/// The scan of the first `k` positions.
pub open spec fn scan(b: Seq<u8>, k: nat) -> Option<ScanState>
    decreases k,
{
    if k == 0 {
        Some(ScanState { active: false, start: 0, eqs: Seq::empty() })
    } else {
        match scan(b, (k - 1) as nat) {
            None => None,
            Some(st) => scan_step(b, k - 1, st),
        }
    }
}

/// The equations of a line. The scan visits as many positions as the line has characters,
/// reading bytes at those positions.
pub open spec fn line_equations(line: Seq<char>) -> Option<Seq<(int, int)>> {
    match scan(encode_utf8(line), line.len()) {
        Some(st) => Some(st.eqs),
        None => None,
    }
}

/// Where the text after the `i`-th equation begins.
pub open spec fn eq_end(eqs: Seq<(int, int)>, i: int) -> int {
    if i == 0 {
        0
    } else {
        eqs[i - 1].0 + eqs[i - 1].1
    }
}

/// The line up to the end of its first `i` equations, each replaced by its MathML.
pub open spec fn render_equations(b: Seq<u8>, eqs: Seq<(int, int)>, i: nat) -> Result<Seq<char>, PostError>
    decreases i,
{
    if i == 0 {
        Ok(Seq::empty())
    } else {
        match render_equations(b, eqs, (i - 1) as nat) {
            Err(e) => Err(e),
            Ok(prev) => {
                let (s, l) = eqs[i - 1];
                match katex_mathml(decode_utf8(b.subrange(s + 1, s + l - 1))) {
                    None => Err(PostError::EquationNotRendered),
                    Some(m) => Ok(prev + decode_utf8(b.subrange(eq_end(eqs, i - 1), s)) + m),
                }
            },
        }
    }
}

/// A line with each of its equations replaced by the MathML KaTeX renders of it.
pub open spec fn render_line(line: Seq<char>) -> Result<Seq<char>, PostError> {
    let b = encode_utf8(line);
    match line_equations(line) {
        None => Err(PostError::StrayDollar),
        Some(eqs) => match render_equations(b, eqs, eqs.len()) {
            Err(e) => Err(e),
            Ok(t) => Ok(t + decode_utf8(b.subrange(eq_end(eqs, eqs.len() as int), b.len() as int))),
        },
    }
}

/// Every line rendered and followed by a newline, or the error of the first line that fails.
pub open spec fn render_lines(ls: Seq<Seq<char>>) -> Result<Seq<char>, PostError>
    decreases ls.len(),
{
    if ls.len() == 0 {
        Ok(Seq::empty())
    } else {
        match render_lines(ls.drop_last()) {
            Err(e) => Err(e),
            Ok(t) => match render_line(ls.last()) {
                Err(e) => Err(e),
                Ok(x) => Ok(t + x + seq!['\n']),
            },
        }
    }
}

/// The rendered text of a post's HTML.
pub open spec fn render_text(html: Seq<char>) -> Result<Seq<char>, PostError> {
    render_lines(lines_of(html))
}

/// What the scan keeps true: equations lie in order within the part of the line scanned,
/// each at least two bytes long and starting and ending with a `$`, and an open equation
/// starts with a `$` after the last one closed.
pub open spec fn scan_wf(b: Seq<u8>, st: ScanState, k: int) -> bool {
    &&& forall|i: int| 0 <= i < st.eqs.len() ==> 0 <= #[trigger] st.eqs[i].0 && st.eqs[i].1 >= 2
        && st.eqs[i].0 + st.eqs[i].1 <= k
    &&& forall|i: int| 0 <= i < st.eqs.len() ==> b[#[trigger] st.eqs[i].0] == 36 && b[st.eqs[i].0
        + st.eqs[i].1 - 1] == 36
    &&& forall|i: int| 0 < i < st.eqs.len() ==> #[trigger] st.eqs[i].0 >= st.eqs[i - 1].0 + st.eqs[i - 1].1
    &&& st.active ==> 0 <= st.start < k && eq_end(st.eqs, st.eqs.len() as int) <= st.start && b[st.start] == 36
}

/// In valid UTF-8, a `$` byte starts a character and so does the byte after it.
proof fn lemma_dollar_boundaries(b: Seq<u8>, x: int)
    requires
        valid_utf8(b),
        0 <= x < b.len(),
        b[x] == 36,
    ensures
        is_char_boundary(b, x),
        is_char_boundary(b, x + 1),
{
    vstd::utf8::is_char_boundary_iff_not_is_continuation_byte(b, x);
    vstd::utf8::is_char_boundary_start_end_of_seq(b);
    if x + 1 < b.len() {
        vstd::utf8::valid_utf8_split(b, x);
        let t = b.subrange(x, b.len() as int);
        assert(t[0] == 36);
        let rest = pop_first_scalar(t);
        assert(rest =~= b.subrange(x + 1, b.len() as int));
        assert(valid_utf8(rest));
        vstd::utf8::is_char_boundary_start_end_of_seq(rest);
        vstd::utf8::is_char_boundary_iff_not_is_continuation_byte(rest, 0);
        assert(rest[0] == b[x + 1]);
        vstd::utf8::is_char_boundary_iff_not_is_continuation_byte(b, x + 1);
    }
}

/// In valid UTF-8, the bytes between two character boundaries are valid UTF-8.
proof fn lemma_segment_valid(b: Seq<u8>, x: int, y: int)
    requires
        valid_utf8(b),
        0 <= x <= y <= b.len(),
        is_char_boundary(b, x),
        is_char_boundary(b, y),
    ensures
        valid_utf8(b.subrange(x, y)),
{
    vstd::utf8::valid_utf8_split(b, x);
    let c = b.subrange(x, b.len() as int);
    if y == b.len() {
        assert(c.subrange(0, c.len() as int) =~= c);
        assert(b.subrange(x, y) =~= c);
    } else {
        vstd::utf8::is_char_boundary_iff_not_is_continuation_byte(b, y);
        assert(c[y - x] == b[y]);
        vstd::utf8::is_char_boundary_iff_not_is_continuation_byte(c, y - x);
        vstd::utf8::valid_utf8_split(c, y - x);
        assert(c.subrange(0, y - x) =~= b.subrange(x, y));
    }
}

/// Where the text after the first `i` equations of a line begins is a character boundary.
proof fn lemma_eq_end_boundary(b: Seq<u8>, eqs: Seq<(int, int)>, i: int)
    requires
        valid_utf8(b),
        0 <= i <= eqs.len(),
        forall|k: int| 0 <= k < eqs.len() ==> 0 <= #[trigger] eqs[k].0 && eqs[k].1 >= 2
            && eqs[k].0 + eqs[k].1 <= b.len(),
        forall|k: int| 0 <= k < eqs.len() ==> b[#[trigger] eqs[k].0] == 36 && b[eqs[k].0 + eqs[k].1 - 1] == 36,
    ensures
        is_char_boundary(b, eq_end(eqs, i)),
{
    vstd::utf8::is_char_boundary_start_end_of_seq(b);
    if i > 0 {
        assert(b[eqs[i - 1].0] == 36);
        lemma_dollar_boundaries(b, eqs[i - 1].0 + eqs[i - 1].1 - 1);
    }
}

/// In valid UTF-8, the bytes between two `$` are valid UTF-8.
proof fn lemma_between_dollars_valid(b: Seq<u8>, s: int, e: int)
    requires
        valid_utf8(b),
        0 <= s < e < b.len(),
        b[s] == 36,
        b[e] == 36,
    ensures
        valid_utf8(b.subrange(s + 1, e)),
{
    lemma_dollar_boundaries(b, s);
    vstd::utf8::valid_utf8_split(b, s + 1);
    let c = b.subrange(s + 1, b.len() as int);
    assert(c[e - (s + 1)] == b[e]);
    vstd::utf8::is_char_boundary_iff_not_is_continuation_byte(c, e - (s + 1));
    vstd::utf8::valid_utf8_split(c, e - (s + 1));
    assert(c.subrange(0, e - (s + 1)) =~= b.subrange(s + 1, e));
}

/// Finds the equations of a line (see `line_equations`), with the bytes of the line.
pub fn find_equations(b: &Vec<u8>, nchars: usize) -> (r: Option<Vec<(usize, usize)>>)
    ensures
        r matches Some(v) ==> (scan(b@, nchars as nat) matches Some(st) && st.eqs == v@.map_values(
            |p: (usize, usize)| (p.0 as int, p.1 as int),
        ) && scan_wf(b@, st, b@.len() as int)),
        r is None ==> scan(b@, nchars as nat) is None,
{
    let mut active = false;
    let mut start: usize = 0;
    let mut eqs: Vec<(usize, usize)> = Vec::new();
    let mut pos: usize = 0;
    assert(eqs@.map_values(|p: (usize, usize)| (p.0 as int, p.1 as int)) =~= Seq::<(int, int)>::empty());
    while pos < nchars
        invariant
            0 <= pos <= nchars,
            pos <= b@.len(),
            scan(b@, pos as nat) == Some(
                ScanState {
                    active: active,
                    start: start as int,
                    eqs: eqs@.map_values(|p: (usize, usize)| (p.0 as int, p.1 as int)),
                },
            ),
            scan_wf(
                b@,
                ScanState {
                    active: active,
                    start: start as int,
                    eqs: eqs@.map_values(|p: (usize, usize)| (p.0 as int, p.1 as int)),
                },
                pos as int,
            ),
        decreases nchars - pos,
    {
        let ghost st = ScanState {
            active: active,
            start: start as int,
            eqs: eqs@.map_values(|p: (usize, usize)| (p.0 as int, p.1 as int)),
        };
        if pos >= b.len() {
            proof {
                assert(scan(b@, (pos + 1) as nat) is None);
                lemma_scan_none_stays(b@, (pos + 1) as nat, nchars as nat);
            }
            return None;
        }
        if b[pos] == 36 {
            if active {
                if b[pos - 1] != 32 && b[pos - 1] != 92 {
                    let ghost before = eqs@;
                    eqs.push((start, pos - start + 1));
                    active = false;
                    assert(eqs@.map_values(|p: (usize, usize)| (p.0 as int, p.1 as int)) =~= st.eqs.push(
                        (st.start, pos - st.start + 1),
                    ));
                }
            } else {
                if pos + 1 >= b.len() {
                    proof {
                        assert(scan(b@, (pos + 1) as nat) is None);
                        lemma_scan_none_stays(b@, (pos + 1) as nat, nchars as nat);
                    }
                    return None;
                }
                if b[pos + 1] != 32 {
                    if pos == 0 {
                        proof {
                            assert(scan(b@, (pos + 1) as nat) is None);
                            lemma_scan_none_stays(b@, (pos + 1) as nat, nchars as nat);
                        }
                        return None;
                    }
                    if b[pos - 1] != 92 {
                        active = true;
                        start = pos;
                    }
                }
            }
        }
        pos += 1;
    }
    Some(eqs)
}

/// A failed scan stays failed.
proof fn lemma_scan_none_stays(b: Seq<u8>, k: nat, n: nat)
    requires
        k <= n,
        scan(b, k) is None,
    ensures
        scan(b, n) is None,
    decreases n - k,
{
    if k < n {
        lemma_scan_none_stays(b, k + 1, n);
    }
}

/// The MathML of the text between the two `$` of an equation starting at byte `s`, `l`
/// bytes long.
fn render_equation(b: &Vec<u8>, s: usize, l: usize) -> (r: Result<String, PostError>)
    requires
        valid_utf8(b@),
        l >= 2,
        s + l <= b@.len(),
        b@[s as int] == 36,
        b@[s + l - 1] == 36,
    ensures
        r matches Ok(m) ==> katex_mathml(decode_utf8(b@.subrange(s + 1, s + l - 1))) == Some(m@),
        r matches Err(e) ==> katex_mathml(decode_utf8(b@.subrange(s + 1, s + l - 1))) is None && e
            == PostError::EquationNotRendered,
{
    let n = b.len();
    assert(s + l <= n);
    proof {
        lemma_between_dollars_valid(b@, s as int, s + l - 1);
    }
    let inner = sub_bytes(b, s + 1, s + l - 1);
    let inner_text = match utf8_text(inner.as_slice()) {
        Some(t) => t,
        None => {
            proof {
                assert(false);
            }
            String::new()
        },
    };
    match render_tex_mathml(inner_text.as_str()) {
        None => Err(PostError::EquationNotRendered),
        Some(m) => Ok(m),
    }
}

/// The line up to the end of its last equation, the equations rendered.
fn render_all(b: &Vec<u8>, eqs: &Vec<(usize, usize)>, Ghost(geqs): Ghost<Seq<(int, int)>>) -> (r: Result<Vec<char>, PostError>)
    requires
        valid_utf8(b@),
        geqs.len() == eqs@.len(),
        forall|k: int| 0 <= k < eqs@.len() ==> #[trigger] geqs[k] == (eqs@[k].0 as int, eqs@[k].1 as int),
        forall|k: int| 0 <= k < geqs.len() ==> 0 <= #[trigger] geqs[k].0 && geqs[k].1 >= 2
            && geqs[k].0 + geqs[k].1 <= b@.len(),
        forall|k: int| 0 <= k < geqs.len() ==> b@[#[trigger] geqs[k].0] == 36 && b@[geqs[k].0 + geqs[k].1 - 1] == 36,
        forall|k: int| 0 < k < geqs.len() ==> #[trigger] geqs[k].0 >= geqs[k - 1].0 + geqs[k - 1].1,
    ensures
        r matches Ok(v) ==> render_equations(b@, geqs, geqs.len()) == Ok::<Seq<char>, PostError>(v@),
        r matches Err(e) ==> render_equations(b@, geqs, geqs.len()) == Err::<Seq<char>, PostError>(e),
{
    let mut out: Vec<char> = Vec::new();
    let mut current: usize = 0;
    let mut i: usize = 0;
    while i < eqs.len()
        invariant
            0 <= i <= eqs@.len(),
            valid_utf8(b@),
            forall|k: int| 0 <= k < geqs.len() ==> b@[#[trigger] geqs[k].0] == 36 && b@[geqs[k].0 + geqs[k].1 - 1] == 36,
            geqs.len() == eqs@.len(),
            forall|k: int| 0 <= k < eqs@.len() ==> #[trigger] geqs[k] == (eqs@[k].0 as int, eqs@[k].1 as int),
            forall|k: int| 0 <= k < geqs.len() ==> 0 <= #[trigger] geqs[k].0 && geqs[k].1 >= 2
                && geqs[k].0 + geqs[k].1 <= b@.len(),
            forall|k: int| 0 < k < geqs.len() ==> #[trigger] geqs[k].0 >= geqs[k - 1].0 + geqs[k - 1].1,
            current as int == eq_end(geqs, i as int),
            render_equations(b@, geqs, i as nat) == Ok::<Seq<char>, PostError>(out@),
        decreases eqs@.len() - i,
    {
        let (s, l) = eqs[i];
        assert(geqs[i as int] == (s as int, l as int));
        assert(current <= s) by {
            if i > 0 {
                assert(geqs[i as int].0 >= geqs[i - 1].0 + geqs[i - 1].1);
            }
        }
        let n = b.len();
        assert(s + l <= n);
        proof {
            lemma_eq_end_boundary(b@, geqs, i as int);
            assert(b@[geqs[i as int].0] == 36);
            lemma_dollar_boundaries(b@, s as int);
            lemma_segment_valid(b@, current as int, s as int);
        }
        let before = lossy_text(sub_bytes(b, current, s).as_slice());
        match render_equation(b, s, l) {
            Err(e) => {
                proof {
                    assert(render_equations(b@, geqs, (i + 1) as nat) == Err::<Seq<char>, PostError>(e));
                    lemma_render_error_stays(b@, geqs, (i + 1) as nat, geqs.len(), e);
                }
                return Err(e);
            },
            Ok(rendered) => {
                let ghost prev = out@;
                push_str(&mut out, before.as_str());
                push_str(&mut out, rendered.as_str());
                assert(out@ =~= prev + before@ + rendered@);
            },
        }
        current = s + l;
        i += 1;
    }
    Ok(out)
}

/// Where the text after the last equation begins.
fn end_of_equations(eqs: &Vec<(usize, usize)>, Ghost(geqs): Ghost<Seq<(int, int)>>, n: usize) -> (r: usize)
    requires
        geqs.len() == eqs@.len(),
        forall|k: int| 0 <= k < eqs@.len() ==> #[trigger] geqs[k] == (eqs@[k].0 as int, eqs@[k].1 as int),
        forall|k: int| 0 <= k < geqs.len() ==> 0 <= #[trigger] geqs[k].0 && geqs[k].1 >= 2
            && geqs[k].0 + geqs[k].1 <= n,
    ensures
        r as int == eq_end(geqs, geqs.len() as int),
        r <= n,
{
    if eqs.len() == 0 {
        0
    } else {
        let (s, l) = eqs[eqs.len() - 1];
        assert(geqs[geqs.len() - 1] == (s as int, l as int));
        s + l
    }
}

/// Renders the equations of a line and the text around them (see `render_line`).
pub fn render_line_text(line: &Vec<char>) -> (r: Result<String, PostError>)
    ensures
        r matches Ok(s) ==> render_line(line@) == Ok::<Seq<char>, PostError>(s@),
        r matches Err(e) ==> render_line(line@) == Err::<Seq<char>, PostError>(e),
{
    let text = string_of(line);
    let b = bytes_of(text.as_str());
    let eqs = match find_equations(&b, line.len()) {
        None => return Err(PostError::StrayDollar),
        Some(v) => v,
    };
    let ghost st = scan(b@, line@.len()).unwrap();
    let ghost geqs = st.eqs;
    assert(line_equations(line@) == Some(geqs));
    assert(geqs.len() == eqs@.len());
    assert(forall|k: int| 0 <= k < eqs@.len() ==> #[trigger] geqs[k] == (eqs@[k].0 as int, eqs@[k].1 as int));
    proof {
        vstd::utf8::encode_utf8_valid_utf8(text@);
    }
    let body = render_all(&b, &eqs, Ghost(geqs));
    match body {
        Err(e) => Err(e),
        Ok(mut out) => {
            let current = end_of_equations(&eqs, Ghost(geqs), b.len());
            proof {
                lemma_eq_end_boundary(b@, geqs, geqs.len() as int);
                vstd::utf8::is_char_boundary_start_end_of_seq(b@);
                lemma_segment_valid(b@, current as int, b@.len() as int);
            }
            let after = lossy_text(sub_bytes(&b, current, b.len()).as_slice());
            push_str(&mut out, after.as_str());
            Ok(string_of(&out))
        },
    }
}

/// A failure among the first equations stays the failure of the whole line.
proof fn lemma_render_error_stays(b: Seq<u8>, eqs: Seq<(int, int)>, k: nat, n: nat, e: PostError)
    requires
        k <= n,
        render_equations(b, eqs, k) == Err::<Seq<char>, PostError>(e),
    ensures
        render_equations(b, eqs, n) == Err::<Seq<char>, PostError>(e),
    decreases n - k,
{
    if k < n {
        lemma_render_error_stays(b, eqs, k + 1, n, e);
    }
}

/// The bytes from `start` to `end`.
pub fn sub_bytes(b: &Vec<u8>, start: usize, end: usize) -> (r: Vec<u8>)
    requires
        start <= end <= b@.len(),
    ensures
        r@ == b@.subrange(start as int, end as int),
{
    let mut r: Vec<u8> = Vec::new();
    let mut i = start;
    while i < end
        invariant
            start <= i <= end <= b@.len(),
            r@ == b@.subrange(start as int, i as int),
        decreases end - i,
    {
        r.push(b[i]);
        i += 1;
    }
    r
}

/// Renders every line of a post's HTML (see `render_text`).
pub fn render_post_text(html: &str) -> (r: Result<String, PostError>)
    ensures
        r matches Ok(s) ==> render_text(html@) == Ok::<Seq<char>, PostError>(s@),
        r matches Err(e) ==> render_text(html@) == Err::<Seq<char>, PostError>(e),
{
    let chars = chars_of(html);
    let lines = split_lines(chars.as_slice());
    let ghost ls = lines_of(html@);
    let mut out: Vec<char> = Vec::new();
    let mut i: usize = 0;
    assert(ls.take(0) =~= Seq::<Seq<char>>::empty());
    while i < lines.len()
        invariant
            0 <= i <= lines@.len(),
            ls == lines_of(html@),
            lines@.len() == ls.len(),
            forall|k: int| 0 <= k < lines@.len() ==> #[trigger] lines@[k]@ == ls[k],
            render_lines(ls.take(i as int)) == Ok::<Seq<char>, PostError>(out@),
        decreases lines@.len() - i,
    {
        assert(lines@[i as int]@ == ls[i as int]);
        assert(ls.take(i + 1).drop_last() =~= ls.take(i as int));
        assert(ls.take(i + 1).last() == ls[i as int]);
        match render_line_text(&lines[i]) {
            Err(e) => {
                proof {
                    lemma_lines_error_stays(ls, (i + 1) as int, e);
                }
                return Err(e);
            },
            Ok(t) => {
                let ghost prev = out@;
                push_str(&mut out, t.as_str());
                out.push('\n');
                assert(out@ =~= prev + t@ + seq!['\n']);
            },
        }
        i += 1;
    }
    assert(ls.take(ls.len() as int) =~= ls);
    Ok(string_of(&out))
}

proof fn lemma_lines_error_stays(ls: Seq<Seq<char>>, k: int, e: PostError)
    requires
        0 <= k <= ls.len(),
        render_lines(ls.take(k)) == Err::<Seq<char>, PostError>(e),
    ensures
        render_lines(ls) == Err::<Seq<char>, PostError>(e),
    decreases ls.len() - k,
{
    if k < ls.len() {
        assert(ls.take(k + 1).drop_last() =~= ls.take(k));
        lemma_lines_error_stays(ls, k + 1, e);
    } else {
        assert(ls.take(k) =~= ls);
    }
}


// ---------------------------------------------------------------- reading a post

/// A post's markdown as HTML, with raw HTML and every link protocol let through.
pub open spec fn post_html(md: Seq<char>) -> Seq<char> {
    markdown_html(md, true, true)
}

/// Markdown to HTML, with raw HTML and every link protocol let through.
pub fn md_to_html(md: String) -> (r: String)
    ensures
        r@ == post_html(md@),
{
    markdown_to_html(md.as_str(), true, true)
}

/// A text under a key of the front matter.
pub open spec fn text_field(content: Seq<char>, key: Seq<char>, missing: PostError, not_text: PostError) -> Result<Seq<char>, PostError> {
    match front_matter_field_of(content, key) {
        MatterFieldView::Missing => Err(missing),
        MatterFieldView::Text(t) => Ok(t),
        _ => Err(not_text),
    }
}

/// The tags of the front matter: none where the key is absent, else a list of texts.
pub open spec fn tags_field(content: Seq<char>) -> Result<Seq<Seq<char>>, PostError> {
    match front_matter_field_of(content, "tags"@) {
        MatterFieldView::Missing => Ok(Seq::empty()),
        MatterFieldView::List(items) => if forall|i: int| 0 <= i < items.len() ==> (#[trigger] items[i]) is Some {
            Ok(items.map_values(|o: Option<Seq<char>>| o.unwrap()))
        } else {
            Err(PostError::TagNotText)
        },
        _ => Err(PostError::TagsNotList),
    }
}

/// The text and format a date is parsed with: a date with a time (a `T`) as is, against a
/// format that ends in a literal `Z`; a bare date at midnight UTC.
pub open spec fn date_input(d: Seq<char>) -> (Seq<char>, Seq<char>) {
    if crate::text::index_of(d, 'T') is Some {
        (d, "%Y-%m-%dT%H:%M:%SZ"@)
    } else {
        (d + "T00:00:00+00:00"@, "%Y-%m-%dT%H:%M:%S%:z"@)
    }
}

/// A post's date: its timestamp and its day as `YYYY-MM-DD`.
pub open spec fn post_date(d: Seq<char>) -> Option<(i64, Seq<char>)> {
    parsed_date(date_input(d).0, date_input(d).1)
}

/// The post a source file makes: front matter with a title, a description, optional tags and
/// a date, then the markdown body as HTML with its equations rendered; or the first thing
/// that is wrong with it.
pub open spec fn post_from_source(slug: Seq<char>, content: Seq<char>) -> Result<PostView, PostError> {
    let (shape, body) = front_matter_of(content);
    if shape == MatterShape::Absent {
        Err(PostError::NoFrontMatter)
    } else if shape == MatterShape::NotTable {
        Err(PostError::FrontMatterNotTable)
    } else {
        match text_field(content, "title"@, PostError::MissingTitle, PostError::TitleNotText) {
            Err(e) => Err(e),
            Ok(title) => match text_field(
                content,
                "description"@,
                PostError::MissingDescription,
                PostError::DescriptionNotText,
            ) {
                Err(e) => Err(e),
                Ok(description) => match tags_field(content) {
                    Err(e) => Err(e),
                    Ok(tags) => match text_field(content, "date"@, PostError::MissingDate, PostError::DateNotText) {
                        Err(e) => Err(e),
                        Ok(d) => match post_date(d) {
                            None => Err(PostError::BadDate),
                            Some((ts, day)) => match render_text(post_html(body)) {
                                Err(e) => Err(e),
                                Ok(text) => Ok(
                                    PostView {
                                        slug: slug,
                                        title: title,
                                        timestamp: ts,
                                        day: day,
                                        description: description,
                                        tags: tags,
                                        text: text,
                                    },
                                ),
                            },
                        },
                    },
                },
            },
        }
    }
}

fn read_text_field(content: &str, key: &str, missing: PostError, not_text: PostError) -> (r: Result<String, PostError>)
    ensures
        r matches Ok(t) ==> text_field(content@, key@, missing, not_text) == Ok::<Seq<char>, PostError>(t@),
        r matches Err(e) ==> text_field(content@, key@, missing, not_text) == Err::<Seq<char>, PostError>(e),
{
    match front_matter_field(content, key) {
        MatterField::Missing => Err(missing),
        MatterField::Text(t) => Ok(t),
        _ => Err(not_text),
    }
}

fn read_tags(content: &str) -> (r: Result<Vec<String>, PostError>)
    ensures
        r matches Ok(t) ==> tags_field(content@) == Ok::<Seq<Seq<char>>, PostError>(t@.map_values(|s: String| s@)),
        r matches Err(e) ==> tags_field(content@) == Err::<Seq<Seq<char>>, PostError>(e),
{
    let key = "tags";
    proof {
        assert(key@ == "tags"@);
    }
    match front_matter_field(content, key) {
        MatterField::Missing => {
            let v: Vec<String> = Vec::new();
            assert(v@.map_values(|s: String| s@) =~= Seq::<Seq<char>>::empty());
            Ok(v)
        },
        MatterField::List(items) => {
            let ghost iv = items@.map_values(|o: Option<String>| match o { Some(s) => Some(s@), None => None });
            let mut tags: Vec<String> = Vec::new();
            let mut i: usize = 0;
            while i < items.len()
                invariant
                    0 <= i <= items@.len(),
                    front_matter_field_of(content@, "tags"@) == MatterFieldView::List(iv),
                    iv == items@.map_values(|o: Option<String>| match o { Some(s) => Some(s@), None => None }),
                    forall|k: int| 0 <= k < i ==> (#[trigger] iv[k]) is Some,
                    tags@.map_values(|s: String| s@) =~= iv.take(i as int).map_values(|o: Option<Seq<char>>| o.unwrap()),
                decreases items@.len() - i,
            {
                match &items[i] {
                    None => {
                        assert(iv[i as int] is None);
                        return Err(PostError::TagNotText);
                    },
                    Some(t) => {
                        let ghost before = tags@;
                        tags.push(t.clone());
                        assert(iv[i as int] == Some(t@));
                        assert(iv.take(i + 1) =~= iv.take(i as int).push(Some(t@)));
                        assert(tags@.map_values(|s: String| s@) =~= before.map_values(|s: String| s@).push(t@));
                    },
                }
                i += 1;
            }
            assert(iv.take(items@.len() as int) =~= iv);
            Ok(tags)
        },
        _ => Err(PostError::TagsNotList),
    }
}

/// The date of a post (see `post_date`).
fn read_date(d: &String) -> (r: Option<(i64, String)>)
    ensures
        r matches Some(p) ==> post_date(d@) == Some((p.0, p.1@)),
        r is None ==> post_date(d@) is None,
{
    let chars = chars_of(d.as_str());
    match crate::text::find_char(chars.as_slice(), 'T') {
        Some(_) => parse_date(d.as_str(), "%Y-%m-%dT%H:%M:%SZ"),
        None => {
            let full = crate::text::concat_str_chars(d.as_str(), chars_of("T00:00:00+00:00").as_slice());
            parse_date(full.as_str(), "%Y-%m-%dT%H:%M:%S%:z")
        },
    }
}

/// Reads a post from its source file (see `post_from_source`); `slug` is the file's name
/// without its extension.
pub fn try_build_post(slug: &str, content: &str) -> (r: Result<Post, PostError>)
    ensures
        r matches Ok(p) ==> post_from_source(slug@, content@) == Ok::<PostView, PostError>(p@),
        r matches Err(e) ==> post_from_source(slug@, content@) == Err::<PostView, PostError>(e),
{
    let (shape, body) = front_matter(content);
    match shape {
        MatterShape::Absent => return Err(PostError::NoFrontMatter),
        MatterShape::NotTable => return Err(PostError::FrontMatterNotTable),
        MatterShape::Table => {},
    }
    let title = read_text_field(content, "title", PostError::MissingTitle, PostError::TitleNotText)?;
    let description = read_text_field(content, "description", PostError::MissingDescription, PostError::DescriptionNotText)?;
    let tags = read_tags(content)?;
    let date_text = read_text_field(content, "date", PostError::MissingDate, PostError::DateNotText)?;
    let (timestamp, day) = match read_date(&date_text) {
        None => return Err(PostError::BadDate),
        Some(p) => p,
    };
    let html = md_to_html(body);
    let text = render_post_text(html.as_str())?;
    Ok(Post {
        slug: crate::text::owned(slug),
        title,
        date: PostDate { timestamp, day },
        description,
        tags,
        text,
    })
}

// ---------------------------------------------------------------- ordering

pub open spec fn posts_view(v: Seq<Post>) -> Seq<PostView> {
    v.map_values(|p: Post| p@)
}

/// A post put into a list ordered newest first: after every post at least as new.
pub open spec fn insert_by_date(s: Seq<PostView>, p: PostView) -> Seq<PostView>
    decreases s.len(),
{
    if s.len() == 0 {
        seq![p]
    } else if s.last().timestamp >= p.timestamp {
        s.push(p)
    } else {
        insert_by_date(s.drop_last(), p).push(s.last())
    }
}

/// Posts ordered newest first, posts of the same time in their given order.
pub open spec fn newest_first(s: Seq<PostView>) -> Seq<PostView>
    decreases s.len(),
{
    if s.len() == 0 {
        Seq::empty()
    } else {
        insert_by_date(newest_first(s.drop_last()), s.last())
    }
}

pub open spec fn is_newest_first(s: Seq<PostView>) -> bool {
    forall|i: int, j: int| 0 <= i < j < s.len() ==> s[i].timestamp >= s[j].timestamp
}

/// Inserting at the place the scan from the end finds is `insert_by_date`.
proof fn lemma_insert_at(s: Seq<PostView>, p: PostView, pos: int)
    requires
        0 <= pos <= s.len(),
        forall|k: int| pos <= k < s.len() ==> s[k].timestamp < p.timestamp,
        pos > 0 ==> s[pos - 1].timestamp >= p.timestamp,
    ensures
        insert_by_date(s, p) == s.take(pos).push(p) + s.skip(pos),
    decreases s.len(),
{
    if s.len() == 0 {
        assert(s.take(pos).push(p) + s.skip(pos) =~= seq![p]);
    } else if pos == s.len() {
        assert(s.take(pos).push(p) + s.skip(pos) =~= s.push(p));
    } else {
        assert(s.last().timestamp < p.timestamp);
        lemma_insert_at(s.drop_last(), p, pos);
        assert(s.drop_last().take(pos).push(p) + s.drop_last().skip(pos) + seq![s.last()]
            =~= s.take(pos).push(p) + s.skip(pos));
        assert((s.drop_last().take(pos).push(p) + s.drop_last().skip(pos)).push(s.last())
            =~= s.take(pos).push(p) + s.skip(pos));
    }
}

/// Inserting keeps a list ordered and adds exactly the new post.
proof fn lemma_insert_props(s: Seq<PostView>, p: PostView)
    requires
        is_newest_first(s),
    ensures
        is_newest_first(insert_by_date(s, p)),
        insert_by_date(s, p).to_multiset() == s.to_multiset().insert(p),
        insert_by_date(s, p).len() == s.len() + 1,
    decreases s.len(),
{
    broadcast use vstd::seq_lib::group_to_multiset_ensures;

    if s.len() == 0 {
        assert(seq![p] =~= Seq::<PostView>::empty().push(p));
    } else if s.last().timestamp >= p.timestamp {
    } else {
        let t = insert_by_date(s.drop_last(), p);
        assert(is_newest_first(s.drop_last()));
        lemma_insert_props(s.drop_last(), p);
        assert(s.drop_last().push(s.last()) =~= s);
        let r = t.push(s.last());
        assert forall|i: int, j: int| 0 <= i < j < r.len() implies r[i].timestamp >= r[j].timestamp by {
            if j == r.len() - 1 {
                // every post of `t` is `p` or a post of `s` before its last
                assert(t.to_multiset().count(t[i]) > 0);
                assert(s.drop_last().to_multiset().insert(p).count(t[i]) > 0);
                if t[i] != p {
                    assert(s.drop_last().to_multiset().count(t[i]) > 0);
                    assert(s.drop_last().contains(t[i]));
                    let k = choose|k: int| 0 <= k < s.drop_last().len() && s.drop_last()[k] == t[i];
                    assert(s[k] == t[i]);
                }
            }
        }
    }
}

/// `newest_first` orders the posts newest first and keeps exactly the given posts.
pub proof fn lemma_newest_first(s: Seq<PostView>)
    ensures
        is_newest_first(newest_first(s)),
        newest_first(s).to_multiset() == s.to_multiset(),
        newest_first(s).len() == s.len(),
    decreases s.len(),
{
    broadcast use vstd::seq_lib::group_to_multiset_ensures;

    if s.len() > 0 {
        lemma_newest_first(s.drop_last());
        lemma_insert_props(newest_first(s.drop_last()), s.last());
        assert(s.drop_last().push(s.last()) =~= s);
    } else {
        assert(s.to_multiset() =~= Multiset::empty());
    }
}

/// The posts ordered newest first, posts of the same time in their given order.
pub fn sort_posts_newest_first(posts: Vec<Post>) -> (r: Vec<Post>)
    ensures
        posts_view(r@) == newest_first(posts_view(posts@)),
{
    let ghost all = posts_view(posts@);
    let n0 = posts.len();
    let mut rest = posts;
    let mut r: Vec<Post> = Vec::new();
    let mut taken: usize = 0;
    proof {
        assert(posts_view(r@) =~= newest_first(all.take(0)));
    }
    while rest.len() > 0
        invariant
            taken + rest@.len() == all.len(),
            all.len() == n0,
            posts_view(rest@) =~= all.skip(taken as int),
            posts_view(r@) == newest_first(all.take(taken as int)),
        decreases rest@.len(),
    {
        let ghost old_rest = rest@;
        let p = rest.remove(0);
        assert(all[taken as int] == p@) by {
            assert(posts_view(old_rest)[0] == old_rest[0]@);
            assert(all.skip(taken as int)[0] == all[taken as int]);
        }
        assert(posts_view(rest@) =~= all.skip(taken + 1)) by {
            assert(rest@ =~= old_rest.subrange(1, old_rest.len() as int));
            assert forall|k: int| 0 <= k < rest@.len() implies posts_view(rest@)[k] == all.skip(taken + 1)[k] by {
                assert(posts_view(rest@)[k] == rest@[k]@);
                assert(rest@[k] == old_rest[k + 1]);
                assert(posts_view(old_rest)[k + 1] == old_rest[k + 1]@);
                assert(posts_view(old_rest)[k + 1] == all.skip(taken as int)[k + 1]);
            }
        }
        let mut pos = r.len();
        while pos > 0 && r[pos - 1].date.timestamp < p.date.timestamp
            invariant
                0 <= pos <= r@.len(),
                forall|k: int| pos <= k < r@.len() ==> r@[k]@.timestamp < p@.timestamp,
            decreases pos,
        {
            pos -= 1;
        }
        let ghost before = posts_view(r@);
        proof {
            lemma_insert_at(before, p@, pos as int);
            assert(all.take(taken + 1).drop_last() =~= all.take(taken as int));
        }
        r.insert(pos, p);
        assert(posts_view(r@) =~= before.take(pos as int).push(p@) + before.skip(pos as int));
        taken += 1;
    }
    assert(all.take(all.len() as int) =~= all);
    r
}

// ---------------------------------------------------------------- lists of posts

/// One post in a list: its day, a link to it, and its description.
pub open spec fn post_item_html(p: PostView) -> Seq<char> {
    "<li><span>"@ + crate::text::escape_html(p.day) + ": <a href=\""@ + crate::text::escape_html(
        "/posts/"@ + p.slug,
    ) + "\">"@ + crate::text::escape_html(p.title) + "</a><p class=\"description\">"@
        + crate::text::escape_html(p.description) + "</p></span></li>"@
}

pub open spec fn post_items_html(ps: Seq<PostView>) -> Seq<char>
    decreases ps.len(),
{
    if ps.len() == 0 {
        Seq::empty()
    } else {
        post_items_html(ps.drop_last()) + post_item_html(ps.last())
    }
}

/// The list of the first `count` posts.
pub open spec fn posts_list_html(ps: Seq<PostView>, count: nat) -> Seq<char> {
    let shown = if count < ps.len() { ps.take(count as int) } else { ps };
    "<div class=\"posts\"><ul>"@ + post_items_html(shown) + "</ul></div>"@
}

fn push_post_item(out: &mut Vec<char>, p: &Post)
    ensures
        final(out)@ == old(out)@ + post_item_html(p@),
{
    push_str(out, "<li><span>");
    crate::text::push_escaped(out, chars_of(p.date.day.as_str()).as_slice());
    push_str(out, ": <a href=\"");
    let mut link = chars_of("/posts/");
    push_str(&mut link, p.slug.as_str());
    crate::text::push_escaped(out, link.as_slice());
    push_str(out, "\">");
    crate::text::push_escaped(out, chars_of(p.title.as_str()).as_slice());
    push_str(out, "</a><p class=\"description\">");
    crate::text::push_escaped(out, chars_of(p.description.as_str()).as_slice());
    push_str(out, "</p></span></li>");
    assert(final(out)@ =~= old(out)@ + post_item_html(p@));
}

/// The HTML list of the first `count` posts, in the order given.
pub fn get_posts_html(posts: &Vec<Post>, count: usize) -> (r: String)
    ensures
        r@ == posts_list_html(posts_view(posts@), count as nat),
{
    let ghost ps = posts_view(posts@);
    let n = if count < posts.len() { count } else { posts.len() };
    let mut out = chars_of("<div class=\"posts\"><ul>");
    let ghost head = out@;
    let mut i: usize = 0;
    while i < n
        invariant
            0 <= i <= n <= posts@.len(),
            ps == posts_view(posts@),
            out@ == head + post_items_html(ps.take(i as int)),
        decreases n - i,
    {
        push_post_item(&mut out, &posts[i]);
        assert(ps.take(i + 1).drop_last() =~= ps.take(i as int));
        assert(ps.take(i + 1).last() == posts@[i as int]@);
        i += 1;
    }
    push_str(&mut out, "</ul></div>");
    let ghost shown = if (count as nat) < ps.len() { ps.take(count as int) } else { ps };
    assert(ps.take(n as int) =~= shown);
    string_of(&out)
}

// ---------------------------------------------------------------- photos in posts

/// A line of a post that is a lone image.
pub open spec fn photo_line(l: Seq<char>) -> bool {
    "<p><img src=\""@.is_prefix_of(l)
}

/// The file of a photo line: the text between its first two `"`, made relative to the
/// current directory unless it is a URL.
pub open spec fn photo_source(l: Seq<char>) -> Seq<char> {
    let p = crate::text::nth_field(l, '"', 1).unwrap();
    if "http"@.is_prefix_of(p) {
        p
    } else {
        "."@ + p
    }
}

pub open spec fn photo_count(ls: Seq<Seq<char>>) -> nat
    decreases ls.len(),
{
    if ls.len() == 0 {
        0
    } else {
        photo_count(ls.drop_last()) + if photo_line(ls.last()) { 1nat } else { 0nat }
    }
}

/// The files of the photo lines, in order.
pub open spec fn photo_sources(ls: Seq<Seq<char>>) -> Seq<Seq<char>>
    decreases ls.len(),
{
    if ls.len() == 0 {
        Seq::empty()
    } else if photo_line(ls.last()) {
        photo_sources(ls.drop_last()).push(photo_source(ls.last()))
    } else {
        photo_sources(ls.drop_last())
    }
}

/// The `sizes` hint of the pictures in posts.
pub open spec fn post_picture_sizes() -> Seq<char> {
    "(min-width: 740px) 600px"@
}

/// A post's text with each photo line replaced by the picture of its compressed versions
/// (the `k`-th photo by the `k`-th group), every other line kept and ended with a newline.
pub open spec fn rewritten_text(ls: Seq<Seq<char>>, groups: Seq<Seq<ImageView>>) -> Seq<char>
    decreases ls.len(),
{
    if ls.len() == 0 {
        Seq::empty()
    } else if photo_line(ls.last()) {
        rewritten_text(ls.drop_last(), groups) + crate::picture::picture_html(
            groups[photo_count(ls.drop_last()) as int],
            Some(post_picture_sizes()),
        )
    } else {
        rewritten_text(ls.drop_last(), groups) + ls.last() + seq!['\n']
    }
}

/// The compressed images of the photos, each with the path it is served at.
pub open spec fn gathered_images(ls: Seq<Seq<char>>, groups: Seq<Seq<ImageView>>) -> Seq<(ImageView, Seq<char>)>
    decreases ls.len(),
{
    if ls.len() == 0 {
        Seq::empty()
    } else if photo_line(ls.last()) {
        gathered_images(ls.drop_last(), groups) + crate::picture::served_images(
            groups[photo_count(ls.drop_last()) as int],
        )
    } else {
        gathered_images(ls.drop_last(), groups)
    }
}

pub open spec fn groups_view(v: Seq<Vec<Image>>) -> Seq<Seq<ImageView>> {
    v.map_values(|g: Vec<Image>| g@.map_values(|i: Image| i@))
}

fn is_photo_line(l: &Vec<char>) -> (r: bool)
    ensures
        r == photo_line(l@),
{
    crate::text::starts_with_chars(l.as_slice(), chars_of("<p><img src=\"").as_slice())
}

fn photo_source_of(l: &Vec<char>) -> (r: String)
    requires
        photo_line(l@),
    ensures
        r@ == photo_source(l@),
{
    proof {
        reveal_strlit("<p><img src=\"");
        let pre = "<p><img src=\""@;
        assert(pre.len() == 13 && pre[12] == '"');
        assert(l@.subrange(0, 13)[12] == l@[12]);
        assert(l@[12] == '"');
        crate::text::lemma_index_of(l@, '"');
    }
    let p = match crate::text::nth_field_chars(l.as_slice(), '"', 1) {
        Some(p) => p,
        None => {
            proof {
                let i = crate::text::index_of(l@, '"').unwrap();
                let rest = l@.skip(i as int + 1);
                assert(crate::text::nth_field(rest, '"', 0) == Some(crate::text::before_first(rest, '"')));
                assert(crate::text::nth_field(l@, '"', 1) is Some);
            }
            Vec::new()
        },
    };
    assert(crate::text::nth_field(l@, '"', 1) == Some(p@));
    if crate::text::starts_with_chars(p.as_slice(), chars_of("http").as_slice()) {
        string_of(&p)
    } else {
        let mut v = chars_of(".");
        push_chars(&mut v, p.as_slice());
        string_of(&v)
    }
}

/// The files of a post's photo lines, in order: what must be compressed before
/// `apply_compression_to_post_photos`.
pub fn post_photo_sources(text: &str) -> (r: Vec<String>)
    ensures
        r@.map_values(|s: String| s@) == photo_sources(lines_of(text@)),
{
    let lines = split_lines(chars_of(text).as_slice());
    let ghost ls = lines_of(text@);
    let mut r: Vec<String> = Vec::new();
    let mut i: usize = 0;
    while i < lines.len()
        invariant
            0 <= i <= lines@.len(),
            lines@.len() == ls.len(),
            forall|k: int| 0 <= k < lines@.len() ==> #[trigger] lines@[k]@ == ls[k],
            r@.map_values(|s: String| s@) == photo_sources(ls.take(i as int)),
        decreases lines@.len() - i,
    {
        assert(lines@[i as int]@ == ls[i as int]);
        assert(ls.take(i + 1).drop_last() =~= ls.take(i as int));
        assert(ls.take(i + 1).last() == ls[i as int]);
        if is_photo_line(&lines[i]) {
            let ghost before = r@;
            r.push(photo_source_of(&lines[i]));
            assert(r@.map_values(|s: String| s@) =~= before.map_values(|s: String| s@).push(
                photo_source(ls[i as int]),
            ));
        }
        i += 1;
    }
    assert(ls.take(ls.len() as int) =~= ls);
    r
}

/// Replaces each photo line of a post by the picture of its compressed versions (given in
/// photo order, each with a JPEG XL and a WebP version), and gives the images to publish.
pub fn apply_compression_to_post_photos(post: &mut Post, compressed: Vec<Vec<Image>>) -> (r: Vec<(Image, String)>)
    requires
        compressed@.len() == photo_count(lines_of(old(post).text@)),
        forall|k: int| 0 <= k < compressed@.len() ==> crate::picture::has_codec(
            #[trigger] groups_view(compressed@)[k],
            "jxl"@,
        ) && crate::picture::has_codec(groups_view(compressed@)[k], "webp"@),
    ensures
        final(post)@ == (PostView {
            text: rewritten_text(lines_of(old(post).text@), groups_view(compressed@)),
            ..old(post)@
        }),
        crate::picture::served_view(r@) == gathered_images(lines_of(old(post).text@), groups_view(compressed@)),
{
    let lines = split_lines(chars_of(post.text.as_str()).as_slice());
    let ghost ls = lines_of(old(post).text@);
    let ghost groups = groups_view(compressed@);
    let n0 = compressed.len();
    let mut groups_left = compressed;
    let mut out: Vec<char> = Vec::new();
    let mut images: Vec<(Image, String)> = Vec::new();
    let mut taken: usize = 0;
    let sizes = "(min-width: 740px) 600px";
    let mut i: usize = 0;
    while i < lines.len()
        invariant
            0 <= i <= lines@.len(),
            lines@.len() == ls.len(),
            forall|k: int| 0 <= k < lines@.len() ==> #[trigger] lines@[k]@ == ls[k],
            sizes@ == post_picture_sizes(),
            groups.len() == photo_count(ls),
            groups.len() == n0,
            forall|k: int| 0 <= k < groups.len() ==> crate::picture::has_codec(#[trigger] groups[k], "jxl"@)
                && crate::picture::has_codec(groups[k], "webp"@),
            taken == photo_count(ls.take(i as int)),
            taken + groups_left@.len() == groups.len(),
            groups_view(groups_left@) =~= groups.skip(taken as int),
            out@ == rewritten_text(ls.take(i as int), groups),
            crate::picture::served_view(images@) == gathered_images(ls.take(i as int), groups),
        decreases lines@.len() - i,
    {
        assert(lines@[i as int]@ == ls[i as int]);
        assert(ls.take(i + 1).drop_last() =~= ls.take(i as int));
        assert(ls.take(i + 1).last() == ls[i as int]);
        proof {
            lemma_photo_count_prefix(ls, i as int);
        }
        if is_photo_line(&lines[i]) {
            let ghost old_left = groups_left@;
            assert(groups_left@.len() > 0);
            let group = groups_left.remove(0);
            assert(group@.map_values(|x: Image| x@) == groups[taken as int]) by {
                assert(groups_view(old_left)[0] == groups.skip(taken as int)[0]);
            }
            assert(groups_view(groups_left@) =~= groups.skip(taken + 1)) by {
                assert(groups_left@ =~= old_left.subrange(1, old_left.len() as int));
                assert forall|k: int| 0 <= k < groups_left@.len() implies groups_view(groups_left@)[k]
                    == groups.skip(taken + 1)[k] by {
                    assert(groups_left@[k] == old_left[k + 1]);
                    assert(groups_view(old_left)[k + 1] == groups.skip(taken as int)[k + 1]);
                }
            }
            let (served, html) = crate::picture::convert_image_list_to_html_element_and_map(group, Some(sizes));
            let ghost before_out = out@;
            push_str(&mut out, html.as_str());
            let ghost before_images = images@;
            let ghost served_items = served@;
            let mut served = served;
            images.append(&mut served);
            assert(crate::picture::served_view(images@) =~= crate::picture::served_view(before_images)
                + crate::picture::served_view(served_items)) by {
                assert(images@ =~= before_images + served_items);
            }
            taken += 1;
        } else {
            push_chars(&mut out, lines[i].as_slice());
            out.push('\n');
        }
        i += 1;
    }
    assert(ls.take(ls.len() as int) =~= ls);
    post.text = string_of(&out);
    images
}

proof fn lemma_photo_count_prefix(ls: Seq<Seq<char>>, i: int)
    requires
        0 <= i < ls.len(),
    ensures
        photo_count(ls.take(i + 1)) <= photo_count(ls),
        photo_count(ls.take(i)) + (if photo_line(ls[i]) { 1nat } else { 0nat }) == photo_count(ls.take(i + 1)),
    decreases ls.len() - i,
{
    assert(ls.take(i + 1).drop_last() =~= ls.take(i));
    if i + 1 < ls.len() {
        lemma_photo_count_prefix(ls, i + 1);
    } else {
        assert(ls.take(i + 1) =~= ls);
    }
}
} // verus!
