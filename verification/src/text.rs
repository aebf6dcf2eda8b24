//! Character-level text handling shared by the rest of the library: searching,
//! splitting into fields and lines, number formatting and parsing, and HTML escaping.
use vstd::prelude::*;

use crate::outside::{chars_of, string_of};

verus! {

// ---------------------------------------------------------------- searching

/// The position of the first `c` in `s`.
pub open spec fn index_of(s: Seq<char>, c: char) -> Option<nat>
    decreases s.len(),
{
    if s.len() == 0 {
        None
    } else if s[0] == c {
        Some(0)
    } else {
        match index_of(s.drop_first(), c) {
            Some(i) => Some(i + 1),
            None => None,
        }
    }
}

/// `index_of` finds the first occurrence, and finds nothing only where there is none.
pub proof fn lemma_index_of(s: Seq<char>, c: char)
    ensures
        index_of(s, c) matches Some(i) ==> i < s.len() && s[i as int] == c && forall|j: int|
            0 <= j < i ==> s[j] != c,
        index_of(s, c) is None ==> forall|j: int| 0 <= j < s.len() ==> s[j] != c,
    decreases s.len(),
{
    if s.len() > 0 && s[0] != c {
        lemma_index_of(s.drop_first(), c);
        assert forall|j: int| 1 <= j < s.len() implies s[j] == s.drop_first()[j - 1] by {}
    }
}

/// The text before the first `c`, or all of `s` where it has none
/// (what `split(c).next()` gives).
pub open spec fn before_first(s: Seq<char>, c: char) -> Seq<char> {
    match index_of(s, c) {
        Some(i) => s.take(i as int),
        None => s,
    }
}

/// The text after the last `c`, or all of `s` where it has none
/// (what `split(c).last()` gives).
pub open spec fn after_last(s: Seq<char>, c: char) -> Seq<char>
    decreases s.len(),
{
    if s.len() == 0 {
        s
    } else if s.last() == c {
        Seq::empty()
    } else {
        after_last(s.drop_last(), c).push(s.last())
    }
}

/// The two sides of the first `c` (what `split_once(c)` gives).
pub open spec fn split_once(s: Seq<char>, c: char) -> Option<(Seq<char>, Seq<char>)> {
    match index_of(s, c) {
        Some(i) => Some((s.take(i as int), s.skip(i as int + 1))),
        None => None,
    }
}

/// The field of index `n` when `s` is split at every `c` (what `split(c).nth(n)` gives).
pub open spec fn nth_field(s: Seq<char>, c: char, n: nat) -> Option<Seq<char>>
    decreases n,
{
    if n == 0 {
        Some(before_first(s, c))
    } else {
        match index_of(s, c) {
            Some(i) => nth_field(s.skip(i as int + 1), c, (n - 1) as nat),
            None => None,
        }
    }
}

/// Whether `t` occurs in `s` as a contiguous piece.
pub open spec fn contains_text(s: Seq<char>, t: Seq<char>) -> bool {
    exists|i: int| 0 <= i && i + t.len() <= s.len() && #[trigger] s.subrange(i, i + t.len()) == t
}

/// Every piece of `s` between occurrences of `c`, in order (what `split(c)` yields).
pub open spec fn split_all(s: Seq<char>, c: char) -> Seq<Seq<char>>
    decreases s.len(),
{
    match index_of(s, c) {
        Some(i) => {
            proof {
                lemma_index_of(s, c);
            }
            seq![s.take(i as int)] + split_all(s.skip(i as int + 1), c)
        },
        None => seq![s],
    }
}

// ---------------------------------------------------------------- lines

/// A line without the carriage return that ends it, if any.
pub open spec fn strip_cr(l: Seq<char>) -> Seq<char> {
    if l.len() > 0 && l.last() == '\r' {
        l.drop_last()
    } else {
        l
    }
}

/// The lines of a text as `str::lines` yields them: split at each `\n`, a `\r` right before
/// a `\n` dropped, and no empty line after a final `\n`.
pub open spec fn lines_of(s: Seq<char>) -> Seq<Seq<char>>
    decreases s.len(),
{
    if s.len() == 0 {
        Seq::empty()
    } else {
        match index_of(s, '\n') {
            Some(i) => {
                proof {
                    lemma_index_of(s, '\n');
                }
                seq![strip_cr(s.take(i as int))] + lines_of(s.skip(i as int + 1))
            },
            None => seq![s],
        }
    }
}

// ---------------------------------------------------------------- numbers

/// The character of a digit below sixteen, lower case past nine.
pub open spec fn digit_char(d: nat) -> char {
    if d == 0 { '0' }
    else if d == 1 { '1' }
    else if d == 2 { '2' }
    else if d == 3 { '3' }
    else if d == 4 { '4' }
    else if d == 5 { '5' }
    else if d == 6 { '6' }
    else if d == 7 { '7' }
    else if d == 8 { '8' }
    else if d == 9 { '9' }
    else if d == 10 { 'a' }
    else if d == 11 { 'b' }
    else if d == 12 { 'c' }
    else if d == 13 { 'd' }
    else if d == 14 { 'e' }
    else { 'f' }
}

/// The decimal text of a number, without leading zeros.
pub open spec fn dec(n: nat) -> Seq<char>
    decreases n,
{
    if n < 10 {
        seq![digit_char(n)]
    } else {
        dec(n / 10).push(digit_char(n % 10))
    }
}

/// The lower-case hexadecimal text of a number, without leading zeros.
pub open spec fn hex(n: nat) -> Seq<char>
    decreases n,
{
    if n < 16 {
        seq![digit_char(n)]
    } else {
        hex(n / 16).push(digit_char(n % 16))
    }
}

pub open spec fn is_digit(c: char) -> bool {
    '0' <= c && c <= '9'
}

pub open spec fn all_digits(s: Seq<char>) -> bool {
    forall|i: int| 0 <= i < s.len() ==> is_digit(#[trigger] s[i])
}

/// The value of a text of decimal digits.
pub open spec fn digits_value(s: Seq<char>) -> nat
    decreases s.len(),
{
    if s.len() == 0 {
        0
    } else {
        digits_value(s.drop_last()) * 10 + ((s.last() as u32) - ('0' as u32)) as nat
    }
}

/// What `str::parse::<usize>` accepts: an optional `+`, then at least one decimal digit,
/// with a value that fits.
pub open spec fn parse_usize(s: Seq<char>) -> Option<usize> {
    let d = if s.len() > 0 && s[0] == '+' { s.drop_first() } else { s };
    if d.len() == 0 || !all_digits(d) || digits_value(d) > usize::MAX {
        None
    } else {
        Some(digits_value(d) as usize)
    }
}

// ---------------------------------------------------------------- escaping

/// What maud writes for one character of escaped text.
pub open spec fn escape_char(c: char) -> Seq<char> {
    if c == '&' {
        seq!['&', 'a', 'm', 'p', ';']
    } else if c == '<' {
        seq!['&', 'l', 't', ';']
    } else if c == '>' {
        seq!['&', 'g', 't', ';']
    } else if c == '"' {
        seq!['&', 'q', 'u', 'o', 't', ';']
    } else {
        seq![c]
    }
}

/// HTML escaping of a whole text, character by character.
pub open spec fn escape_html(s: Seq<char>) -> Seq<char>
    decreases s.len(),
{
    if s.len() == 0 {
        Seq::empty()
    } else {
        escape_html(s.drop_last()) + escape_char(s.last())
    }
}

/// Escaped text holds no `<`, `>` or `"`: nothing in it can open or close markup or end an
/// attribute value.
pub proof fn lemma_escape_html_inert(s: Seq<char>)
    ensures
        forall|i: int| 0 <= i < escape_html(s).len() ==> {
            let c = #[trigger] escape_html(s)[i];
            c != '<' && c != '>' && c != '"'
        },
    decreases s.len(),
{
    if s.len() > 0 {
        lemma_escape_html_inert(s.drop_last());
        let head = escape_html(s.drop_last());
        let tail = escape_char(s.last());
        assert forall|i: int| 0 <= i < escape_html(s).len() implies {
            let c = #[trigger] escape_html(s)[i];
            c != '<' && c != '>' && c != '"'
        } by {
            if i < head.len() {
                assert(escape_html(s)[i] == head[i]);
            } else {
                assert(escape_html(s)[i] == tail[i - head.len()]);
            }
        }
    }
}

/// Text with none of `&`, `<`, `>`, `"` is left as it is by escaping.
pub proof fn lemma_escape_html_plain(s: Seq<char>)
    requires
        forall|i: int| 0 <= i < s.len() ==> {
            let c = #[trigger] s[i];
            c != '&' && c != '<' && c != '>' && c != '"'
        },
    ensures
        escape_html(s) == s,
    decreases s.len(),
{
    if s.len() > 0 {
        let d = s.drop_last();
        assert forall|i: int| 0 <= i < d.len() implies {
            let c = #[trigger] d[i];
            c != '&' && c != '<' && c != '>' && c != '"'
        } by {
            assert(d[i] == s[i]);
        }
        lemma_escape_html_plain(d);
        assert(s[s.len() - 1] == s.last());
        assert(escape_html(s) =~= d.push(s.last()));
        assert(d.push(s.last()) =~= s);
    }
}

/// Every `"` of a text preceded by a backslash (what `replace("\"", "\\\"")` gives).
pub open spec fn escape_quotes(s: Seq<char>) -> Seq<char>
    decreases s.len(),
{
    if s.len() == 0 {
        Seq::empty()
    } else if s.last() == '"' {
        escape_quotes(s.drop_last()) + seq!['\\', '"']
    } else {
        escape_quotes(s.drop_last()).push(s.last())
    }
}

// ================================================================ exec

/// Appends a run of characters.
pub fn push_chars(out: &mut Vec<char>, s: &[char])
    ensures
        final(out)@ == old(out)@ + s@,
{
    let mut i: usize = 0;
    while i < s.len()
        invariant
            0 <= i <= s.len(),
            out@ == old(out)@ + s@.take(i as int),
        decreases s.len() - i,
    {
        out.push(s[i]);
        i += 1;
        assert(s@.take(i as int) == s@.take(i - 1).push(s@[i - 1]));
    }
    assert(s@.take(s.len() as int) == s@);
}

/// Appends the characters of a text.
pub fn push_str(out: &mut Vec<char>, s: &str)
    ensures
        final(out)@ == old(out)@ + s@,
{
    let v = chars_of(s);
    push_chars(out, v.as_slice());
}

/// The UTF-8 bytes of a text.
pub fn bytes_of(s: &str) -> (r: Vec<u8>)
    ensures
        r@ == vstd::utf8::encode_utf8(s@),
{
    vstd::slice::slice_to_vec(s.as_bytes())
}

/// An owned copy of a text.
pub fn owned(s: &str) -> (r: String)
    ensures
        r@ == s@,
{
    string_of(&chars_of(s))
}

/// A new `String` made of the given text followed by the given characters.
pub fn concat_str_chars(a: &str, b: &[char]) -> (r: String)
    ensures
        r@ == a@ + b@,
{
    let mut v = chars_of(a);
    push_chars(&mut v, b);
    string_of(&v)
}

/// The character of a digit below sixteen.
pub fn digit_of(d: u32) -> (c: char)
    requires
        d < 16,
    ensures
        c == digit_char(d as nat),
{
    if d == 0 { '0' }
    else if d == 1 { '1' }
    else if d == 2 { '2' }
    else if d == 3 { '3' }
    else if d == 4 { '4' }
    else if d == 5 { '5' }
    else if d == 6 { '6' }
    else if d == 7 { '7' }
    else if d == 8 { '8' }
    else if d == 9 { '9' }
    else if d == 10 { 'a' }
    else if d == 11 { 'b' }
    else if d == 12 { 'c' }
    else if d == 13 { 'd' }
    else if d == 14 { 'e' }
    else { 'f' }
}

/// Appends the decimal text of a number.
pub fn push_dec(out: &mut Vec<char>, n: u64)
    ensures
        final(out)@ == old(out)@ + dec(n as nat),
    decreases n,
{
    if n >= 10 {
        push_dec(out, n / 10);
        out.push(digit_of((n % 10) as u32));
    } else {
        out.push(digit_of(n as u32));
    }
}

/// Appends the lower-case hexadecimal text of a number.
pub fn push_hex(out: &mut Vec<char>, n: u64)
    ensures
        final(out)@ == old(out)@ + hex(n as nat),
    decreases n,
{
    if n >= 16 {
        push_hex(out, n / 16);
        out.push(digit_of((n % 16) as u32));
    } else {
        out.push(digit_of(n as u32));
    }
}

/// The decimal text of a number.
pub fn dec_string(n: u64) -> (r: String)
    ensures
        r@ == dec(n as nat),
{
    let mut v: Vec<char> = Vec::new();
    push_dec(&mut v, n);
    string_of(&v)
}

/// Position of the first `c` in `s`.
pub fn find_char(s: &[char], c: char) -> (r: Option<usize>)
    ensures
        r matches Some(i) ==> index_of(s@, c) == Some(i as nat) && i < s@.len() && s@[i as int] == c,
        r is None ==> index_of(s@, c) is None,
{
    proof {
        lemma_index_of(s@, c);
    }
    let mut i: usize = 0;
    while i < s.len()
        invariant
            0 <= i <= s.len(),
            forall|j: int| 0 <= j < i ==> s@[j] != c,
            index_of(s@, c) matches Some(k) ==> k < s.len() && s@[k as int] == c && forall|j: int|
                0 <= j < k ==> s@[j] != c,
            index_of(s@, c) is None ==> forall|j: int| 0 <= j < s.len() ==> s@[j] != c,
        decreases s.len() - i,
    {
        if s[i] == c {
            return Some(i);
        }
        i += 1;
    }
    None
}

/// The characters from `start` to `end` as a new vector.
pub fn sub_chars(s: &[char], start: usize, end: usize) -> (r: Vec<char>)
    requires
        start <= end <= s.len(),
    ensures
        r@ == s@.subrange(start as int, end as int),
{
    let mut r: Vec<char> = Vec::new();
    let mut i = start;
    while i < end
        invariant
            start <= i <= end <= s.len(),
            r@ == s@.subrange(start as int, i as int),
        decreases end - i,
    {
        r.push(s[i]);
        i += 1;
    }
    r
}

/// The text before the first `c`, or all of it.
pub fn before_first_chars(s: &[char], c: char) -> (r: Vec<char>)
    ensures
        r@ == before_first(s@, c),
{
    match find_char(s, c) {
        Some(i) => sub_chars(s, 0, i),
        None => sub_chars(s, 0, s.len()),
    }
}

/// `after_last` is what follows the last `c`, or the whole text when there is none.
pub proof fn lemma_after_last(s: Seq<char>, c: char)
    ensures
        (forall|j: int| 0 <= j < s.len() ==> s[j] != c) ==> after_last(s, c) == s,
        forall|k: int|
            0 <= k < s.len() && #[trigger] s[k] == c && (forall|j: int| k < j < s.len() ==> s[j] != c)
                ==> after_last(s, c) == s.skip(k + 1),
    decreases s.len(),
{
    if s.len() > 0 {
        lemma_after_last(s.drop_last(), c);
        if s.last() != c {
            assert forall|k: int|
                0 <= k < s.len() && s[k] == c && (forall|j: int| k < j < s.len() ==> s[j] != c)
                implies after_last(s, c) == s.skip(k + 1) by {
                assert(k < s.len() - 1);
                assert(s.drop_last()[k] == c);
                assert(forall|j: int| k < j < s.len() - 1 ==> s.drop_last()[j] == s[j]);
                assert(after_last(s.drop_last(), c) == s.drop_last().skip(k + 1));
                assert(s.drop_last().skip(k + 1).push(s.last()) =~= s.skip(k + 1));
            }
            if forall|j: int| 0 <= j < s.len() ==> s[j] != c {
                assert(forall|j: int| 0 <= j < s.len() - 1 ==> s.drop_last()[j] != c);
                assert(s.drop_last().push(s.last()) =~= s);
            }
        } else {
            assert forall|k: int|
                0 <= k < s.len() && s[k] == c && (forall|j: int| k < j < s.len() ==> s[j] != c)
                implies after_last(s, c) == s.skip(k + 1) by {
                assert(k == s.len() - 1);
                assert(s.skip(k + 1) =~= Seq::<char>::empty());
            }
        }
    }
}

/// `after_last` at a known last occurrence.
proof fn lemma_after_last_at(s: Seq<char>, c: char, k: int)
    requires
        0 <= k < s.len(),
        s[k] == c,
        forall|j: int| k < j < s.len() ==> s[j] != c,
    ensures
        after_last(s, c) == s.skip(k + 1),
{
    lemma_after_last(s, c);
    assert(s[k] == c);
}

/// The text after the last `c`, or all of it.
pub fn after_last_chars(s: &[char], c: char) -> (r: Vec<char>)
    ensures
        r@ == after_last(s@, c),
{
    proof {
        lemma_after_last(s@, c);
    }
    let mut i: usize = s.len();
    while i > 0
        invariant
            0 <= i <= s.len(),
            forall|j: int| i <= j < s.len() ==> s@[j] != c,
        decreases i,
    {
        if s[i - 1] == c {
            let r = sub_chars(s, i, s.len());
            assert(r@ =~= s@.skip(i as int));
            proof {
                lemma_after_last_at(s@, c, i - 1);
            }
            return r;
        }
        i -= 1;
    }
    let r = sub_chars(s, 0, s.len());
    assert(r@ =~= s@);
    r
}

/// The two sides of the first `c`.
pub fn split_once_chars(s: &[char], c: char) -> (r: Option<(Vec<char>, Vec<char>)>)
    ensures
        r matches Some(p) ==> split_once(s@, c) == Some((p.0@, p.1@)),
        r is None ==> split_once(s@, c) is None,
{
    match find_char(s, c) {
        Some(i) => {
            assert(i < s.len());
            let a = sub_chars(s, 0, i);
            let b = sub_chars(s, i + 1, s.len());
            assert(b@ =~= s@.skip(i + 1));
            Some((a, b))
        },
        None => None,
    }
}

/// The field of index `n` when `s` is split at every `c`.
pub fn nth_field_chars(s: &[char], c: char, n: usize) -> (r: Option<Vec<char>>)
    ensures
        r matches Some(f) ==> nth_field(s@, c, n as nat) == Some(f@),
        r is None ==> nth_field(s@, c, n as nat) is None,
    decreases n,
{
    if n == 0 {
        Some(before_first_chars(s, c))
    } else {
        match find_char(s, c) {
            Some(i) => {
                assert(i < s.len());
                let rest = sub_chars(s, i + 1, s.len());
                assert(rest@ =~= s@.skip(i + 1));
                nth_field_chars(rest.as_slice(), c, n - 1)
            },
            None => None,
        }
    }
}

/// Whether `t` occurs in `s`.
pub fn contains_chars(s: &[char], t: &[char]) -> (r: bool)
    ensures
        r == contains_text(s@, t@),
{
    if t.len() > s.len() {
        return false;
    }
    let mut i: usize = 0;
    while i <= s.len() - t.len()
        invariant
            t.len() <= s.len(),
            0 <= i <= s.len() - t.len() + 1,
            forall|k: int| 0 <= k < i ==> #[trigger] s@.subrange(k, k + t@.len()) != t@,
        decreases s.len() + 1 - i,
    {
        let mut j: usize = 0;
        let mut same = true;
        while j < t.len()
            invariant
                i + t.len() <= s.len(),
                0 <= j <= t.len(),
                same == forall|m: int| 0 <= m < j ==> s@[i + m] == t@[m],
            decreases t.len() - j,
        {
            if s[i + j] != t[j] {
                same = false;
            }
            j += 1;
        }
        if same {
            assert(s@.subrange(i as int, i + t@.len()) =~= t@);
            return true;
        }
        assert(s@.subrange(i as int, i + t@.len()) != t@) by {
            let m = choose|m: int| 0 <= m < t.len() && s@[i + m] != t@[m];
            assert(s@.subrange(i as int, i + t@.len())[m] == s@[i + m]);
        }
        i += 1;
    }
    false
}

/// Whether `p` starts `s`.
pub fn starts_with_chars(s: &[char], p: &[char]) -> (r: bool)
    ensures
        r == p@.is_prefix_of(s@),
{
    if p.len() > s.len() {
        return false;
    }
    let mut j: usize = 0;
    while j < p.len()
        invariant
            p.len() <= s.len(),
            0 <= j <= p.len(),
            forall|m: int| 0 <= m < j ==> s@[m] == p@[m],
        decreases p.len() - j,
    {
        if s[j] != p[j] {
            assert(s@.subrange(0, p@.len() as int)[j as int] != p@[j as int]);
            return false;
        }
        j += 1;
    }
    assert(p@ =~= s@.subrange(0, p@.len() as int));
    true
}

/// Whether `p` ends `s`.
pub fn ends_with_chars(s: &[char], p: &[char]) -> (r: bool)
    ensures
        r == p@.is_suffix_of(s@),
{
    if p.len() > s.len() {
        return false;
    }
    let off = s.len() - p.len();
    let mut j: usize = 0;
    while j < p.len()
        invariant
            p.len() <= s.len(),
            off == s.len() - p.len(),
            0 <= j <= p.len(),
            forall|m: int| 0 <= m < j ==> s@[off + m] == p@[m],
        decreases p.len() - j,
    {
        if s[off + j] != p[j] {
            assert(s@.subrange(off as int, s@.len() as int)[j as int] != p@[j as int]);
            return false;
        }
        j += 1;
    }
    assert(p@ =~= s@.subrange(off as int, s@.len() as int));
    true
}

/// Whether the text `p` starts the text `s`.
pub fn str_starts_with(s: &str, p: &str) -> (r: bool)
    ensures
        r == p@.is_prefix_of(s@),
{
    let a = chars_of(s);
    let b = chars_of(p);
    starts_with_chars(a.as_slice(), b.as_slice())
}

/// Whether the text `p` ends the text `s`.
pub fn str_ends_with(s: &str, p: &str) -> (r: bool)
    ensures
        r == p@.is_suffix_of(s@),
{
    let a = chars_of(s);
    let b = chars_of(p);
    ends_with_chars(a.as_slice(), b.as_slice())
}

/// `lines_of` of a text that starts with a line ending in `\n`.
proof fn lemma_lines_step(s: Seq<char>, i: int)
    requires
        0 <= i < s.len(),
        s[i] == '\n',
        forall|j: int| 0 <= j < i ==> s[j] != '\n',
    ensures
        lines_of(s) == seq![strip_cr(s.take(i))] + lines_of(s.skip(i as int + 1)),
{
    lemma_index_of(s, '\n');
    match index_of(s, '\n') {
        Some(k) => {
            assert(k as int == i);
        },
        None => {
            assert(s[i] != '\n');
        },
    }
}

/// The line `s[start..end]` without a final `\r`.
fn line_without_cr(s: &[char], start: usize, end: usize) -> (r: Vec<char>)
    requires
        start <= end <= s.len(),
    ensures
        r@ == strip_cr(s@.subrange(start as int, end as int)),
{
    if end > start && s[end - 1] == '\r' {
        let r = sub_chars(s, start, end - 1);
        assert(r@ =~= s@.subrange(start as int, end as int).drop_last());
        r
    } else {
        sub_chars(s, start, end)
    }
}

/// The lines of a text, as `str::lines` yields them.
pub fn split_lines(s: &[char]) -> (r: Vec<Vec<char>>)
    ensures
        r@.len() == lines_of(s@).len(),
        forall|k: int| 0 <= k < r@.len() ==> #[trigger] r@[k]@ == lines_of(s@)[k],
{
    let mut r: Vec<Vec<char>> = Vec::new();
    let mut start: usize = 0;
    let mut i: usize = 0;
    assert(s@.skip(0) =~= s@);
    while i < s.len()
        invariant
            0 <= start <= i <= s.len(),
            forall|j: int| start <= j < i ==> s@[j] != '\n',
            r@.len() + lines_of(s@.skip(start as int)).len() == lines_of(s@).len(),
            forall|k: int| 0 <= k < r@.len() ==> #[trigger] r@[k]@ == lines_of(s@)[k],
            forall|k: int|
                0 <= k < lines_of(s@.skip(start as int)).len() ==> lines_of(s@)[r@.len() + k]
                    == #[trigger] lines_of(s@.skip(start as int))[k],
        decreases s.len() - i,
    {
        if s[i] == '\n' {
            let ghost rest = s@.skip(start as int);
            proof {
                assert(rest[i - start] == '\n');
                assert forall|j: int| 0 <= j < i - start implies rest[j] != '\n' by {
                    assert(rest[j] == s@[start + j]);
                }
                lemma_lines_step(rest, i - start);
                assert(rest.take(i - start) =~= s@.subrange(start as int, i as int));
                assert(rest.skip(i - start + 1) =~= s@.skip(i + 1));
            }
            let line = line_without_cr(s, start, i);
            r.push(line);
            start = i + 1;
            proof {
                assert forall|k: int| 0 <= k < lines_of(s@.skip(start as int)).len() implies
                    lines_of(s@)[r@.len() + k] == #[trigger] lines_of(s@.skip(start as int))[k] by {
                    assert(lines_of(rest)[k + 1] == lines_of(s@.skip(start as int))[k]);
                }
                assert(lines_of(s@)[r@.len() - 1] == lines_of(rest)[0]);
            }
        }
        i += 1;
    }
    if start < s.len() {
        let ghost rest = s@.skip(start as int);
        proof {
            lemma_index_of(rest, '\n');
            assert forall|j: int| 0 <= j < rest.len() implies rest[j] != '\n' by {
                assert(rest[j] == s@[start + j]);
            }
            match index_of(rest, '\n') {
                Some(k) => { assert(rest[k as int] == '\n'); },
                None => {},
            }
            assert(lines_of(rest) == seq![rest]);
        }
        let line = sub_chars(s, start, s.len());
        assert(line@ =~= rest);
        r.push(line);
        proof {
            assert(lines_of(s@)[r@.len() - 1] == lines_of(rest)[0]);
        }
    } else {
        assert(s@.skip(start as int).len() == 0);
    }
    r
}

/// Digit values do not shrink when a text of digits grows.
proof fn lemma_digits_value_grows(s: Seq<char>, k: int)
    requires
        0 <= k <= s.len(),
        all_digits(s),
    ensures
        digits_value(s.take(k)) <= digits_value(s),
    decreases s.len() - k,
{
    if k < s.len() {
        lemma_digits_value_grows(s, k + 1);
        assert(s.take(k + 1).drop_last() =~= s.take(k));
        assert(is_digit(s[k]));
    } else {
        assert(s.take(k) =~= s);
    }
}

/// Parses a decimal number as `str::parse::<usize>` does.
pub fn parse_usize_chars(s: &[char]) -> (r: Option<usize>)
    ensures
        r == parse_usize(s@),
{
    let start: usize = if s.len() > 0 && s[0] == '+' { 1 } else { 0 };
    let ghost d = if s@.len() > 0 && s@[0] == '+' { s@.drop_first() } else { s@ };
    assert(d =~= s@.skip(start as int));
    if start == s.len() {
        return None;
    }
    let mut value: usize = 0;
    let mut i = start;
    while i < s.len()
        invariant
            start <= i <= s.len(),
            start < s.len(),
            d == s@.skip(start as int),
            d == (if s@.len() > 0 && s@[0] == '+' { s@.drop_first() } else { s@ }),
            all_digits(d.take(i - start)),
            value as nat == digits_value(d.take(i - start)),
        decreases s.len() - i,
    {
        let c = s[i];
        assert(d[i - start] == c);
        if !('0' <= c && c <= '9') {
            assert(!is_digit(d[i - start]));
            assert(!all_digits(d));
            return None;
        }
        let digit = ((c as u32) - ('0' as u32)) as usize;
        assert(d.take(i - start + 1).drop_last() =~= d.take(i - start));
        assert(d.take(i - start + 1).last() == c);
        assert(all_digits(d.take(i - start + 1)));
        assert(digits_value(d.take(i - start + 1)) == value * 10 + digit);
        match value.checked_mul(10) {
            Some(v10) => match v10.checked_add(digit) {
                Some(v) => {
                    value = v;
                },
                None => {
                    proof {
                        if all_digits(d) {
                            lemma_digits_value_grows(d, i - start + 1);
                            assert(digits_value(d) > usize::MAX);
                        }
                    }
                    return None;
                },
            },
            None => {
                proof {
                    if all_digits(d) {
                        lemma_digits_value_grows(d, i - start + 1);
                        assert(digits_value(d) > usize::MAX);
                    }
                }
                return None;
            },
        }
        i += 1;
    }
    assert(d.take(s.len() - start) =~= d);
    Some(value)
}

/// Appends a text with maud's HTML escaping.
pub fn push_escaped(out: &mut Vec<char>, s: &[char])
    ensures
        final(out)@ == old(out)@ + escape_html(s@),
{
    let mut i: usize = 0;
    while i < s.len()
        invariant
            0 <= i <= s.len(),
            out@ == old(out)@ + escape_html(s@.take(i as int)),
        decreases s.len() - i,
    {
        let c = s[i];
        let ghost before = out@;
        if c == '&' {
            out.push('&'); out.push('a'); out.push('m'); out.push('p'); out.push(';');
        } else if c == '<' {
            out.push('&'); out.push('l'); out.push('t'); out.push(';');
        } else if c == '>' {
            out.push('&'); out.push('g'); out.push('t'); out.push(';');
        } else if c == '"' {
            out.push('&'); out.push('q'); out.push('u'); out.push('o'); out.push('t'); out.push(';');
        } else {
            out.push(c);
        }
        assert(out@ =~= before + escape_char(c));
        assert(s@.take(i + 1).drop_last() =~= s@.take(i as int));
        i += 1;
    }
    assert(s@.take(s.len() as int) =~= s@);
}

/// Appends a text with every `"` preceded by a backslash.
pub fn push_quotes_escaped(out: &mut Vec<char>, s: &[char])
    ensures
        final(out)@ == old(out)@ + escape_quotes(s@),
{
    let mut i: usize = 0;
    while i < s.len()
        invariant
            0 <= i <= s.len(),
            out@ == old(out)@ + escape_quotes(s@.take(i as int)),
        decreases s.len() - i,
    {
        let c = s[i];
        let ghost before = out@;
        if c == '"' {
            out.push('\\');
            out.push('"');
        } else {
            out.push(c);
        }
        assert(s@.take(i + 1).drop_last() =~= s@.take(i as int));
        assert(out@ =~= old(out)@ + escape_quotes(s@.take(i + 1)));
        i += 1;
    }
    assert(s@.take(s.len() as int) =~= s@);
}


/// The parts joined with a separator between each two.
pub open spec fn join(parts: Seq<Seq<char>>, sep: Seq<char>) -> Seq<char>
    decreases parts.len(),
{
    if parts.len() == 0 {
        Seq::empty()
    } else if parts.len() == 1 {
        parts[0]
    } else {
        join(parts.drop_last(), sep) + sep + parts.last()
    }
}

/// Appends the parts joined with a separator.
pub fn push_joined(out: &mut Vec<char>, parts: &Vec<Vec<char>>, sep: &str)
    ensures
        final(out)@ == old(out)@ + join(parts@.map_values(|p: Vec<char>| p@), sep@),
{
    let ghost ps = parts@.map_values(|p: Vec<char>| p@);
    let sep_chars = chars_of(sep);
    let mut i: usize = 0;
    while i < parts.len()
        invariant
            0 <= i <= parts@.len(),
            ps == parts@.map_values(|p: Vec<char>| p@),
            sep_chars@ == sep@,
            out@ == old(out)@ + join(ps.take(i as int), sep@),
        decreases parts@.len() - i,
    {
        let ghost before = out@;
        if i > 0 {
            push_chars(out, sep_chars.as_slice());
        }
        push_chars(out, parts[i].as_slice());
        assert(ps.take(i + 1).drop_last() =~= ps.take(i as int));
        assert(ps.take(i + 1).last() == parts@[i as int]@);
        if i == 0 {
            assert(join(ps.take(1), sep@) == ps.take(1)[0]);
            assert(join(ps.take(0), sep@) == Seq::<char>::empty());
            assert(out@ =~= old(out)@ + join(ps.take(i + 1), sep@));
        } else {
            assert(out@ =~= old(out)@ + join(ps.take(i + 1), sep@));
        }
        i += 1;
    }
    assert(ps.take(parts@.len() as int) =~= ps);
}

/// Whether two texts are the same.
pub fn str_eq(a: &str, b: &str) -> (r: bool)
    ensures
        r == (a@ == b@),
{
    let x = chars_of(a);
    let y = chars_of(b);
    if x.len() != y.len() {
        return false;
    }
    let mut i: usize = 0;
    while i < x.len()
        invariant
            x@ == a@,
            y@ == b@,
            x@.len() == y@.len(),
            0 <= i <= x@.len(),
            forall|k: int| 0 <= k < i ==> x@[k] == y@[k],
        decreases x@.len() - i,
    {
        if x[i] != y[i] {
            assert(x@[i as int] != y@[i as int]);
            return false;
        }
        i += 1;
    }
    assert(x@ =~= y@);
    true
}


/// `split_all` of a text that starts with a piece ending at a `c`.
proof fn lemma_split_step(s: Seq<char>, c: char, i: int)
    requires
        0 <= i < s.len(),
        s[i] == c,
        forall|j: int| 0 <= j < i ==> s[j] != c,
    ensures
        split_all(s, c) == seq![s.take(i)] + split_all(s.skip(i + 1), c),
{
    lemma_index_of(s, c);
    match index_of(s, c) {
        Some(k) => {
            assert(k as int == i);
        },
        None => {
            assert(s[i] != c);
        },
    }
}

/// Every piece of `s` between occurrences of `c` (what `split(c)` yields).
pub fn split_all_chars(s: &[char], c: char) -> (r: Vec<Vec<char>>)
    ensures
        r@.map_values(|p: Vec<char>| p@) == split_all(s@, c),
{
    let mut r: Vec<Vec<char>> = Vec::new();
    let mut start: usize = 0;
    let mut i: usize = 0;
    assert(s@.skip(0) =~= s@);
    while i < s.len()
        invariant
            0 <= start <= i <= s.len(),
            forall|j: int| start <= j < i ==> s@[j] != c,
            r@.map_values(|p: Vec<char>| p@) + split_all(s@.skip(start as int), c) == split_all(s@, c),
        decreases s.len() - i,
    {
        if s[i] == c {
            let ghost rest = s@.skip(start as int);
            proof {
                assert(rest[i - start] == c);
                assert forall|j: int| 0 <= j < i - start implies rest[j] != c by {
                    assert(rest[j] == s@[start + j]);
                }
                lemma_split_step(rest, c, i - start);
                assert(rest.take(i - start) =~= s@.subrange(start as int, i as int));
                assert(rest.skip(i - start + 1) =~= s@.skip(i + 1));
            }
            let piece = sub_chars(s, start, i);
            let ghost before = r@.map_values(|p: Vec<char>| p@);
            r.push(piece);
            assert(r@.map_values(|p: Vec<char>| p@) =~= before.push(piece@));
            assert(before + (seq![piece@] + split_all(s@.skip(i + 1), c)) =~= before.push(piece@)
                + split_all(s@.skip(i + 1), c));
            start = i + 1;
        }
        i += 1;
    }
    let ghost rest = s@.skip(start as int);
    proof {
        lemma_index_of(rest, c);
        assert forall|j: int| 0 <= j < rest.len() implies rest[j] != c by {
            assert(rest[j] == s@[start + j]);
        }
        match index_of(rest, c) {
            Some(k) => {
                assert(rest[k as int] == c);
            },
            None => {},
        }
        assert(split_all(rest, c) == seq![rest]);
    }
    let piece = sub_chars(s, start, s.len());
    assert(piece@ =~= rest);
    let ghost before = r@.map_values(|p: Vec<char>| p@);
    r.push(piece);
    assert(r@.map_values(|p: Vec<char>| p@) =~= before.push(piece@));
    assert(before + seq![rest] =~= before.push(rest));
    r
}

/// Every backslash doubled (what `replace("\\", "\\\\")` gives).
pub open spec fn escape_backslashes(s: Seq<char>) -> Seq<char>
    decreases s.len(),
{
    if s.len() == 0 {
        Seq::empty()
    } else if s.last() == '\\' {
        escape_backslashes(s.drop_last()) + seq!['\\', '\\']
    } else {
        escape_backslashes(s.drop_last()).push(s.last())
    }
}

/// Appends a text with every backslash doubled.
pub fn push_backslashes_escaped(out: &mut Vec<char>, s: &[char])
    ensures
        final(out)@ == old(out)@ + escape_backslashes(s@),
{
    let mut i: usize = 0;
    while i < s.len()
        invariant
            0 <= i <= s.len(),
            out@ == old(out)@ + escape_backslashes(s@.take(i as int)),
        decreases s.len() - i,
    {
        let c = s[i];
        if c == '\\' {
            out.push('\\');
            out.push('\\');
        } else {
            out.push(c);
        }
        assert(s@.take(i + 1).drop_last() =~= s@.take(i as int));
        assert(out@ =~= old(out)@ + escape_backslashes(s@.take(i + 1)));
        i += 1;
    }
    assert(s@.take(s.len() as int) =~= s@);
}
} // verus!
