//! The calls into std and into outside crates that Verus cannot read, each with the
//! contract that the rest of the library relies on.
use vstd::prelude::*;

verus! {

/// `str::chars` collected into a vector: the characters of the text, in order.
#[verifier::external_body]
pub(crate) fn chars_of(s: &str) -> (r: Vec<char>)
    ensures
        r@ == s@,
{
    s.chars().collect()
}

/// `String: FromIterator<char>`: the text made of the given characters, in order.
#[verifier::external_body]
pub(crate) fn string_of(v: &Vec<char>) -> (r: String)
    ensures
        r@ == v@,
{
    v.iter().collect()
}

/// One bit of the reflected CRC-32 register update, with the IEEE polynomial `0xEDB88320`.
pub open spec fn crc32_shift(c: u32) -> u32 {
    if c & 1 == 1 {
        (c >> 1) ^ 0xEDB88320u32
    } else {
        c >> 1
    }
}

/// `k` bit steps of the register.
pub open spec fn crc32_bits(c: u32, k: nat) -> u32
    decreases k,
{
    if k == 0 {
        c
    } else {
        crc32_bits(crc32_shift(c), (k - 1) as nat)
    }
}

/// The register after taking in a run of bytes, lowest bit first.
pub open spec fn crc32_update(c: u32, bytes: Seq<u8>) -> u32
    decreases bytes.len(),
{
    if bytes.len() == 0 {
        c
    } else {
        crc32_update(crc32_bits(c ^ (bytes[0] as u32), 8), bytes.drop_first())
    }
}

/// The CRC-32 (IEEE) checksum of a run of bytes: the register starts at all ones and is
/// inverted at the end.
pub open spec fn crc32_of(bytes: Seq<u8>) -> u32 {
    crc32_update(0xFFFFFFFFu32, bytes) ^ 0xFFFFFFFFu32
}

/// Calls `crc32fast::hash`, which its documentation describes as the CRC32 (IEEE) checksum;
/// the contract states that checksum (see `crc32_of`).
#[verifier::external_body]
pub(crate) fn crc32(bytes: &[u8]) -> (r: u32)
    ensures
        r == crc32_of(bytes@),
{
    crc32fast::hash(bytes)
}

/// The MathML text that KaTeX renders for a TeX source, or `None` where it reports an error.
pub uninterp spec fn katex_mathml(tex: Seq<char>) -> Option<Seq<char>>;

/// Calls `katex::render_with_opts` with MathML output; the contract names the outcome and
/// claims nothing else.
#[verifier::external_body]
pub(crate) fn render_tex_mathml(tex: &str) -> (r: Option<String>)
    ensures
        r matches Some(s) ==> katex_mathml(tex@) == Some(s@),
        r is None ==> katex_mathml(tex@) is None,
{
    let opts = katex::Opts::builder().output_type(katex::OutputType::Mathml).build().ok()?;
    katex::render_with_opts(tex, &opts).ok()
}


/// The HTML that the `markdown` crate makes of a markdown text, with raw HTML and every
/// link protocol allowed or not as the flags say.
pub uninterp spec fn markdown_html(md: Seq<char>, allow_html: bool, allow_protocols: bool) -> Seq<char>;

/// Calls `markdown::to_html_with_options` with MDX off; its documentation says it never
/// fails on markdown without MDX, and the contract names the result and claims nothing else.
#[verifier::external_body]
pub(crate) fn markdown_to_html(md: &str, allow_html: bool, allow_protocols: bool) -> (r: String)
    ensures
        r@ == markdown_html(md@, allow_html, allow_protocols),
{
    let options = markdown::Options {
        compile: markdown::CompileOptions {
            allow_dangerous_html: allow_html,
            allow_dangerous_protocol: allow_protocols,
            ..markdown::CompileOptions::default()
        },
        ..markdown::Options::default()
    };
    markdown::to_html_with_options(md, &options).unwrap_or_default()
}

/// What front matter a text starts with.
#[derive(PartialEq, Eq, Structural, Clone, Copy, Debug)]
pub enum MatterShape {
    /// No front matter.
    Absent,
    /// Front matter that is not a table of keys.
    NotTable,
    /// A table of keys.
    Table,
}

/// The value under one key of the front matter.
pub enum MatterField {
    /// No front matter table, or no such key.
    Missing,
    Text(String),
    /// A list, each item with its text where it is a text.
    List(Vec<Option<String>>),
    /// Any other value.
    Other,
}

pub enum MatterFieldView {
    Missing,
    Text(Seq<char>),
    List(Seq<Option<Seq<char>>>),
    Other,
}

impl View for MatterField {
    type V = MatterFieldView;

    open spec fn view(&self) -> MatterFieldView {
        match self {
            MatterField::Missing => MatterFieldView::Missing,
            MatterField::Text(s) => MatterFieldView::Text(s@),
            MatterField::List(v) => MatterFieldView::List(
                v@.map_values(|o: Option<String>| match o { Some(s) => Some(s@), None => None }),
            ),
            MatterField::Other => MatterFieldView::Other,
        }
    }
}

/// The shape of the YAML front matter that `gray_matter` finds in a text, and the text
/// without it.
pub uninterp spec fn front_matter_of(content: Seq<char>) -> (MatterShape, Seq<char>);

/// Calls `gray_matter::Matter::<YAML>::parse`; the contract names what it finds and claims
/// nothing else.
#[verifier::external_body]
pub(crate) fn front_matter(content: &str) -> (r: (MatterShape, String))
    ensures
        (r.0, r.1@) == front_matter_of(content@),
{
    let parsed = gray_matter::Matter::<gray_matter::engine::YAML>::new().parse(content);
    let shape = match parsed.data.map(|d| d.as_hashmap().is_ok()) {
        None => MatterShape::Absent,
        Some(false) => MatterShape::NotTable,
        Some(true) => MatterShape::Table,
    };
    (shape, parsed.content)
}

/// The value that `gray_matter` finds under a key of a text's front matter table.
pub uninterp spec fn front_matter_field_of(content: Seq<char>, key: Seq<char>) -> MatterFieldView;

/// Calls `gray_matter::Matter::<YAML>::parse` and looks the key up in the table; the
/// contract names the value and claims nothing else.
#[verifier::external_body]
pub(crate) fn front_matter_field(content: &str, key: &str) -> (r: MatterField)
    ensures
        r@ == front_matter_field_of(content@, key@),
{
    let parsed = gray_matter::Matter::<gray_matter::engine::YAML>::new().parse(content);
    let table = match parsed.data.map(|d| d.as_hashmap()) {
        Some(Ok(t)) => t,
        _ => return MatterField::Missing,
    };
    match table.get(key) {
        None => MatterField::Missing,
        Some(gray_matter::Pod::String(s)) => MatterField::Text(s.clone()),
        Some(gray_matter::Pod::Array(items)) => MatterField::List(items.iter().map(|i| i.as_string().ok()).collect()),
        Some(_) => MatterField::Other,
    }
}

/// The UTC timestamp of a date parsed by `chrono` with a format, and its UTC day written as
/// `YYYY-MM-DD`; `None` where the parse fails.
pub uninterp spec fn parsed_date(text: Seq<char>, fmt: Seq<char>) -> Option<(i64, Seq<char>)>;

/// Calls `chrono::DateTime::parse_from_str`, then writes the UTC date with the fixed format
/// `%Y-%m-%d` (a bad parse format only makes the parse fail); the contract names the outcome
/// and claims nothing else.
#[verifier::external_body]
pub(crate) fn parse_date(text: &str, fmt: &str) -> (r: Option<(i64, String)>)
    ensures
        r matches Some(p) ==> parsed_date(text@, fmt@) == Some((p.0, p.1@)),
        r is None ==> parsed_date(text@, fmt@) is None,
{
    let d = chrono::DateTime::parse_from_str(text, fmt).ok()?.with_timezone(&chrono::Utc);
    Some((d.timestamp(), d.format("%Y-%m-%d").to_string()))
}

/// The seconds since the Unix epoch that `chrono` reads from a text with the format `%s`.
pub uninterp spec fn unix_seconds_of(text: Seq<char>) -> Option<i64>;

/// Calls `chrono::NaiveDateTime::parse_from_str` with the format `%s` and takes the
/// timestamp of the result; the contract names the outcome and claims nothing else.
#[verifier::external_body]
pub(crate) fn parse_unix_seconds(text: &str) -> (r: Option<i64>)
    ensures
        r == unix_seconds_of(text@),
{
    Some(chrono::NaiveDateTime::parse_from_str(text, "%s").ok()?.and_utc().timestamp())
}

/// The first second of the year 0 and the last second of the year 9999, in seconds since
/// the Unix epoch: the instants that RFC 2822 can write.
pub const RFC2822_FIRST_SECOND: i64 = -62167219200;
pub const RFC2822_LAST_SECOND: i64 = 253402300799;

/// The RFC 2822 text that `chrono` writes for an instant given in seconds since the Unix
/// epoch, in UTC.
pub uninterp spec fn rfc2822_text(seconds: i64) -> Seq<char>;

/// Calls `chrono::DateTime::<Utc>::from_timestamp`, then `to_rfc2822`; the source shows that
/// the first gives a date for every instant in the range and that the second panics outside
/// the years 0 to 9999, which `requires` rules out. The contract names the text.
#[verifier::external_body]
pub(crate) fn rfc2822_of(seconds: i64) -> (r: String)
    requires
        RFC2822_FIRST_SECOND <= seconds <= RFC2822_LAST_SECOND,
    ensures
        r@ == rfc2822_text(seconds),
{
    chrono::DateTime::<chrono::Utc>::from_timestamp(seconds, 0).unwrap().to_rfc2822()
}

/// What `String::from_utf8_lossy` makes of a run of bytes.
pub uninterp spec fn utf8_lossy(bytes: Seq<u8>) -> Seq<char>;

/// Calls `String::from_utf8_lossy`; its documentation says valid UTF-8 comes back
/// unchanged, and the contract claims that and names the rest.
#[verifier::external_body]
pub(crate) fn lossy_text(bytes: &[u8]) -> (r: String)
    ensures
        r@ == utf8_lossy(bytes@),
        vstd::utf8::valid_utf8(bytes@) ==> r@ == vstd::utf8::decode_utf8(bytes@),
{
    String::from_utf8_lossy(bytes).to_string()
}

/// Calls `std::str::from_utf8`: the text of the bytes where they are valid UTF-8.
#[verifier::external_body]
pub(crate) fn utf8_text(bytes: &[u8]) -> (r: Option<String>)
    ensures
        r is Some <==> vstd::utf8::valid_utf8(bytes@),
        r matches Some(s) ==> s@ == vstd::utf8::decode_utf8(bytes@),
{
    std::str::from_utf8(bytes).ok().map(|s| s.to_string())
}

/// The Rust source of a `phf::Map` that `phf_codegen` builds from keys and value
/// expressions, in the order given.
pub uninterp spec fn phf_map_text(entries: Seq<(Seq<char>, Seq<char>)>) -> Seq<char>;

pub open spec fn entries_view(v: Seq<(String, String)>) -> Seq<(Seq<char>, Seq<char>)> {
    v.map_values(|e: (String, String)| (e.0@, e.1@))
}

/// Whether no key occurs twice.
pub open spec fn distinct_keys(entries: Seq<(Seq<char>, Seq<char>)>) -> bool {
    forall|i: int, j: int| 0 <= i < j < entries.len() ==> entries[i].0 != entries[j].0
}

/// Calls `phf_codegen::Map::entry` for each pair, then `build` and writes the result; the
/// source shows that `build` panics on a repeated key, which `requires` rules out. The
/// contract names the text and claims nothing else.
#[verifier::external_body]
pub(crate) fn phf_map_source(entries: &Vec<(String, String)>) -> (r: String)
    requires
        distinct_keys(entries_view(entries@)),
    ensures
        r@ == phf_map_text(entries_view(entries@)),
{
    let mut map = phf_codegen::Map::new();
    for (key, value) in entries.iter() {
        map.entry(key.clone(), value.as_str());
    }
    map.build().to_string()
}
} // verus!
