//! Word documents: a `.docx` file is a zip archive whose `word/document.xml`
//! part holds the text. `zip` opens the archive, `quick-xml` reads the part
//! as a stream of items, and the paragraph logic here turns the items into
//! blocks, recognising headings by their paragraph style.

use quick_xml::events::BytesStart;
use quick_xml::events::Event::{Empty as EmptyTag, End as EndTag, Eof, Start as StartTag, Text as TextNode};
use quick_xml::Reader;
use std::borrow::Cow;
use crate::docx::XmlItem::{Empty, End, Other, Start, Text};
use vstd::prelude::*;
use crate::chars::{
    char_lowercase, char_to_lowercase, chars_of, is_space, is_space_char, same_chars,
    starts_with_chars, string_of, trim, trim_chars, utf8_to_string,
};
use crate::doc::{Block, BlockModel};
use crate::text::{sanitize_chars, sanitized};

verus! {

/// Why the text part of a `.docx` file could not be read.
#[derive(Debug, Clone, Copy, PartialEq, Eq)]
pub enum DocxError {
    /// The bytes are not a zip archive.
    NotAZip,
    /// The archive has no `word/document.xml`.
    MissingDocument,
    /// `word/document.xml` could not be read as UTF-8 text.
    Unreadable,
}

/// What reading `word/document.xml` out of the zip archive `bytes` gives.
pub uninterp spec fn docx_document_part(bytes: Seq<u8>) -> Result<Seq<char>, DocxError>;

/// `zip::ZipArchive::new`, `by_name("word/document.xml")` and
/// `read_to_string`: the outcome, text or the step that failed, is named
/// [`docx_document_part`] of the bytes; the zip format is not restated.
#[verifier::external_body]
fn docx_document_xml(bytes: &[u8]) -> (r: Result<String, DocxError>)
    ensures
        match r {
            Ok(s) => docx_document_part(bytes@) == Ok::<Seq<char>, DocxError>(s@),
            Err(e) => docx_document_part(bytes@) == Err::<Seq<char>, DocxError>(e),
        },
{
    let cursor = std::io::Cursor::new(bytes);
    let mut archive = zip::ZipArchive::new(cursor).map_err(|_| DocxError::NotAZip)?;
    let mut file = archive.by_name("word/document.xml").map_err(|_| DocxError::MissingDocument)?;
    let mut xml = String::new();
    std::io::Read::read_to_string(&mut file, &mut xml).map_err(|_| DocxError::Unreadable)?;
    Ok(xml)
}

/// One attribute of an XML element, raw.
#[derive(Debug, PartialEq, Eq)]
pub struct XmlAttr(pub Vec<u8>, pub Vec<u8>);

impl DeepView for XmlAttr {
    type V = (Seq<u8>, Seq<u8>);

    open spec fn deep_view(&self) -> (Seq<u8>, Seq<u8>) {
        (self.0@, self.1@)
    }
}

/// An XML element tag: its qualified name and its attributes, in order;
/// `None` stands for an attribute that the reader could not read.
#[derive(Debug, PartialEq, Eq)]
pub struct XmlElement(pub Vec<u8>, pub Vec<Option<XmlAttr>>);

impl DeepView for XmlElement {
    type V = (Seq<u8>, Seq<Option<(Seq<u8>, Seq<u8>)>>);

    open spec fn deep_view(&self) -> (Seq<u8>, Seq<Option<(Seq<u8>, Seq<u8>)>>) {
        (self.0@, self.1.deep_view())
    }
}

/// One XML reader event, as plain values.
#[derive(Debug, PartialEq, Eq)]
pub enum XmlItem {
    /// An opening tag.
    Start(XmlElement),
    /// A self-closing tag.
    Empty(XmlElement),
    /// A closing tag.
    End(Vec<u8>),
    /// Character data, unescaped; `None` when unescaping failed.
    Text(Option<String>),
    /// Anything else (comments, declarations, CDATA, ...).
    Other,
}

/// The mathematical content of an [`XmlItem`].
pub enum XmlItemModel {
    Start(Seq<u8>, Seq<Option<(Seq<u8>, Seq<u8>)>>),
    Empty(Seq<u8>, Seq<Option<(Seq<u8>, Seq<u8>)>>),
    End(Seq<u8>),
    Text(Option<Seq<char>>),
    Other,
}

impl DeepView for XmlItem {
    type V = XmlItemModel;

    open spec fn deep_view(&self) -> XmlItemModel {
        match self {
            XmlItem::Start(e) => XmlItemModel::Start(e.0@, e.1.deep_view()),
            XmlItem::Empty(e) => XmlItemModel::Empty(e.0@, e.1.deep_view()),
            XmlItem::End(n) => XmlItemModel::End(n@),
            XmlItem::Text(t) => XmlItemModel::Text(
                match t {
                    Some(s) => Some(s@),
                    None => None,
                },
            ),
            XmlItem::Other => XmlItemModel::Other,
        }
    }
}

/// The events a `quick_xml::Reader` over `xml` yields
/// before its end or its first error.
pub uninterp spec fn xml_items_of(xml: Seq<char>) -> Seq<XmlItemModel>;

/// `quick_xml::Reader::from_str` (whose default configuration keeps text
/// untrimmed), read with `read_event` until the end or the first error, each
/// event converted to an [`XmlItem`]: text through `BytesText::unescape`, and
/// every attribute that the attribute iterator yields kept in order, an
/// attribute error as `None`. The item list is named [`xml_items_of`] of the
/// text; XML syntax is not restated.
#[verifier::external_body]
pub(crate) fn xml_items(xml: &str) -> (items: Vec<XmlItem>)
    ensures
        items.deep_view() == xml_items_of(xml@),
{
    let elem = |e: BytesStart| XmlElement(e.name().0.to_vec(), e.attributes().map(|a| a.ok().map(|a| XmlAttr(a.key.0.to_vec(), a.value.to_vec()))).collect());
    let mut reader = Reader::from_str(xml);
    let mut items = Vec::new();
    while let Ok(ev) = reader.read_event() {
        items.push(match ev {
            StartTag(e) => Start(elem(e)),
            EmptyTag(e) => Empty(elem(e)),
            EndTag(e) => End(e.name().0.to_vec()),
            TextNode(t) => Text(t.unescape().ok().map(Cow::into_owned)),
            Eof => return items,
            _ => Other,
        });
    }
    items
}

/// The position of the last `:` in `name`, or -1.
pub open spec fn last_colon(name: Seq<u8>) -> int
    decreases name.len(),
{
    if name.len() == 0 {
        -1
    } else if name.last() == 58u8 {
        name.len() - 1
    } else {
        last_colon(name.drop_last())
    }
}

/// The part of a qualified XML name after its last `:` (the whole name when
/// it has none).
pub open spec fn local_part(name: Seq<u8>) -> Seq<u8> {
    name.skip(last_colon(name) + 1)
}

proof fn lemma_last_colon(name: Seq<u8>, i: int)
    requires
        -1 <= i < name.len(),
        i >= 0 ==> name[i] == 58u8,
        forall|k: int| i < k < name.len() ==> name[k] != 58u8,
    ensures
        last_colon(name) == i,
    decreases name.len(),
{
    if name.len() > 0 && i < name.len() - 1 {
        lemma_last_colon(name.drop_last(), i);
    }
}

/// The local part of a qualified XML name: what follows its last `:`.
pub fn local_name(name: &[u8]) -> (r: Vec<u8>)
    ensures
        r@ == local_part(name@),
{
    let mut i: usize = name.len();
    while i > 0 && name[i - 1] != 58u8
        invariant
            i <= name@.len(),
            forall|k: int| i <= k < name@.len() ==> name@[k] != 58u8,
        decreases i,
    {
        i -= 1;
    }
    proof {
        lemma_last_colon(name@, i - 1);
    }
    let mut r: Vec<u8> = Vec::new();
    let mut j: usize = i;
    while j < name.len()
        invariant
            i <= j <= name@.len(),
            r@ == name@.subrange(i as int, j as int),
        decreases name@.len() - j,
    {
        r.push(name[j]);
        j += 1;
    }
    assert(r@ =~= name@.skip(i as int));
    r
}

/// Whether `a` and `b` hold the same bytes.
fn same_bytes(a: &[u8], b: &[u8]) -> (r: bool)
    ensures
        r == (a@ == b@),
{
    if a.len() != b.len() {
        return false;
    }
    let mut i: usize = 0;
    while i < a.len()
        invariant
            a@.len() == b@.len(),
            i <= a@.len(),
            forall|k: int| 0 <= k < i ==> a@[k] == b@[k],
        decreases a@.len() - i,
    {
        if a[i] != b[i] {
            return false;
        }
        i += 1;
    }
    assert(a@ =~= b@);
    true
}

/// The element names the paragraph logic reacts to.
#[derive(Debug, Clone, Copy, PartialEq, Eq)]
pub enum WordTag {
    /// `p`: a paragraph.
    Paragraph,
    /// `t`: a run of text.
    TextRun,
    /// `pStyle`: the style of the enclosing paragraph.
    ParagraphStyle,
    /// `tab`: a tab stop.
    Tab,
    /// `br`: a line break.
    LineBreak,
    Unknown,
}

/// Which element a local name denotes.
pub open spec fn word_tag(local: Seq<u8>) -> WordTag {
    if local == seq![112u8] {
        WordTag::Paragraph
    } else if local == seq![116u8] {
        WordTag::TextRun
    } else if local == seq![112u8, 83u8, 116u8, 121u8, 108u8, 101u8] {
        WordTag::ParagraphStyle
    } else if local == seq![116u8, 97u8, 98u8] {
        WordTag::Tab
    } else if local == seq![98u8, 114u8] {
        WordTag::LineBreak
    } else {
        WordTag::Unknown
    }
}

/// The element that a qualified name denotes, by its local part.
pub fn tag_of_name(name: &[u8]) -> (t: WordTag)
    ensures
        t == word_tag(local_part(name@)),
{
    let local = local_name(name);
    let l = local.as_slice();
    if same_bytes(l, &[112u8]) {
        assert(seq![112u8] =~= [112u8]@);
        WordTag::Paragraph
    } else if same_bytes(l, &[116u8]) {
        assert(seq![116u8] =~= [116u8]@);
        WordTag::TextRun
    } else if same_bytes(l, &[112u8, 83u8, 116u8, 121u8, 108u8, 101u8]) {
        assert(seq![112u8, 83u8, 116u8, 121u8, 108u8, 101u8] =~= [112u8, 83u8, 116u8, 121u8, 108u8, 101u8]@);
        WordTag::ParagraphStyle
    } else if same_bytes(l, &[116u8, 97u8, 98u8]) {
        assert(seq![116u8, 97u8, 98u8] =~= [116u8, 97u8, 98u8]@);
        WordTag::Tab
    } else if same_bytes(l, &[98u8, 114u8]) {
        assert(seq![98u8, 114u8] =~= [98u8, 114u8]@);
        WordTag::LineBreak
    } else {
        proof {
            assert(seq![112u8] =~= [112u8]@);
            assert(seq![116u8] =~= [116u8]@);
            assert(seq![112u8, 83u8, 116u8, 121u8, 108u8, 101u8] =~= [112u8, 83u8, 116u8, 121u8, 108u8, 101u8]@);
            assert(seq![116u8, 97u8, 98u8] =~= [116u8, 97u8, 98u8]@);
            assert(seq![98u8, 114u8] =~= [98u8, 114u8]@);
        }
        WordTag::Unknown
    }
}

} // verus!

verus! {

/// `s` without whitespace, each character replaced by its lowercase form
/// (what `s.chars().filter(|c| !c.is_whitespace()).flat_map(char::to_lowercase)`
/// yields).
pub open spec fn compact_lowercase(s: Seq<char>) -> Seq<char>
    decreases s.len(),
{
    if s.len() == 0 {
        Seq::empty()
    } else {
        let before = compact_lowercase(s.drop_last());
        if is_space(s.last()) {
            before
        } else {
            before + char_lowercase(s.last())
        }
    }
}

pub open spec fn is_digit(c: char) -> bool {
    '0' <= c && c <= '9'
}

/// The number that a string of decimal digits spells.
pub open spec fn decimal_value(d: Seq<char>) -> int
    decreases d.len(),
{
    if d.len() == 0 {
        0
    } else {
        decimal_value(d.drop_last()) * 10 + (d.last() as int - '0' as int)
    }
}

/// What `str::parse::<u8>` accepts: an optional `+`, then one or more
/// decimal digits whose value fits in a `u8`.
/// The digits part of a number: without its leading `+`, if any.
pub open spec fn unsigned_digits(s: Seq<char>) -> Seq<char> {
    if s.len() > 0 && s[0] == '+' {
        s.drop_first()
    } else {
        s
    }
}

pub open spec fn parsed_u8(s: Seq<char>) -> Option<u8> {
    let body = unsigned_digits(s);
    if body.len() > 0 && (forall|k: int| 0 <= k < body.len() ==> is_digit(#[trigger] body[k]))
        && decimal_value(body) <= 255 {
        Some(decimal_value(body) as u8)
    } else {
        None
    }
}

proof fn lemma_decimal_value_grows(d: Seq<char>, i: int)
    requires
        0 <= i <= d.len(),
        forall|k: int| 0 <= k < d.len() ==> is_digit(#[trigger] d[k]),
    ensures
        decimal_value(d.take(i)) <= decimal_value(d),
        decimal_value(d) >= 0,
    decreases d.len(),
{
    if d.len() > 0 {
        let dl = d.drop_last();
        assert forall|k: int| 0 <= k < dl.len() implies is_digit(#[trigger] dl[k]) by {
            assert(dl[k] == d[k]);
        }
        assert(is_digit(d.last()));
        if i < d.len() {
            lemma_decimal_value_grows(dl, i);
            assert(dl.take(i) =~= d.take(i));
        } else {
            lemma_decimal_value_grows(dl, 0);
        }
    }
    if i == d.len() {
        assert(d.take(i) =~= d);
    }
}

/// `str::parse::<u8>` on a slice of characters (see [`parsed_u8`]).
pub fn parse_u8(s: &[char]) -> (r: Option<u8>)
    ensures
        r == parsed_u8(s@),
{
    let start: usize = if s.len() > 0 && s[0] == '+' {
        1
    } else {
        0
    };
    let ghost body = unsigned_digits(s@);
    assert(body =~= s@.skip(start as int));
    if start == s.len() {
        return None;
    }
    let mut val: u32 = 0;
    let mut i: usize = start;
    while i < s.len()
        invariant
            start <= i <= s@.len(),
            body == s@.skip(start as int),
            body == unsigned_digits(s@),
            forall|k: int| 0 <= k < i - start ==> is_digit(#[trigger] body[k]),
            val == decimal_value(body.take(i - start)),
            val <= 255,
        decreases s@.len() - i,
    {
        let c = s[i];
        assert(body[i - start] == c);
        if !('0' <= c && c <= '9') {
            assert(!is_digit(body[i - start]));
            assert(!(forall|k: int| 0 <= k < body.len() ==> is_digit(#[trigger] body[k])));
            return None;
        }
        proof {
            assert(body.take(i - start + 1).drop_last() =~= body.take(i - start));
            assert(body.take(i - start + 1).last() == c);
        }
        val = val * 10 + (c as u32 - '0' as u32);
        assert(val == decimal_value(body.take(i - start + 1)));
        if val > 255 {
            proof {
                if forall|k: int| 0 <= k < body.len() ==> is_digit(#[trigger] body[k]) {
                    lemma_decimal_value_grows(body, i - start + 1);
                    assert(decimal_value(body) > 255);
                }
            }
            return None;
        }
        i += 1;
    }
    assert(body.take(body.len() as int) =~= body);
    Some(val as u8)
}

/// The heading level that a paragraph style name stands for: `Title` is 1,
/// `Subtitle` is 2, `Heading<n>` is `n` clamped to 1..=6; case and
/// whitespace are ignored.
pub open spec fn heading_style_level(style: Seq<char>) -> Option<u8> {
    let n = compact_lowercase(style);
    if n == seq!['t', 'i', 't', 'l', 'e'] {
        Some(1u8)
    } else if n == seq!['s', 'u', 'b', 't', 'i', 't', 'l', 'e'] {
        Some(2u8)
    } else if n.len() >= 7 && n.take(7) == seq!['h', 'e', 'a', 'd', 'i', 'n', 'g'] {
        match parsed_u8(n.skip(7)) {
            Some(v) => Some(
                if v < 1 {
                    1u8
                } else if v > 6 {
                    6u8
                } else {
                    v
                },
            ),
            None => None,
        }
    } else {
        None
    }
}

fn compact_lowercase_chars(s: &[char]) -> (r: Vec<char>)
    ensures
        r@ == compact_lowercase(s@),
{
    let mut r: Vec<char> = Vec::new();
    let mut i: usize = 0;
    while i < s.len()
        invariant
            i <= s@.len(),
            r@ == compact_lowercase(s@.take(i as int)),
        decreases s@.len() - i,
    {
        proof {
            assert(s@.take(i + 1).drop_last() =~= s@.take(i as int));
        }
        let c = s[i];
        if !is_space_char(c) {
            let mut lower = char_to_lowercase(c);
            r.append(&mut lower);
        }
        i += 1;
    }
    assert(s@.take(s@.len() as int) =~= s@);
    r
}

/// The heading level of a paragraph style name (see [`heading_style_level`]).
pub fn parse_heading_style(s: &str) -> (r: Option<u8>)
    ensures
        r == heading_style_level(s@),
{
    let cs = chars_of(s);
    let n = compact_lowercase_chars(cs.as_slice());
    let title = ['t', 'i', 't', 'l', 'e'];
    let subtitle = ['s', 'u', 'b', 't', 'i', 't', 'l', 'e'];
    let heading = ['h', 'e', 'a', 'd', 'i', 'n', 'g'];
    assert(title@ =~= seq!['t', 'i', 't', 'l', 'e']);
    assert(subtitle@ =~= seq!['s', 'u', 'b', 't', 'i', 't', 'l', 'e']);
    assert(heading@ =~= seq!['h', 'e', 'a', 'd', 'i', 'n', 'g']);
    if same_chars(n.as_slice(), title.as_slice()) {
        return Some(1);
    }
    if same_chars(n.as_slice(), subtitle.as_slice()) {
        return Some(2);
    }
    if !starts_with_chars(n.as_slice(), heading.as_slice()) {
        return None;
    }
    let mut digits: Vec<char> = Vec::new();
    let mut i: usize = 7;
    while i < n.len()
        invariant
            7 <= i <= n@.len(),
            digits@ == n@.subrange(7, i as int),
        decreases n@.len() - i,
    {
        digits.push(n[i]);
        i += 1;
    }
    assert(digits@ =~= n@.skip(7));
    match parse_u8(digits.as_slice()) {
        Some(v) => Some(
            if v < 1 {
                1
            } else if v > 6 {
                6
            } else {
                v
            },
        ),
        None => None,
    }
}

/// The heading level named by the first attribute called `val` (by local
/// name) whose value is UTF-8; attributes that could not be read are
/// skipped; `None` when there is no such attribute.
pub open spec fn style_value_level(attrs: Seq<Option<(Seq<u8>, Seq<u8>)>>) -> Option<u8>
    decreases attrs.len(),
{
    if attrs.len() == 0 {
        None
    } else {
        match attrs[0] {
            Some((key, value)) => if local_part(key) == seq![118u8, 97u8, 108u8]
                && vstd::utf8::valid_utf8(value) {
                heading_style_level(vstd::utf8::decode_utf8(value))
            } else {
                style_value_level(attrs.drop_first())
            },
            None => style_value_level(attrs.drop_first()),
        }
    }
}

/// The heading level that a `pStyle` element's attributes give
/// (see [`style_value_level`]).
pub fn read_heading_val(attrs: &[Option<XmlAttr>]) -> (r: Option<u8>)
    ensures
        r == style_value_level(attrs.deep_view()),
{
    let val = [118u8, 97u8, 108u8];
    assert(val@ =~= seq![118u8, 97u8, 108u8]);
    let mut i: usize = 0;
    assert(attrs.deep_view().skip(0) =~= attrs.deep_view());
    while i < attrs.len()
        invariant
            i <= attrs@.len(),
            val@ == seq![118u8, 97u8, 108u8],
            style_value_level(attrs.deep_view()) == style_value_level(
                attrs.deep_view().skip(i as int),
            ),
        decreases attrs@.len() - i,
    {
        let ghost rest = attrs.deep_view().skip(i as int);
        assert(rest[0] == attrs@[i as int].deep_view());
        assert(rest.drop_first() =~= attrs.deep_view().skip(i + 1));
        if let Some(a) = &attrs[i] {
            assert(a.deep_view() == (a.0@, a.1@));
            let key = local_name(a.0.as_slice());
            if same_bytes(key.as_slice(), val.as_slice()) {
                if let Some(v) = utf8_to_string(a.1.as_slice()) {
                    return parse_heading_style(v.as_str());
                }
            }
        }
        i += 1;
    }
    None
}

/// The state of the paragraph reader.
pub struct DocxState {
    pub blocks: Seq<BlockModel>,
    /// Text of the current paragraph.
    pub text: Seq<char>,
    /// Heading level of the current paragraph, from its style.
    pub heading: Option<u8>,
    /// Inside a `t` element.
    pub in_text: bool,
}

/// The paragraph reader before the first item.
pub open spec fn docx_start() -> DocxState {
    DocxState { blocks: Seq::empty(), text: Seq::empty(), heading: None, in_text: false }
}

/// The paragraph reader after a style element: the first style that names
/// a heading level wins.
pub open spec fn with_style(st: DocxState, attrs: Seq<Option<(Seq<u8>, Seq<u8>)>>) -> DocxState {
    DocxState {
        heading: if st.heading is Some {
            st.heading
        } else {
            style_value_level(attrs)
        },
        ..st
    }
}

/// The paragraph reader after one more item.
pub open spec fn docx_step(st: DocxState, item: XmlItemModel) -> DocxState {
    match item {
        XmlItemModel::Start(name, attrs) => match word_tag(local_part(name)) {
            WordTag::Paragraph => DocxState { text: Seq::empty(), heading: None, ..st },
            WordTag::TextRun => DocxState { in_text: true, ..st },
            WordTag::ParagraphStyle => with_style(st, attrs),
            _ => st,
        },
        XmlItemModel::Empty(name, attrs) => match word_tag(local_part(name)) {
            WordTag::ParagraphStyle => with_style(st, attrs),
            WordTag::Tab => DocxState { text: st.text.push(' '), ..st },
            WordTag::LineBreak => DocxState { text: st.text.push(' '), ..st },
            _ => st,
        },
        XmlItemModel::End(name) => match word_tag(local_part(name)) {
            WordTag::Paragraph => {
                let cleaned = sanitized(trim(st.text));
                DocxState {
                    blocks: if cleaned.len() == 0 {
                        st.blocks
                    } else {
                        match st.heading {
                            Some(level) => st.blocks.push(BlockModel::Heading(level, cleaned)),
                            None => st.blocks.push(BlockModel::Text(cleaned)),
                        }
                    },
                    text: Seq::empty(),
                    heading: None,
                    ..st
                }
            },
            WordTag::TextRun => DocxState { in_text: false, ..st },
            _ => st,
        },
        XmlItemModel::Text(Some(t)) => if st.in_text {
            DocxState { text: st.text + t, ..st }
        } else {
            st
        },
        _ => st,
    }
}

/// The paragraph reader after all of `items`.
pub open spec fn docx_run(items: Seq<XmlItemModel>) -> DocxState
    decreases items.len(),
{
    if items.len() == 0 {
        docx_start()
    } else {
        docx_step(docx_run(items.drop_last()), items.last())
    }
}

/// The blocks of the paragraphs of a `word/document.xml` part.
pub open spec fn docx_xml_blocks(xml: Seq<char>) -> Seq<BlockModel> {
    docx_run(xml_items_of(xml)).blocks
}

/// The blocks that a stream of XML items describes: one per paragraph with
/// text, a heading when its style names a level.
pub fn blocks_from_xml_items(items: &[XmlItem]) -> (r: Vec<Block>)
    ensures
        r.deep_view() == docx_run(items.deep_view()).blocks,
{
    let mut blocks: Vec<Block> = Vec::new();
    let mut text: Vec<char> = Vec::new();
    let mut heading: Option<u8> = None;
    let mut in_text = false;
    let mut i: usize = 0;
    assert(items.deep_view().take(0) =~= Seq::<XmlItemModel>::empty());
    assert(blocks.deep_view() =~= Seq::<BlockModel>::empty());
    while i < items.len()
        invariant
            i <= items@.len(),
            docx_run(items.deep_view().take(i as int)) == (DocxState {
                blocks: blocks.deep_view(),
                text: text@,
                heading,
                in_text,
            }),
        decreases items@.len() - i,
    {
        proof {
            assert(items.deep_view().take(i + 1).drop_last() =~= items.deep_view().take(i as int));
        }
        match &items[i] {
            XmlItem::Start(XmlElement(name, attrs)) => {
                match tag_of_name(name.as_slice()) {
                    WordTag::Paragraph => {
                        text.clear();
                        heading = None;
                    },
                    WordTag::TextRun => {
                        in_text = true;
                    },
                    WordTag::ParagraphStyle => {
                        if heading.is_none() {
                            heading = read_heading_val(attrs.as_slice());
                        }
                    },
                    _ => {},
                }
            },
            XmlItem::Empty(XmlElement(name, attrs)) => {
                match tag_of_name(name.as_slice()) {
                    WordTag::ParagraphStyle => {
                        if heading.is_none() {
                            heading = read_heading_val(attrs.as_slice());
                        }
                    },
                    WordTag::Tab => {
                        text.push(' ');
                    },
                    WordTag::LineBreak => {
                        text.push(' ');
                    },
                    _ => {},
                }
            },
            XmlItem::End(name) => {
                match tag_of_name(name.as_slice()) {
                    WordTag::Paragraph => {
                        let trimmed = trim_chars(text.as_slice());
                        let cleaned = sanitize_chars(trimmed.as_slice());
                        if cleaned.len() > 0 {
                            let ghost before = blocks.deep_view();
                            let s = string_of(cleaned.as_slice());
                            match heading {
                                Some(level) => {
                                    blocks.push(Block::Heading(level, s));
                                    assert(blocks.deep_view() =~= before.push(
                                        BlockModel::Heading(level, cleaned@),
                                    ));
                                },
                                None => {
                                    blocks.push(Block::Text(s));
                                    assert(blocks.deep_view() =~= before.push(
                                        BlockModel::Text(cleaned@),
                                    ));
                                },
                            }
                        }
                        text.clear();
                        heading = None;
                    },
                    WordTag::TextRun => {
                        in_text = false;
                    },
                    _ => {},
                }
            },
            XmlItem::Text(Some(t)) => {
                if in_text {
                    let mut cs = chars_of(t.as_str());
                    text.append(&mut cs);
                }
            },
            _ => {},
        }
        i += 1;
    }
    assert(items.deep_view().take(items@.len() as int) =~= items.deep_view());
    blocks
}

/// Reads the paragraphs of a `word/document.xml` part into blocks.
pub fn parse_docx_xml(xml: &str) -> (r: Vec<Block>)
    ensures
        r.deep_view() == docx_xml_blocks(xml@),
{
    let items = xml_items(xml);
    blocks_from_xml_items(items.as_slice())
}

/// Parses a .docx (ZIP of OOXML) byte slice into blocks. Headings are
/// recognized via the paragraph's `w:pStyle` value (e.g. "Heading1").
pub fn parse_docx(bytes: &[u8]) -> (r: Result<Vec<Block>, DocxError>)
    ensures
        match docx_document_part(bytes@) {
            Ok(xml) => r matches Ok(b) && b.deep_view() == docx_xml_blocks(xml),
            Err(e) => r == Err::<Vec<Block>, DocxError>(e),
        },
{
    match docx_document_xml(bytes) {
        Ok(xml) => Ok(parse_docx_xml(xml.as_str())),
        Err(e) => Err(e),
    }
}

} // verus!
