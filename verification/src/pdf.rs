//! PDF documents: the caller hands in the text of each page (the front end
//! gets it from `pdf-extract`); each page's text is read like a plain-text document, and sections come from the document's
//! outline or, failing that, from heading-like lines at the top of pages.

use vstd::prelude::*;
use crate::chars::{chars_of, lowercase, starts_with_chars, string_of, to_lowercase, trim, trim_chars};
use crate::doc::{blocks_from_plain_text, plain_text_blocks, Block, BlockModel, SectionModel, SectionStart};
use crate::reader::{split_words, words_of};
use crate::text::{sanitize_chars, sanitized};

verus! {

// ---------------------------------------------------------------------------
// Strings in PDF objects

/// A code unit that starts a surrogate pair.
pub open spec fn is_high_surrogate(u: u16) -> bool {
    0xD800 <= u && u <= 0xDBFF
}

/// A code unit that ends a surrogate pair.
pub open spec fn is_low_surrogate(u: u16) -> bool {
    0xDC00 <= u && u <= 0xDFFF
}

/// UTF-16 decoding in which every unpaired surrogate becomes U+FFFD (what
/// `char::decode_utf16` with `unwrap_or(REPLACEMENT_CHARACTER)` yields).
pub open spec fn utf16_lossy(u: Seq<u16>) -> Seq<char>
    decreases u.len(),
{
    if u.len() == 0 {
        Seq::empty()
    } else if is_high_surrogate(u[0]) && u.len() >= 2 && is_low_surrogate(u[1]) {
        seq![
            (0x10000 + (u[0] - 0xD800) * 0x400 + (u[1] - 0xDC00)) as char,
        ] + utf16_lossy(u.skip(2))
    } else if 0xD800 <= u[0] && u[0] <= 0xDFFF {
        seq!['\u{FFFD}'] + utf16_lossy(u.drop_first())
    } else {
        seq![u[0] as char] + utf16_lossy(u.drop_first())
    }
}

/// `char::from_u32`: the character whose scalar value is `u`, or `None` when
/// `u` is a surrogate code point or lies above U+10FFFF.
#[verifier::external_body]
fn char_from_u32(u: u32) -> (r: Option<char>)
    ensures
        match r {
            Some(c) => c == u as char,
            None => (0xD800 <= u && u <= 0xDFFF) || 0x10FFFF < u,
        },
{
    char::from_u32(u)
}

/// UTF-16 decoding with every unpaired surrogate replaced by U+FFFD (see
/// [`utf16_lossy`]).
fn decode_utf16_lossy(units: &[u16]) -> (r: String)
    ensures
        r@ == utf16_lossy(units@),
{
    let mut out: Vec<char> = Vec::new();
    let mut i: usize = 0;
    proof {
        assert(units@.skip(0) =~= units@);
        assert(out@ + utf16_lossy(units@) =~= utf16_lossy(units@));
    }
    while i < units.len()
        invariant
            i <= units@.len(),
            out@ + utf16_lossy(units@.skip(i as int)) == utf16_lossy(units@),
        decreases units@.len() - i,
    {
        let ghost rest = units@.skip(i as int);
        let u = units[i];
        assert(rest[0] == u);
        if 0xD800 <= u && u <= 0xDBFF && i + 1 < units.len() && 0xDC00 <= units[i + 1]
            && units[i + 1] <= 0xDFFF {
            let lo = units[i + 1];
            assert(rest[1] == lo);
            let v: u32 = 0x10000 + ((u - 0xD800) as u32) * 0x400 + ((lo - 0xDC00) as u32);
            assert(rest.skip(2) =~= units@.skip(i + 2));
            let c = match char_from_u32(v) {
                Some(c) => c,
                None => '\u{FFFD}',
            };
            assert(c == (0x10000 + (u - 0xD800) * 0x400 + (lo - 0xDC00)) as char);
            proof {
                assert(utf16_lossy(rest) == seq![c] + utf16_lossy(units@.skip(i + 2)));
                assert(out@.push(c) + utf16_lossy(units@.skip(i + 2)) =~= out@ + (seq![c]
                    + utf16_lossy(units@.skip(i + 2))));
            }
            out.push(c);
            i += 2;
        } else {
            let c = if 0xD800 <= u && u <= 0xDFFF {
                '\u{FFFD}'
            } else {
                match char_from_u32(u as u32) {
                    Some(c) => c,
                    None => '\u{FFFD}',
                }
            };
            assert(rest.drop_first() =~= units@.skip(i + 1));
            proof {
                assert(utf16_lossy(rest) == seq![c] + utf16_lossy(units@.skip(i + 1)));
                assert(out@.push(c) + utf16_lossy(units@.skip(i + 1)) =~= out@ + (seq![c]
                    + utf16_lossy(units@.skip(i + 1))));
            }
            out.push(c);
            i += 1;
        }
    }
    proof {
        assert(units@.skip(i as int) =~= Seq::<u16>::empty());
        assert(out@ + Seq::<char>::empty() =~= out@);
    }
    string_of(out.as_slice())
}

/// What `String::from_utf8_lossy` makes of bytes: their UTF-8 decoding, with
/// each invalid sequence replaced by U+FFFD.
pub uninterp spec fn utf8_lossy(bytes: Seq<u8>) -> Seq<char>;

/// `String::from_utf8_lossy`: named [`utf8_lossy`] of the bytes; on valid
/// UTF-8 it is the plain decoding, as the documentation says.
#[verifier::external_body]
fn decode_utf8_lossy(bytes: &[u8]) -> (r: String)
    ensures
        r@ == utf8_lossy(bytes@),
        vstd::utf8::valid_utf8(bytes@) ==> r@ == vstd::utf8::decode_utf8(bytes@),
{
    String::from_utf8_lossy(bytes).into_owned()
}

/// Big-endian 16-bit units of `bytes`; a final odd byte is ignored.
pub open spec fn be_units(bytes: Seq<u8>) -> Seq<u16> {
    Seq::new(bytes.len() / 2, |i: int| (bytes[2 * i] as int * 256 + bytes[2 * i + 1] as int) as u16)
}

/// Text from big-endian UTF-16 bytes, trimmed.
pub open spec fn utf16_be_text(bytes: Seq<u8>) -> Seq<char> {
    trim(utf16_lossy(be_units(bytes)))
}

/// Decodes big-endian UTF-16 (a final odd byte is ignored) and trims the
/// result.
pub fn decode_utf16_be(bytes: &[u8]) -> (r: String)
    ensures
        r@ == utf16_be_text(bytes@),
{
    let n = bytes.len() / 2;
    let mut units: Vec<u16> = Vec::new();
    let mut i: usize = 0;
    while i < n
        invariant
            n == bytes@.len() / 2,
            bytes@.len() == bytes.len(),
            i <= n,
            units@ =~= be_units(bytes@).take(i as int),
        decreases n - i,
    {
        assert(2 * i + 1 < bytes@.len());
        let u = (bytes[2 * i] as u16) * 256 + (bytes[2 * i + 1] as u16);
        units.push(u);
        i += 1;
    }
    assert(be_units(bytes@).take(n as int) =~= be_units(bytes@));
    let s = decode_utf16_lossy(units.as_slice());
    let cs = chars_of(s.as_str());
    let t = trim_chars(cs.as_slice());
    string_of(t.as_slice())
}

/// Every byte at an even position is zero.
pub open spec fn even_bytes_zero(bytes: Seq<u8>) -> bool {
    forall|k: int| 0 <= k < bytes.len() && k % 2 == 0 ==> bytes[k] == 0
}

/// The text of a PDF string object: UTF-16 when it starts with the byte
/// order mark FE FF or when it has an even length with a zero at every even
/// position, otherwise UTF-8 (invalid sequences replaced) without NUL
/// characters; trimmed either way.
pub open spec fn pdf_string_text(bytes: Seq<u8>) -> Seq<char> {
    if bytes.len() >= 2 && bytes[0] == 0xFE && bytes[1] == 0xFF {
        utf16_be_text(bytes.skip(2))
    } else if bytes.len() >= 2 && bytes.len() % 2 == 0 && even_bytes_zero(bytes) {
        utf16_be_text(bytes)
    } else {
        trim(utf8_lossy(bytes).filter(|c: char| c != '\0'))
    }
}

/// Decodes the bytes of a PDF string object (see [`pdf_string_text`]).
pub fn decode_pdf_string(bytes: &[u8]) -> (r: String)
    ensures
        r@ == pdf_string_text(bytes@),
{
    if bytes.len() >= 2 && bytes[0] == 0xFE && bytes[1] == 0xFF {
        let mut rest: Vec<u8> = Vec::new();
        let mut i: usize = 2;
        while i < bytes.len()
            invariant
                2 <= i <= bytes@.len(),
                rest@ == bytes@.subrange(2, i as int),
            decreases bytes@.len() - i,
        {
            rest.push(bytes[i]);
            i += 1;
        }
        assert(rest@ =~= bytes@.skip(2));
        return decode_utf16_be(rest.as_slice());
    }
    if bytes.len() >= 2 && bytes.len() % 2 == 0 {
        let mut k: usize = 0;
        let mut all_zero = true;
        while k < bytes.len()
            invariant
                k <= bytes@.len(),
                bytes@.len() % 2 == 0,
                k % 2 == 0,
                all_zero == (forall|j: int| 0 <= j < k && j % 2 == 0 ==> bytes@[j] == 0),
            decreases bytes@.len() - k,
        {
            if bytes[k] != 0 {
                all_zero = false;
            }
            k += 2;
        }
        if all_zero {
            return decode_utf16_be(bytes);
        }
    }
    let s = decode_utf8_lossy(bytes);
    let cs = chars_of(s.as_str());
    let mut kept: Vec<char> = Vec::new();
    let mut i: usize = 0;
    while i < cs.len()
        invariant
            i <= cs@.len(),
            kept@ == cs@.take(i as int).filter(|c: char| c != '\0'),
        decreases cs@.len() - i,
    {
        proof {
            assert(cs@.take(i + 1).drop_last() =~= cs@.take(i as int));
            reveal_with_fuel(Seq::filter, 1);
        }
        if cs[i] != '\0' {
            kept.push(cs[i]);
        }
        i += 1;
    }
    assert(cs@.take(cs@.len() as int) =~= cs@);
    let t = trim_chars(kept.as_slice());
    string_of(t.as_slice())
}

} // verus!

verus! {

// ---------------------------------------------------------------------------
// Pages and sections

/// The blocks of all pages, in order.
pub open spec fn pages_blocks(pages: Seq<Seq<char>>) -> Seq<BlockModel>
    decreases pages.len(),
{
    if pages.len() == 0 {
        Seq::empty()
    } else {
        pages_blocks(pages.drop_last()) + plain_text_blocks(pages.last())
    }
}

/// The texts of a list of strings.
pub open spec fn texts(v: Seq<String>) -> Seq<Seq<char>> {
    v.map_values(|s: String| s@)
}

fn append_blocks(blocks: &mut Vec<Block>, more: Vec<Block>)
    ensures
        final(blocks).deep_view() == old(blocks).deep_view() + more.deep_view(),
{
    let ghost before = blocks.deep_view();
    let ghost added = more.deep_view();
    let mut more = more;
    blocks.append(&mut more);
    assert(blocks.deep_view() =~= before + added);
}

/// The blocks of every page read as plain text, and where each page's blocks
/// begin.
pub fn blocks_from_pdf_pages(pages: &[String]) -> (r: (Vec<Block>, Vec<usize>))
    ensures
        r.0.deep_view() == pages_blocks(texts(pages@)),
        r.1@.len() == pages@.len(),
        forall|i: int|
            0 <= i < pages@.len() ==> r.1@[i] == pages_blocks(texts(pages@).take(i)).len(),
{
    let mut blocks: Vec<Block> = Vec::new();
    let mut starts: Vec<usize> = Vec::new();
    let mut i: usize = 0;
    assert(texts(pages@).take(0) =~= Seq::<Seq<char>>::empty());
    assert(blocks.deep_view() =~= Seq::<BlockModel>::empty());
    while i < pages.len()
        invariant
            i <= pages@.len(),
            blocks.deep_view() == pages_blocks(texts(pages@).take(i as int)),
            starts@.len() == i,
            forall|k: int|
                0 <= k < i ==> starts@[k] == pages_blocks(texts(pages@).take(k)).len(),
        decreases pages@.len() - i,
    {
        proof {
            let t = texts(pages@);
            assert(t.take(i + 1).drop_last() =~= t.take(i as int));
            assert(t.take(i + 1).last() == pages@[i as int]@);
        }
        starts.push(blocks.len());
        let page_blocks = blocks_from_plain_text(pages[i].as_str());
        append_blocks(&mut blocks, page_blocks);
        i += 1;
    }
    assert(texts(pages@).take(pages@.len() as int) =~= texts(pages@));
    (blocks, starts)
}

/// The block where page `page_number` (counted from 1) begins, kept within
/// the document; pages without a known start go to the first block.
pub open spec fn page_block(page_number: u32, starts: Seq<usize>, total: usize) -> usize {
    if total == 0 {
        0
    } else {
        let p = if page_number == 0 {
            0
        } else {
            page_number - 1
        };
        let start = if p < starts.len() {
            starts[p as int]
        } else {
            0
        };
        if start <= total - 1 {
            start
        } else {
            (total - 1) as usize
        }
    }
}

/// The block index for a page number (see [`page_block`]).
pub fn page_to_block_index(page_number: u32, page_block_starts: &[usize], total_blocks: usize) -> (r:
    usize)
    ensures
        r == page_block(page_number, page_block_starts@, total_blocks),
        total_blocks > 0 ==> r < total_blocks,
{
    if total_blocks == 0 {
        return 0;
    }
    let p = page_number.saturating_sub(1) as usize;
    let start = if p < page_block_starts.len() {
        page_block_starts[p]
    } else {
        0
    };
    if start <= total_blocks - 1 {
        start
    } else {
        total_blocks - 1
    }
}

/// The lines of `s` as split at `\n` (the final piece included).
pub open spec fn line_scan(s: Seq<char>) -> (Seq<Seq<char>>, Seq<char>)
    decreases s.len(),
{
    if s.len() == 0 {
        (Seq::empty(), Seq::empty())
    } else {
        let (done, cur) = line_scan(s.drop_last());
        if s.last() == '\n' {
            (done.push(cur), Seq::empty())
        } else {
            (done, cur.push(s.last()))
        }
    }
}

pub open spec fn line_pieces(s: Seq<char>) -> Seq<Seq<char>> {
    let (done, cur) = line_scan(s);
    done.push(cur)
}

/// The trimmed lines that are not blank, in order.
pub open spec fn nonblank(lines: Seq<Seq<char>>) -> Seq<Seq<char>>
    decreases lines.len(),
{
    if lines.len() == 0 {
        Seq::empty()
    } else {
        let before = nonblank(lines.drop_last());
        let t = trim(lines.last());
        if t.len() > 0 {
            before.push(t)
        } else {
            before
        }
    }
}

/// The trimmed, non-blank lines of a page (`str::lines` then `str::trim`,
/// blank ones dropped; carriage returns go with the trim).
pub open spec fn page_lines(page: Seq<char>) -> Seq<Seq<char>> {
    nonblank(line_pieces(page))
}

/// The position of the first `c` in `s`, or -1.
pub open spec fn first_index_of(s: Seq<char>, c: char) -> int
    decreases s.len(),
{
    if s.len() == 0 {
        -1
    } else {
        let p = first_index_of(s.drop_last(), c);
        if p >= 0 {
            p
        } else if s.last() == c {
            s.len() - 1
        } else {
            -1
        }
    }
}

pub open spec fn is_roman_numeral_char(c: char) -> bool {
    c == 'I' || c == 'V' || c == 'X' || c == 'L' || c == 'C' || c == 'D' || c == 'M'
}

pub open spec fn all_ascii_digits(s: Seq<char>) -> bool {
    forall|k: int| 0 <= k < s.len() ==> '0' <= #[trigger] s[k] && s[k] <= '9'
}

pub open spec fn all_roman(s: Seq<char>) -> bool {
    forall|k: int| 0 <= k < s.len() ==> is_roman_numeral_char(#[trigger] s[k])
}

/// Whether a line reads like a section heading: at most ten words, and either
/// it starts (case-insensitively) with "chapter " or "part ", or it has a
/// number before its first `.` (Arabic digits or Roman numerals, possibly
/// none) and text starting with an ASCII capital after it.
pub open spec fn heading_like(line: Seq<char>) -> bool {
    let wc = words_of(line).len();
    let lower = lowercase(line);
    if wc == 0 || wc > 10 {
        false
    } else if (lower.len() >= 8 && lower.take(8) == seq!['c', 'h', 'a', 'p', 't', 'e', 'r', ' '])
        || (lower.len() >= 5 && lower.take(5) == seq!['p', 'a', 'r', 't', ' ']) {
        true
    } else {
        let d = first_index_of(line, '.');
        if d < 0 {
            false
        } else {
            let prefix = line.take(d);
            let rest = trim(line.skip(d + 1));
            (all_ascii_digits(prefix) || all_roman(prefix)) && rest.len() > 0 && 'A' <= rest[0]
                && rest[0] <= 'Z'
        }
    }
}

/// The first heading-like line of `ls`, if any.
pub open spec fn first_heading(ls: Seq<Seq<char>>) -> Option<Seq<char>>
    decreases ls.len(),
{
    if ls.len() == 0 {
        None
    } else {
        match first_heading(ls.drop_last()) {
            Some(t) => Some(t),
            None => if heading_like(ls.last()) {
                Some(ls.last())
            } else {
                None
            },
        }
    }
}

/// The section title of a page: the first heading-like line among its first
/// eight non-blank lines, cleaned.
pub open spec fn inferred_title(page: Seq<char>) -> Option<Seq<char>> {
    let ls = page_lines(page);
    let top = if ls.len() <= 8 {
        ls
    } else {
        ls.take(8)
    };
    match first_heading(top) {
        Some(t) => Some(sanitized(t)),
        None => None,
    }
}

pub(crate) fn split_lines(s: &[char]) -> (r: Vec<Vec<char>>)
    ensures
        r.deep_view() == line_pieces(s@),
{
    let mut done: Vec<Vec<char>> = Vec::new();
    let mut cur: Vec<char> = Vec::new();
    let mut i: usize = 0;
    assert(done.deep_view() =~= Seq::<Seq<char>>::empty());
    while i < s.len()
        invariant
            i <= s@.len(),
            line_scan(s@.take(i as int)) == (done.deep_view(), cur@),
        decreases s@.len() - i,
    {
        proof {
            assert(s@.take(i + 1).drop_last() =~= s@.take(i as int));
        }
        let c = s[i];
        if c == '\n' {
            let ghost before = done.deep_view();
            let ghost line = cur@;
            assert(cur.deep_view() =~= cur@);
            done.push(cur);
            assert(done.deep_view() =~= before.push(line));
            cur = Vec::new();
        } else {
            cur.push(c);
        }
        i += 1;
    }
    assert(s@.take(s@.len() as int) =~= s@);
    let ghost before = done.deep_view();
    let ghost line = cur@;
    assert(cur.deep_view() =~= cur@);
    done.push(cur);
    assert(done.deep_view() =~= before.push(line));
    done
}

pub(crate) fn nonblank_lines(lines: &[Vec<char>]) -> (r: Vec<Vec<char>>)
    ensures
        r.deep_view() == nonblank(lines.deep_view()),
{
    let mut r: Vec<Vec<char>> = Vec::new();
    let mut i: usize = 0;
    assert(r.deep_view() =~= Seq::<Seq<char>>::empty());
    assert(lines.deep_view().take(0) =~= Seq::<Seq<char>>::empty());
    while i < lines.len()
        invariant
            i <= lines@.len(),
            r.deep_view() == nonblank(lines.deep_view().take(i as int)),
        decreases lines@.len() - i,
    {
        proof {
            assert(lines.deep_view().take(i + 1).drop_last() =~= lines.deep_view().take(i as int));
            assert(lines@[i as int].deep_view() =~= lines@[i as int]@);
        }
        let t = trim_chars(lines[i].as_slice());
        if t.len() > 0 {
            let ghost before = r.deep_view();
            let ghost tv = t@;
            assert(t.deep_view() =~= t@);
            r.push(t);
            assert(r.deep_view() =~= before.push(tv));
        }
        i += 1;
    }
    assert(lines.deep_view().take(lines@.len() as int) =~= lines.deep_view());
    r
}

/// Whether a (trimmed) line looks like a section heading
/// (see [`heading_like`]).
pub fn looks_like_pdf_section_heading(line: &[char]) -> (r: bool)
    ensures
        r == heading_like(line@),
{
    let ws = split_words(line);
    let wc = ws.len();
    assert(ws.deep_view().len() == ws@.len());
    if wc == 0 || wc > 10 {
        return false;
    }
    let s = string_of(line);
    let lower_s = to_lowercase(s.as_str());
    let lower = chars_of(lower_s.as_str());
    let chapter = ['c', 'h', 'a', 'p', 't', 'e', 'r', ' '];
    let part = ['p', 'a', 'r', 't', ' '];
    assert(chapter@ =~= seq!['c', 'h', 'a', 'p', 't', 'e', 'r', ' ']);
    assert(part@ =~= seq!['p', 'a', 'r', 't', ' ']);
    if starts_with_chars(lower.as_slice(), chapter.as_slice()) || starts_with_chars(
        lower.as_slice(),
        part.as_slice(),
    ) {
        return true;
    }
    let mut d: usize = 0;
    while d < line.len() && line[d] != '.'
        invariant
            d <= line@.len(),
            forall|k: int| 0 <= k < d ==> line@[k] != '.',
        decreases line@.len() - d,
    {
        d += 1;
    }
    proof {
        lemma_first_index_of(line@, '.', d as int);
    }
    if d == line.len() {
        return false;
    }
    let mut digits = true;
    let mut roman = true;
    let mut k: usize = 0;
    while k < d
        invariant
            d < line@.len(),
            k <= d,
            digits == (forall|j: int| 0 <= j < k ==> '0' <= #[trigger] line@[j] && line@[j] <= '9'),
            roman == (forall|j: int| 0 <= j < k ==> is_roman_numeral_char(#[trigger] line@[j])),
        decreases d - k,
    {
        let c = line[k];
        if !('0' <= c && c <= '9') {
            digits = false;
        }
        if !(c == 'I' || c == 'V' || c == 'X' || c == 'L' || c == 'C' || c == 'D' || c == 'M') {
            roman = false;
        }
        k += 1;
    }
    let ghost prefix = line@.take(d as int);
    proof {
        if digits {
            assert forall|j: int| 0 <= j < prefix.len() implies '0' <= #[trigger] prefix[j]
                && prefix[j] <= '9' by {
                assert(prefix[j] == line@[j]);
            }
        } else {
            let j = choose|j: int| 0 <= j < d && !('0' <= #[trigger] line@[j] && line@[j] <= '9');
            assert(prefix[j] == line@[j]);
        }
        if roman {
            assert forall|j: int| 0 <= j < prefix.len() implies is_roman_numeral_char(
                #[trigger] prefix[j],
            ) by {
                assert(prefix[j] == line@[j]);
            }
        } else {
            let j = choose|j: int| 0 <= j < d && !is_roman_numeral_char(#[trigger] line@[j]);
            assert(prefix[j] == line@[j]);
        }
    }
    assert(digits == all_ascii_digits(prefix));
    assert(roman == all_roman(prefix));
    let mut after: Vec<char> = Vec::new();
    let mut j: usize = d + 1;
    while j < line.len()
        invariant
            d < line@.len(),
            d + 1 <= j <= line@.len(),
            after@ == line@.subrange(d + 1, j as int),
        decreases line@.len() - j,
    {
        after.push(line[j]);
        j += 1;
    }
    assert(after@ =~= line@.skip(d + 1));
    let rest = trim_chars(after.as_slice());
    (digits || roman) && rest.len() > 0 && 'A' <= rest[0] && rest[0] <= 'Z'
}

/// A numbered line is a heading, however many digits its number has: a line
/// of one to ten words whose text before its first `.` is a run of ASCII
/// digits, and whose text after that `.`, trimmed, starts with an ASCII
/// capital, reads as a section heading.
pub proof fn law_numbered_lines_are_headings(line: Seq<char>, d: int)
    requires
        1 <= words_of(line).len() <= 10,
        0 <= d < line.len(),
        line[d] == '.',
        forall|k: int| 0 <= k < d ==> line[k] != '.',
        forall|k: int| 0 <= k < d ==> '0' <= #[trigger] line[k] && line[k] <= '9',
        trim(line.skip(d + 1)).len() > 0,
        'A' <= trim(line.skip(d + 1))[0] && trim(line.skip(d + 1))[0] <= 'Z',
    ensures
        heading_like(line),
{
    lemma_first_index_of(line, '.', d);
    let prefix = line.take(d);
    assert forall|k: int| 0 <= k < prefix.len() implies '0' <= #[trigger] prefix[k] && prefix[k]
        <= '9' by {
        assert(prefix[k] == line[k]);
    }
    assert(all_ascii_digits(prefix));
}

proof fn lemma_first_index_of(s: Seq<char>, c: char, d: int)
    requires
        0 <= d <= s.len(),
        forall|k: int| 0 <= k < d ==> s[k] != c,
        d < s.len() ==> s[d] == c,
    ensures
        first_index_of(s, c) == if d < s.len() {
            d
        } else {
            -1
        },
    decreases s.len(),
{
    if s.len() > 0 {
        if d < s.len() - 1 {
            lemma_first_index_of(s.drop_last(), c, d);
        } else {
            lemma_first_index_of(s.drop_last(), c, s.len() - 1);
        }
    }
}

/// The section title of a page (see [`inferred_title`]).
pub fn infer_pdf_section_title(page: &str) -> (r: Option<String>)
    ensures
        match inferred_title(page@) {
            Some(t) => r matches Some(s) && s@ == t,
            None => r is None,
        },
{
    let cs = chars_of(page);
    let pieces = split_lines(cs.as_slice());
    let ls = nonblank_lines(pieces.as_slice());
    let ghost all = ls.deep_view();
    let limit = if ls.len() <= 8 {
        ls.len()
    } else {
        8
    };
    let ghost top = if all.len() <= 8 {
        all
    } else {
        all.take(8)
    };
    assert(top =~= all.take(limit as int));
    let mut m: usize = 0;
    assert(all.take(0) =~= Seq::<Seq<char>>::empty());
    while m < limit
        invariant
            limit <= ls@.len(),
            all == ls.deep_view(),
            all == page_lines(page@),
            limit == (if all.len() <= 8 {
                all.len()
            } else {
                8
            }),
            m <= limit,
            first_heading(all.take(m as int)) is None,
        decreases limit - m,
    {
        proof {
            assert(all.take(m + 1).drop_last() =~= all.take(m as int));
            assert(all.take(m + 1).last() == all[m as int]);
            assert(ls@[m as int].deep_view() =~= ls@[m as int]@);
        }
        if looks_like_pdf_section_heading(ls[m].as_slice()) {
            let cleaned = sanitize_chars(ls[m].as_slice());
            proof {
                assert(first_heading(all.take(m + 1)) == Some(all[m as int]));
                assert(all.take(limit as int) =~= (if all.len() <= 8 {
                    all
                } else {
                    all.take(8)
                }));
                if m + 1 < limit {
                    assert(all.take(limit as int).take(m + 1) =~= all.take(m + 1));
                    lemma_first_heading_prefix(all.take(limit as int), m + 1);
                } else {
                    assert(all.take(m + 1) =~= all.take(limit as int));
                }
            }
            return Some(string_of(cleaned.as_slice()));
        }
        m += 1;
    }
    None
}

/// Once a heading is found in a prefix, a longer list has the same first
/// heading.
proof fn lemma_first_heading_prefix(ls: Seq<Seq<char>>, m: int)
    requires
        0 <= m <= ls.len(),
        first_heading(ls.take(m)) is Some,
    ensures
        first_heading(ls) == first_heading(ls.take(m)),
    decreases ls.len() - m,
{
    if m < ls.len() {
        assert(ls.drop_last().take(m) =~= ls.take(m));
        lemma_first_heading_prefix(ls.drop_last(), m);
    } else {
        assert(ls.take(m) =~= ls);
    }
}

/// One level-1 section per page with an inferred title, at the block where
/// that page begins.
pub open spec fn inferred_sections(
    pages: Seq<Seq<char>>,
    starts: Seq<usize>,
    total: usize,
) -> Seq<SectionModel>
    decreases pages.len(),
{
    if pages.len() == 0 {
        Seq::empty()
    } else {
        let before = inferred_sections(pages.drop_last(), starts, total);
        match inferred_title(pages.last()) {
            Some(title) => before.push(
                SectionModel {
                    title,
                    level: 1,
                    block_index: page_block(pages.len() as u32, starts, total) as int,
                },
            ),
            None => before,
        }
    }
}

/// Sections guessed from the text of each page.
pub fn infer_pdf_sections(pages: &[String], page_block_starts: &[usize], total_blocks: usize) -> (r:
    Vec<SectionStart>)
    ensures
        r.deep_view() == inferred_sections(texts(pages@), page_block_starts@, total_blocks),
{
    let mut r: Vec<SectionStart> = Vec::new();
    let mut i: usize = 0;
    assert(texts(pages@).take(0) =~= Seq::<Seq<char>>::empty());
    assert(r.deep_view() =~= Seq::<SectionModel>::empty());
    while i < pages.len()
        invariant
            i <= pages@.len(),
            r.deep_view() == inferred_sections(
                texts(pages@).take(i as int),
                page_block_starts@,
                total_blocks,
            ),
        decreases pages@.len() - i,
    {
        proof {
            let t = texts(pages@);
            assert(t.take(i + 1).drop_last() =~= t.take(i as int));
            assert(t.take(i + 1).last() == pages@[i as int]@);
            assert(t.take(i + 1).len() == i + 1);
        }
        if let Some(title) = infer_pdf_section_title(pages[i].as_str()) {
            let block_index = page_to_block_index(
                (i + 1) as u32,
                page_block_starts,
                total_blocks,
            );
            let ghost before = r.deep_view();
            r.push(SectionStart { title, level: 1, block_index });
            assert(r.deep_view() =~= before.push(r.deep_view().last()));
        }
        i += 1;
    }
    assert(texts(pages@).take(pages@.len() as int) =~= texts(pages@));
    r
}

} // verus!
