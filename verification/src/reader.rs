//! Blocks become a flat list of chunks (one word, heading word, code block,
//! image or paragraph break each), and a cursor walks over them.

use vstd::prelude::*;
use crate::chars::{chars_of, count_graphemes, grapheme_count, is_space, is_space_char, string_of};
use crate::doc::{copy_table, Block, BlockModel, SectionStart, TableBlock, TableModel};
use crate::text::{truncate_end, truncated_end};

verus! {

/// What a chunk shows.
#[derive(Copy, Clone, Debug, PartialEq, Eq, Structural)]
pub enum ChunkKind {
    Word,
    Heading,
    Code,
    Paragraph,
    Image,
    Table,
}

/// One step of the reader. `multiplier_percent` scales the base duration of
/// a word: 100 is one word's time at the chosen pace.
#[derive(Debug, PartialEq, Eq)]
pub struct Chunk {
    pub text: String,
    pub kind: ChunkKind,
    pub multiplier_percent: u32,
    /// Index of the grapheme to highlight (the optimal recognition point).
    pub orp: usize,
    pub image_url: Option<String>,
    /// The table a table chunk shows.
    pub table: Option<TableBlock>,
}

/// The mathematical content of a [`Chunk`].
pub struct ChunkModel {
    pub text: Seq<char>,
    pub kind: ChunkKind,
    pub multiplier_percent: u32,
    pub orp: usize,
    pub image_url: Option<Seq<char>>,
    pub table: Option<TableModel>,
}

impl DeepView for Chunk {
    type V = ChunkModel;

    open spec fn deep_view(&self) -> ChunkModel {
        ChunkModel {
            text: self.text@,
            kind: self.kind,
            multiplier_percent: self.multiplier_percent,
            orp: self.orp,
            image_url: match self.image_url {
                Some(u) => Some(u@),
                None => None,
            },
            table: match self.table {
                Some(t) => Some(t.deep_view()),
                None => None,
            },
        }
    }
}

/// The highlighted position for a word of `n` graphemes.
pub open spec fn orp_for_length(n: nat) -> usize {
    if n <= 1 {
        0
    } else if n <= 5 {
        1
    } else if n <= 9 {
        2
    } else if n <= 13 {
        3
    } else {
        4
    }
}

/// The highlighted position for a word of `n` graphemes (see
/// [`orp_for_length`]).
pub fn orp_for_grapheme_count(n: usize) -> (r: usize)
    ensures
        r == orp_for_length(n as nat),
{
    if n <= 1 {
        0
    } else if n <= 5 {
        1
    } else if n <= 9 {
        2
    } else if n <= 13 {
        3
    } else {
        4
    }
}

/// The optimal recognition point of a word: a grapheme index chosen by the
/// word's length in graphemes.
pub fn orp_index(word: &str) -> (r: usize)
    ensures
        r == orp_for_length(grapheme_count(word@)),
        r <= 4,
        word@.len() <= 1 ==> r == 0,
{
    let n = count_graphemes(word);
    orp_for_grapheme_count(n)
}

/// How much longer a word is shown because of its final punctuation:
/// sentence ends double it, clause ends add half.
pub open spec fn punctuation_percent(word: Seq<char>) -> u32 {
    if word.len() == 0 {
        100
    } else {
        let c = word.last();
        if c == '.' || c == '!' || c == '?' {
            200
        } else if c == ',' || c == ';' || c == ':' {
            150
        } else {
            100
        }
    }
}

fn punctuation_multiplier(word: &[char]) -> (r: u32)
    ensures
        r == punctuation_percent(word@),
{
    if word.len() == 0 {
        return 100;
    }
    let c = word[word.len() - 1];
    if c == '.' || c == '!' || c == '?' {
        200
    } else if c == ',' || c == ';' || c == ':' {
        150
    } else {
        100
    }
}

/// Splitting state: words found so far and the word being read.
pub open spec fn word_scan(s: Seq<char>) -> (Seq<Seq<char>>, Seq<char>)
    decreases s.len(),
{
    if s.len() == 0 {
        (Seq::empty(), Seq::empty())
    } else {
        let (ws, cur) = word_scan(s.drop_last());
        if is_space(s.last()) {
            if cur.len() > 0 {
                (ws.push(cur), Seq::empty())
            } else {
                (ws, cur)
            }
        } else {
            (ws, cur.push(s.last()))
        }
    }
}

/// The maximal runs of non-whitespace characters of `s`, in order (what
/// `str::split_whitespace` yields).
pub open spec fn words_of(s: Seq<char>) -> Seq<Seq<char>> {
    let (ws, cur) = word_scan(s);
    if cur.len() > 0 {
        ws.push(cur)
    } else {
        ws
    }
}

pub fn split_words(s: &[char]) -> (r: Vec<Vec<char>>)
    ensures
        r.deep_view() == words_of(s@),
{
    let mut ws: Vec<Vec<char>> = Vec::new();
    let mut cur: Vec<char> = Vec::new();
    let mut i: usize = 0;
    assert(ws.deep_view() =~= Seq::<Seq<char>>::empty());
    while i < s.len()
        invariant
            i <= s@.len(),
            word_scan(s@.take(i as int)) == (ws.deep_view(), cur@),
        decreases s@.len() - i,
    {
        proof {
            assert(s@.take(i + 1).drop_last() =~= s@.take(i as int));
        }
        let c = s[i];
        if is_space_char(c) {
            if cur.len() > 0 {
                let ghost before = ws.deep_view();
                let ghost word = cur@;
                assert(cur.deep_view() =~= cur@);
                ws.push(cur);
                assert(ws.deep_view() =~= before.push(word));
                cur = Vec::new();
            }
        } else {
            cur.push(c);
        }
        i += 1;
    }
    assert(s@.take(s@.len() as int) =~= s@);
    if cur.len() > 0 {
        let ghost before = ws.deep_view();
        let ghost word = cur@;
        assert(cur.deep_view() =~= cur@);
        ws.push(cur);
        assert(ws.deep_view() =~= before.push(word));
    }
    ws
}

/// `.` and `,` are stripped from both ends of a word.
pub open spec fn is_edge_punct(c: char) -> bool {
    c == '.' || c == ','
}

pub open spec fn strip_start_punct(s: Seq<char>) -> Seq<char>
    decreases s.len(),
{
    if s.len() > 0 && is_edge_punct(s[0]) {
        strip_start_punct(s.drop_first())
    } else {
        s
    }
}

pub open spec fn strip_end_punct(s: Seq<char>) -> Seq<char>
    decreases s.len(),
{
    if s.len() > 0 && is_edge_punct(s.last()) {
        strip_end_punct(s.drop_last())
    } else {
        s
    }
}

/// A word without leading and trailing `.` and `,`
/// (`str::trim_matches(|c| c == '.' || c == ',')`).
pub open spec fn stripped_word(s: Seq<char>) -> Seq<char> {
    strip_end_punct(strip_start_punct(s))
}

proof fn lemma_strip_start(s: Seq<char>, lo: int)
    requires
        0 <= lo <= s.len(),
        forall|k: int| 0 <= k < lo ==> is_edge_punct(#[trigger] s[k]),
    ensures
        strip_start_punct(s) == strip_start_punct(s.skip(lo)),
    decreases lo,
{
    if lo > 0 {
        assert(s.skip(1) =~= s.drop_first());
        lemma_strip_start(s.drop_first(), lo - 1);
        assert(s.drop_first().skip(lo - 1) =~= s.skip(lo));
    } else {
        assert(s.skip(0) =~= s);
    }
}

proof fn lemma_strip_end(s: Seq<char>, hi: int)
    requires
        0 <= hi <= s.len(),
        forall|k: int| hi <= k < s.len() ==> is_edge_punct(#[trigger] s[k]),
    ensures
        strip_end_punct(s) == strip_end_punct(s.take(hi)),
    decreases s.len() - hi,
{
    if hi < s.len() {
        lemma_strip_end(s.drop_last(), hi);
        assert(s.drop_last().take(hi) =~= s.take(hi));
    } else {
        assert(s.take(hi) =~= s);
    }
}

fn strip_word(s: &[char]) -> (r: Vec<char>)
    ensures
        r@ == stripped_word(s@),
{
    let n = s.len();
    let mut lo: usize = 0;
    while lo < n && (s[lo] == '.' || s[lo] == ',')
        invariant
            lo <= n == s@.len(),
            forall|k: int| 0 <= k < lo ==> is_edge_punct(#[trigger] s@[k]),
        decreases n - lo,
    {
        lo += 1;
    }
    let mut hi: usize = n;
    while hi > lo && (s[hi - 1] == '.' || s[hi - 1] == ',')
        invariant
            lo <= hi <= n == s@.len(),
            forall|k: int| hi <= k < n ==> is_edge_punct(#[trigger] s@[k]),
        decreases hi - lo,
    {
        hi -= 1;
    }
    let mut r: Vec<char> = Vec::new();
    let mut i: usize = lo;
    while i < hi
        invariant
            lo <= i <= hi <= n == s@.len(),
            r@ == s@.subrange(lo as int, i as int),
        decreases hi - i,
    {
        r.push(s[i]);
        i += 1;
    }
    proof {
        lemma_strip_start(s@, lo as int);
        let t = s@.skip(lo as int);
        if lo < n {
            assert(t[0] == s@[lo as int]);
        }
        assert(strip_start_punct(t) == t);
        assert forall|k: int| hi - lo <= k < t.len() implies is_edge_punct(#[trigger] t[k]) by {
            assert(t[k] == s@[lo + k]);
        }
        lemma_strip_end(t, hi - lo);
        let u = t.take(hi - lo);
        if hi > lo {
            assert(u.last() == s@[hi - 1]);
        }
        assert(strip_end_punct(u) == u);
        assert(u =~= s@.subrange(lo as int, hi as int));
    }
    r
}

/// The chunks of one whitespace-separated word: none when only `.` and `,`
/// are left of it.
pub open spec fn word_chunk(word: Seq<char>, kind: ChunkKind, base_percent: u32) -> Seq<
    ChunkModel,
> {
    let clean = stripped_word(word);
    if clean.len() == 0 {
        Seq::empty()
    } else {
        seq![
            ChunkModel {
                text: clean,
                kind,
                multiplier_percent: (base_percent * punctuation_percent(word) / 100) as u32,
                orp: orp_for_length(grapheme_count(clean)),
                image_url: None,
                table: None,
            },
        ]
    }
}

/// The chunks of a list of words, in order.
pub open spec fn words_chunks(ws: Seq<Seq<char>>, kind: ChunkKind, base_percent: u32) -> Seq<
    ChunkModel,
>
    decreases ws.len(),
{
    if ws.len() == 0 {
        Seq::empty()
    } else {
        words_chunks(ws.drop_last(), kind, base_percent) + word_chunk(
            ws.last(),
            kind,
            base_percent,
        )
    }
}

/// The chunks of a run of text: one per word.
pub open spec fn text_chunks(text: Seq<char>, kind: ChunkKind, base_percent: u32) -> Seq<
    ChunkModel,
> {
    words_chunks(words_of(text), kind, base_percent)
}

proof fn lemma_word_scan_unbroken(s: Seq<char>)
    requires
        forall|i: int| 0 <= i < s.len() ==> !is_space(#[trigger] s[i]),
    ensures
        word_scan(s).0 == Seq::<Seq<char>>::empty(),
        word_scan(s).1 == s,
    decreases s.len(),
{
    if s.len() > 0 {
        lemma_word_scan_unbroken(s.drop_last());
        assert(s.drop_last().push(s.last()) =~= s);
    }
}

/// The pause a word earns from how it ends: read as one word of text with
/// base pace `base`, a word ending a sentence (`.`, `!` or `?`) is shown
/// twice as long as the base, one ending a clause (`,`, `;` or `:`) half as
/// long again, and any other word for exactly the base; the chunk shows the
/// word without its edge `.` and `,`.
pub proof fn law_final_punctuation_sets_the_pause(
    w: Seq<char>,
    kind: ChunkKind,
    base: u32,
)
    requires
        w.len() > 0,
        forall|i: int| 0 <= i < w.len() ==> !is_space(#[trigger] w[i]),
        stripped_word(w).len() > 0,
        2 * base <= u32::MAX,
    ensures
        text_chunks(w, kind, base).len() == 1,
        text_chunks(w, kind, base)[0].text == stripped_word(w),
        (w.last() == '.' || w.last() == '!' || w.last() == '?') ==> text_chunks(
            w,
            kind,
            base,
        )[0].multiplier_percent == 2 * base,
        (w.last() == ',' || w.last() == ';' || w.last() == ':') ==> text_chunks(
            w,
            kind,
            base,
        )[0].multiplier_percent == base * 3 / 2,
        !(w.last() == '.' || w.last() == '!' || w.last() == '?' || w.last() == ','
            || w.last() == ';' || w.last() == ':') ==> text_chunks(w, kind, base)[0].multiplier_percent
            == base,
{
    lemma_word_scan_unbroken(w);
    assert(words_of(w) =~= seq![w]);
    assert(seq![w].drop_last() =~= Seq::<Seq<char>>::empty());
    let m = text_chunks(w, kind, base)[0].multiplier_percent;
    assert(text_chunks(w, kind, base) == words_chunks(seq![w], kind, base));
    assert(words_chunks(seq![w], kind, base) == words_chunks(
        Seq::<Seq<char>>::empty(),
        kind,
        base,
    ) + word_chunk(w, kind, base));
    assert(Seq::<ChunkModel>::empty() + word_chunk(w, kind, base) =~= word_chunk(w, kind, base));
    assert(text_chunks(w, kind, base) =~= word_chunk(w, kind, base));
    assert(m == (base * punctuation_percent(w) / 100) as u32);
    assert(base * 200 / 100 == 2 * base) by (nonlinear_arith);
    assert(base * 150 / 100 == base * 3 / 2) by (nonlinear_arith);
    assert(base * 100 / 100 == base) by (nonlinear_arith);
}

/// A word as a chunk shows it: not empty, without whitespace, and neither
/// starting nor ending with `.` or `,`.
pub open spec fn clean_word(t: Seq<char>) -> bool {
    &&& t.len() > 0
    &&& forall|i: int| 0 <= i < t.len() ==> !is_space(#[trigger] t[i])
    &&& !is_edge_punct(t[0])
    &&& !is_edge_punct(t.last())
}

proof fn lemma_word_scan_has_no_spaces(s: Seq<char>)
    ensures
        forall|k: int|
            0 <= k < word_scan(s).0.len() ==> #[trigger] word_scan(s).0[k].len() > 0 && forall|i: int|
                0 <= i < word_scan(s).0[k].len() ==> !is_space(#[trigger] word_scan(s).0[k][i]),
        forall|i: int| 0 <= i < word_scan(s).1.len() ==> !is_space(#[trigger] word_scan(s).1[i]),
    decreases s.len(),
{
    if s.len() > 0 {
        lemma_word_scan_has_no_spaces(s.drop_last());
        let (ws, cur) = word_scan(s.drop_last());
        if !is_space(s.last()) {
            assert forall|i: int| 0 <= i < cur.push(s.last()).len() implies !is_space(
                #[trigger] cur.push(s.last())[i],
            ) by {
                if i < cur.len() {
                    assert(cur.push(s.last())[i] == cur[i]);
                }
            }
        }
    }
}

proof fn lemma_words_have_no_spaces(s: Seq<char>)
    ensures
        forall|k: int|
            0 <= k < words_of(s).len() ==> #[trigger] words_of(s)[k].len() > 0 && forall|i: int|
                0 <= i < words_of(s)[k].len() ==> !is_space(#[trigger] words_of(s)[k][i]),
{
    lemma_word_scan_has_no_spaces(s);
}

proof fn lemma_strip_start_shape(s: Seq<char>)
    ensures
        exists|k: int| 0 <= k <= s.len() && strip_start_punct(s) == s.skip(k),
        strip_start_punct(s).len() > 0 ==> !is_edge_punct(strip_start_punct(s)[0]),
    decreases s.len(),
{
    if s.len() > 0 && is_edge_punct(s[0]) {
        lemma_strip_start_shape(s.drop_first());
        let k = choose|k: int|
            0 <= k <= s.drop_first().len() && strip_start_punct(s.drop_first())
                == s.drop_first().skip(k);
        assert(s.drop_first().skip(k) =~= s.skip(k + 1));
    } else {
        assert(s.skip(0) =~= s);
    }
}

proof fn lemma_strip_end_shape(s: Seq<char>)
    ensures
        exists|k: int| 0 <= k <= s.len() && strip_end_punct(s) == s.take(k),
        strip_end_punct(s).len() > 0 ==> !is_edge_punct(strip_end_punct(s).last()),
    decreases s.len(),
{
    if s.len() > 0 && is_edge_punct(s.last()) {
        lemma_strip_end_shape(s.drop_last());
        let k = choose|k: int|
            0 <= k <= s.drop_last().len() && strip_end_punct(s.drop_last())
                == s.drop_last().take(k);
        assert(s.drop_last().take(k) =~= s.take(k));
    } else {
        assert(s.take(s.len() as int) =~= s);
    }
}

proof fn lemma_stripped_word_is_clean(w: Seq<char>)
    requires
        forall|i: int| 0 <= i < w.len() ==> !is_space(#[trigger] w[i]),
    ensures
        stripped_word(w).len() > 0 ==> clean_word(stripped_word(w)),
{
    lemma_strip_start_shape(w);
    let t = strip_start_punct(w);
    let a = choose|a: int| 0 <= a <= w.len() && t == w.skip(a);
    lemma_strip_end_shape(t);
    let u = strip_end_punct(t);
    let b = choose|b: int| 0 <= b <= t.len() && u == t.take(b);
    if u.len() > 0 {
        assert(u[0] == t[0]);
        assert forall|i: int| 0 <= i < u.len() implies !is_space(#[trigger] u[i]) by {
            assert(u[i] == w[a + i]);
        }
    }
}

proof fn lemma_words_chunks_clean(ws: Seq<Seq<char>>, kind: ChunkKind, base_percent: u32)
    requires
        forall|k: int, i: int| 0 <= k < ws.len() && 0 <= i < ws[k].len() ==> !is_space(#[trigger] ws[k][i]),
    ensures
        forall|k: int|
            0 <= k < words_chunks(ws, kind, base_percent).len() ==> clean_word(
                #[trigger] words_chunks(ws, kind, base_percent)[k].text,
            ) && words_chunks(ws, kind, base_percent)[k].kind == kind,
    decreases ws.len(),
{
    if ws.len() > 0 {
        lemma_words_chunks_clean(ws.drop_last(), kind, base_percent);
        let w = ws.last();
        assert forall|i: int| 0 <= i < w.len() implies !is_space(#[trigger] w[i]) by {
            assert(w[i] == ws[ws.len() - 1][i]);
        }
        lemma_stripped_word_is_clean(w);
        let before = words_chunks(ws.drop_last(), kind, base_percent);
        let all = words_chunks(ws, kind, base_percent);
        let last = word_chunk(w, kind, base_percent);
        assert(all == before + last);
        assert forall|k: int| 0 <= k < all.len() implies clean_word(#[trigger] all[k].text)
            && all[k].kind == kind by {
            if k < before.len() {
                assert(all[k] == before[k]);
                assert(clean_word(before[k].text));
                assert(before[k].kind == kind);
            } else {
                assert(all[k] == last[k - before.len()]);
                assert(last[0].text == stripped_word(w));
                assert(stripped_word(w).len() > 0);
                assert(clean_word(stripped_word(w)));
                assert(last[0].kind == kind);
            }
        }
    }
}

/// Every word chunk of a text shows a clean word (see [`clean_word`]) of
/// the kind asked for.
pub proof fn law_word_chunks_are_clean_words(text: Seq<char>, kind: ChunkKind, base_percent: u32)
    ensures
        forall|k: int|
            0 <= k < text_chunks(text, kind, base_percent).len() ==> clean_word(
                #[trigger] text_chunks(text, kind, base_percent)[k].text,
            ) && text_chunks(text, kind, base_percent)[k].kind == kind,
{
    lemma_words_have_no_spaces(text);
    let ws = words_of(text);
    assert forall|k: int, i: int| 0 <= k < ws.len() && 0 <= i < ws[k].len() implies !is_space(
        #[trigger] ws[k][i],
    ) by {
        assert(ws[k].len() > 0);
    }
    lemma_words_chunks_clean(ws, kind, base_percent);
    let cs = words_chunks(ws, kind, base_percent);
    assert(text_chunks(text, kind, base_percent) == cs);
    assert forall|k: int| 0 <= k < text_chunks(text, kind, base_percent).len() implies clean_word(
        #[trigger] text_chunks(text, kind, base_percent)[k].text,
    ) && text_chunks(text, kind, base_percent)[k].kind == kind by {
        assert(text_chunks(text, kind, base_percent)[k] == cs[k]);
        assert(clean_word(cs[k].text));
    }
}

/// Appends one chunk per word of `text`; trailing punctuation lengthens a
/// word's time, and `.`/`,` are stripped from its ends.
pub fn tokenize_text(out: &mut Vec<Chunk>, text: &str, kind: ChunkKind, base_percent: u32)
    ensures
        final(out).deep_view() == old(out).deep_view() + text_chunks(text@, kind, base_percent),
{
    let cs = chars_of(text);
    let ws = split_words(cs.as_slice());
    let ghost start = out.deep_view();
    let mut i: usize = 0;
    assert(start + words_chunks(ws.deep_view().take(0), kind, base_percent) =~= start);
    while i < ws.len()
        invariant
            i <= ws@.len(),
            out.deep_view() == start + words_chunks(ws.deep_view().take(i as int), kind, base_percent),
        decreases ws@.len() - i,
    {
        proof {
            assert(ws.deep_view().take(i + 1).drop_last() =~= ws.deep_view().take(i as int));
        }
        let word = &ws[i];
        assert(word.deep_view() =~= word@);
        assert(word@ == ws.deep_view()[i as int]);
        let mult = punctuation_multiplier(word.as_slice());
        let clean = strip_word(word.as_slice());
        let ghost before = out.deep_view();
        if clean.len() > 0 {
            let text = string_of(clean.as_slice());
            let orp = orp_index(text.as_str());
            assert((base_percent as u64) * (mult as u64) <= u32::MAX * 200) by (nonlinear_arith)
                requires
                    mult <= 200,
            ;
            let m = ((base_percent as u64) * (mult as u64) / 100) as u32;
            out.push(Chunk { text, kind, multiplier_percent: m, orp, image_url: None, table: None });
            assert(out.deep_view() =~= before + word_chunk(word@, kind, base_percent));
        } else {
            assert(out.deep_view() =~= before + word_chunk(word@, kind, base_percent));
        }
        assert(start + words_chunks(ws.deep_view().take(i + 1), kind, base_percent) =~= before
            + word_chunk(word@, kind, base_percent));
        i += 1;
    }
    assert(ws.deep_view().take(ws@.len() as int) =~= ws.deep_view());
}

} // verus!

verus! {

/// The separator between two blocks: a pause half again as long as a word.
pub open spec fn paragraph_break() -> ChunkModel {
    ChunkModel {
        text: Seq::empty(),
        kind: ChunkKind::Paragraph,
        multiplier_percent: 150,
        orp: 0,
        image_url: None,
        table: None,
    }
}

/// What a table chunk shows as text: its header cells separated by ` | `.
pub open spec fn table_caption(cells: Seq<Seq<char>>) -> Seq<char>
    decreases cells.len(),
{
    if cells.len() == 0 {
        Seq::empty()
    } else if cells.len() == 1 {
        cells[0]
    } else {
        table_caption(cells.drop_last()) + seq![' ', '|', ' '] + cells.last()
    }
}

/// The text of a table chunk (see [`table_caption`]).
pub fn caption_of(cells: &[String]) -> (r: String)
    ensures
        r@ == table_caption(cells.deep_view()),
{
    let mut out: Vec<char> = Vec::new();
    let mut i: usize = 0;
    while i < cells.len()
        invariant
            i <= cells@.len(),
            out@ == table_caption(cells.deep_view().take(i as int)),
        decreases cells@.len() - i,
    {
        proof {
            let cs = cells.deep_view();
            assert(cs.take(i + 1).drop_last() =~= cs.take(i as int));
            assert(cs.take(i + 1).last() == cells@[i as int]@);
            if i == 0 {
                assert(cs.take(1)[0] == cells@[0]@);
            }
        }
        if i > 0 {
            out.push(' ');
            out.push('|');
            out.push(' ');
        }
        let mut cs = chars_of(cells[i].as_str());
        let ghost before = out@;
        out.append(&mut cs);
        proof {
            if i == 0 {
                assert(out@ =~= cells@[0]@);
            }
        }
        i += 1;
    }
    assert(cells.deep_view().take(cells@.len() as int) =~= cells.deep_view());
    string_of(out.as_slice())
}

/// The chunks of one block: its words (headings at 130%), a code block or an
/// image (shown three times as long, with its URL shortened to 60
/// characters) as a single chunk.
pub open spec fn block_chunks(b: BlockModel) -> Seq<ChunkModel> {
    match b {
        BlockModel::Text(s) => text_chunks(s, ChunkKind::Word, 100),
        BlockModel::Heading(_, s) => text_chunks(s, ChunkKind::Heading, 130),
        BlockModel::Code(s) => seq![
            ChunkModel {
                text: s,
                kind: ChunkKind::Code,
                multiplier_percent: 100,
                orp: 0,
                image_url: None,
                table: None,
            },
        ],
        BlockModel::Image(url) => seq![
            ChunkModel {
                text: truncated_end(url, 60),
                kind: ChunkKind::Image,
                multiplier_percent: 300,
                orp: 0,
                image_url: Some(url),
                table: None,
            },
        ],
        BlockModel::Table(t) => seq![
            ChunkModel {
                text: table_caption(t.headers),
                kind: ChunkKind::Table,
                multiplier_percent: 100,
                orp: 0,
                image_url: None,
                table: Some(t),
            },
        ],
    }
}

/// The chunks of a list of blocks: each block's chunks, with a paragraph
/// break before every block but the first.
pub open spec fn chunks_of(bs: Seq<BlockModel>) -> Seq<ChunkModel>
    decreases bs.len(),
{
    if bs.len() == 0 {
        Seq::empty()
    } else {
        chunks_of(bs.drop_last()) + (if bs.len() > 1 {
            seq![paragraph_break()]
        } else {
            Seq::empty()
        }) + block_chunks(bs.last())
    }
}

/// Where the chunks of block `i` begin (for a block after the first, at the
/// paragraph break before it).
pub open spec fn block_start(bs: Seq<BlockModel>, i: int) -> int {
    chunks_of(bs.take(i)).len() as int
}

fn push_chunk(out: &mut Vec<Chunk>, c: Chunk)
    ensures
        final(out).deep_view() == old(out).deep_view().push(c.deep_view()),
{
    let ghost before = out.deep_view();
    let ghost cv = c.deep_view();
    out.push(c);
    assert(out.deep_view() =~= before.push(cv));
}

/// The chunks of all blocks, and the index where each block's chunks begin.
pub fn tokenize_with_block_starts(blocks: &[Block]) -> (r: (Vec<Chunk>, Vec<usize>))
    ensures
        r.0.deep_view() == chunks_of(blocks.deep_view()),
        r.1@.len() == blocks@.len(),
        forall|i: int| 0 <= i < blocks@.len() ==> r.1@[i] == block_start(blocks.deep_view(), i),
{
    let mut out: Vec<Chunk> = Vec::new();
    let mut starts: Vec<usize> = Vec::new();
    let mut i: usize = 0;
    assert(blocks.deep_view().take(0) =~= Seq::<BlockModel>::empty());
    assert(out.deep_view() =~= Seq::<ChunkModel>::empty());
    while i < blocks.len()
        invariant
            i <= blocks@.len(),
            out.deep_view() == chunks_of(blocks.deep_view().take(i as int)),
            starts@.len() == i,
            forall|k: int| 0 <= k < i ==> starts@[k] == block_start(blocks.deep_view(), k),
        decreases blocks@.len() - i,
    {
        let ghost bs = blocks.deep_view();
        proof {
            assert(bs.take(i + 1).drop_last() =~= bs.take(i as int));
            assert(bs.take(i + 1).last() == bs[i as int]);
        }
        starts.push(out.len());
        let ghost before = out.deep_view();
        if i > 0 {
            push_chunk(
                &mut out,
                Chunk {
                    text: String::new(),
                    kind: ChunkKind::Paragraph,
                    multiplier_percent: 150,
                    orp: 0,
                    image_url: None,
                    table: None,
                },
            );
        }
        assert(out.deep_view() =~= before + (if i + 1 > 1 {
            seq![paragraph_break()]
        } else {
            Seq::empty()
        }));
        let ghost mid = out.deep_view();
        match &blocks[i] {
            Block::Text(s) => tokenize_text(&mut out, s.as_str(), ChunkKind::Word, 100),
            Block::Heading(_, s) => tokenize_text(&mut out, s.as_str(), ChunkKind::Heading, 130),
            Block::Code(s) => {
                push_chunk(
                    &mut out,
                    Chunk {
                        text: s.clone(),
                        kind: ChunkKind::Code,
                        multiplier_percent: 100,
                        orp: 0,
                        image_url: None,
                        table: None,
                    },
                );
                assert(out.deep_view() =~= mid + block_chunks(bs[i as int]));
            },
            Block::Image(url) => {
                push_chunk(
                    &mut out,
                    Chunk {
                        text: truncate_end(url.as_str(), 60),
                        kind: ChunkKind::Image,
                        multiplier_percent: 300,
                        orp: 0,
                        image_url: Some(url.clone()),
                        table: None,
                    },
                );
                assert(out.deep_view() =~= mid + block_chunks(bs[i as int]));
            },
            Block::Table(t) => {
                push_chunk(
                    &mut out,
                    Chunk {
                        text: caption_of(t.headers.as_slice()),
                        kind: ChunkKind::Table,
                        multiplier_percent: 100,
                        orp: 0,
                        image_url: None,
                        table: Some(copy_table(t)),
                    },
                );
                assert(out.deep_view() =~= mid + block_chunks(bs[i as int]));
            },
        }
        i += 1;
    }
    assert(blocks.deep_view().take(blocks@.len() as int) =~= blocks.deep_view());
    (out, starts)
}

/// A place to jump to: a section title and the chunk where it starts.
#[derive(Debug, Clone, PartialEq, Eq)]
pub struct ChapterTarget {
    pub title: String,
    pub level: u8,
    pub chunk_index: usize,
}

/// The mathematical content of a [`ChapterTarget`].
pub struct ChapterTargetModel {
    pub title: Seq<char>,
    pub level: u8,
    pub chunk_index: int,
}

impl DeepView for ChapterTarget {
    type V = ChapterTargetModel;

    open spec fn deep_view(&self) -> ChapterTargetModel {
        ChapterTargetModel {
            title: self.title@,
            level: self.level,
            chunk_index: self.chunk_index as int,
        }
    }
}

/// The chunk where a section starting at block `bi` begins; a section past
/// the last block goes to where the last block begins, and to 0 when there
/// are no blocks.
pub open spec fn target_chunk(bs: Seq<BlockModel>, bi: int) -> int {
    if bi < bs.len() {
        block_start(bs, bi)
    } else if bs.len() > 0 {
        block_start(bs, bs.len() - 1)
    } else {
        0
    }
}

proof fn lemma_chunks_of_prefix_grows(bs: Seq<BlockModel>, j: int, k: int)
    requires
        0 <= j <= k <= bs.len(),
    ensures
        chunks_of(bs.take(j)).len() <= chunks_of(bs.take(k)).len(),
        1 <= j < k ==> chunks_of(bs.take(j)).len() < chunks_of(bs.take(k)).len(),
    decreases k - j,
{
    if j < k {
        lemma_chunks_of_prefix_grows(bs, j, k - 1);
        assert(bs.take(k).drop_last() =~= bs.take(k - 1));
    }
}

/// Every chapter target is a chunk of the document, when the document has
/// any chunk: jumping to a chapter lands inside the text.
pub proof fn law_chapter_targets_land_in_document(bs: Seq<BlockModel>, bi: int)
    requires
        chunks_of(bs).len() > 0,
        0 <= bi,
    ensures
        0 <= target_chunk(bs, bi) < chunks_of(bs).len(),
{
    assert(bs.take(bs.len() as int) =~= bs);
    let i = if bi < bs.len() {
        bi
    } else {
        bs.len() - 1
    };
    if i >= 1 {
        lemma_chunks_of_prefix_grows(bs, i, bs.len() as int);
    } else {
        assert(bs.take(0) =~= Seq::<BlockModel>::empty());
    }
}

/// Chapter targets follow block order: a section that starts no later in the
/// blocks than another is never targeted at a later chunk.
pub proof fn law_chapter_targets_follow_block_order(bs: Seq<BlockModel>, a: int, b: int)
    requires
        0 <= a <= b,
    ensures
        target_chunk(bs, a) <= target_chunk(bs, b),
{
    if b < bs.len() {
        lemma_chunks_of_prefix_grows(bs, a, b);
    } else if a < bs.len() {
        lemma_chunks_of_prefix_grows(bs, a, bs.len() - 1);
    }
}

/// One jump target per section, in order, at the chunk where its block
/// begins.
pub fn chapter_targets(blocks: &[Block], sections: &[SectionStart]) -> (r: Vec<ChapterTarget>)
    ensures
        r@.len() == sections@.len(),
        forall|k: int|
            0 <= k < sections@.len() ==> #[trigger] r.deep_view()[k] == (ChapterTargetModel {
                title: sections@[k].title@,
                level: sections@[k].level,
                chunk_index: target_chunk(blocks.deep_view(), sections@[k].block_index as int),
            }),
{
    let (_, starts) = tokenize_with_block_starts(blocks);
    let mut r: Vec<ChapterTarget> = Vec::new();
    let mut k: usize = 0;
    while k < sections.len()
        invariant
            k <= sections@.len(),
            starts@.len() == blocks@.len(),
            forall|i: int| 0 <= i < blocks@.len() ==> starts@[i] == block_start(blocks.deep_view(), i),
            r@.len() == k,
            forall|j: int|
                0 <= j < k ==> #[trigger] r.deep_view()[j] == (ChapterTargetModel {
                    title: sections@[j].title@,
                    level: sections@[j].level,
                    chunk_index: target_chunk(blocks.deep_view(), sections@[j].block_index as int),
                }),
        decreases sections@.len() - k,
    {
        let section = &sections[k];
        let chunk_index = if section.block_index < starts.len() {
            starts[section.block_index]
        } else if starts.len() > 0 {
            starts[starts.len() - 1]
        } else {
            0
        };
        let ghost before = r.deep_view();
        r.push(ChapterTarget { title: section.title.clone(), level: section.level, chunk_index });
        assert(r.deep_view() =~= before.push(r.deep_view()[k as int]));
        k += 1;
    }
    r
}

/// The position after moving `n` chunks forward from `index` among `len`
/// chunks: at most the last one, and unchanged when there are none.
pub open spec fn advanced_index(index: usize, len: nat, n: usize) -> usize {
    if len == 0 {
        index
    } else if index + n <= len - 1 {
        (index + n) as usize
    } else {
        (len - 1) as usize
    }
}

/// The position after moving `n` chunks back from `index`: at least 0.
pub open spec fn retreated_index(index: usize, n: usize) -> usize {
    if index >= n {
        (index - n) as usize
    } else {
        0
    }
}

/// `i` kept within `len` chunks (`i.min(len.saturating_sub(1))`).
pub open spec fn clamped_index(i: usize, len: nat) -> usize {
    if len == 0 {
        0
    } else if i <= len - 1 {
        i
    } else {
        (len - 1) as usize
    }
}

/// The cursor over a document's chunks.
pub struct Reader {
    pub chunks: Vec<Chunk>,
    pub index: usize,
    pub playing: bool,
}

impl Reader {
    /// The cursor is on a chunk, or at 0 when there are none.
    pub open spec fn well_placed(&self) -> bool {
        if self.chunks@.len() == 0 {
            self.index == 0
        } else {
            self.index < self.chunks@.len()
        }
    }

    /// The position of the last chunk (0 when there are none).
    pub open spec fn last_index(&self) -> int {
        if self.chunks@.len() == 0 {
            0
        } else {
            self.chunks@.len() - 1
        }
    }

    /// The reader at the end of `at_end`: no chunks, or on the last one or past it.
    pub open spec fn spec_at_end(&self) -> bool {
        self.chunks@.len() == 0 || self.index + 1 >= self.chunks@.len()
    }

    /// A reader with nothing to read.
    pub fn empty() -> (r: Reader)
        ensures
            r.chunks@.len() == 0,
            r.index == 0,
            !r.playing,
    {
        Reader { chunks: Vec::new(), index: 0, playing: false }
    }

    /// A paused reader at the first chunk of `blocks`.
    pub fn from_blocks(blocks: Vec<Block>) -> (r: Reader)
        ensures
            r.chunks.deep_view() == chunks_of(blocks.deep_view()),
            r.index == 0,
            !r.playing,
            r.well_placed(),
    {
        let (chunks, _) = tokenize_with_block_starts(blocks.as_slice());
        Reader { chunks, index: 0, playing: false }
    }

    /// The chunk under the cursor, if there is one.
    pub fn current(&self) -> (r: Option<&Chunk>)
        ensures
            self.index < self.chunks@.len() ==> r == Some(&self.chunks@[self.index as int]),
            self.index >= self.chunks@.len() ==> r is None,
    {
        if self.index < self.chunks.len() {
            Some(&self.chunks[self.index])
        } else {
            None
        }
    }

    /// Moves forward `n` chunks, stopping at the last one; does nothing when
    /// there are no chunks.
    pub fn advance(&mut self, n: usize)
        ensures
            final(self).chunks == old(self).chunks,
            final(self).playing == old(self).playing,
            final(self).index == advanced_index(old(self).index, old(self).chunks@.len(), n),
    {
        let len = self.chunks.len();
        if len == 0 {
            return;
        }
        let last = len - 1;
        if self.index >= last || n >= last - self.index {
            self.index = last;
        } else {
            self.index = self.index + n;
        }
    }

    /// Moves back `n` chunks, stopping at the first one.
    pub fn retreat(&mut self, n: usize)
        ensures
            final(self).chunks == old(self).chunks,
            final(self).playing == old(self).playing,
            final(self).index == retreated_index(old(self).index, n),
    {
        self.index = self.index.saturating_sub(n);
    }

    /// Puts the cursor at chunk `i`, kept within the chunks.
    pub fn jump_to(&mut self, i: usize)
        ensures
            final(self).chunks == old(self).chunks,
            final(self).playing == old(self).playing,
            final(self).index == clamped_index(i, old(self).chunks@.len()),
    {
        let len = self.chunks.len();
        self.index = if len == 0 {
            0
        } else if i <= len - 1 {
            i
        } else {
            len - 1
        };
    }

    /// Whether there is nothing after the cursor.
    pub fn at_end(&self) -> (r: bool)
        ensures
            r == self.spec_at_end(),
    {
        let len = self.chunks.len();
        len == 0 || self.index >= len - 1
    }
}

} // verus!
