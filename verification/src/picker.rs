//! The two pickers of the interface: the chapter picker, filtered by a typed
//! query, and the file picker over the entries of a directory.

use vstd::prelude::*;
use crate::chars::{
    chars_of, lowercase, string_of, occurs_in, contains_chars, string_pop, string_push, to_lowercase,
};
use crate::reader::{ChapterTarget, ChapterTargetModel};

verus! {

/// Whether a title is shown for a (lowercased) query: an empty query shows
/// everything, otherwise the lowercased title must contain the query.
pub open spec fn title_matches(title: Seq<char>, query: Seq<char>) -> bool {
    query.len() == 0 || occurs_in(query, lowercase(title))
}

/// The positions of the chapters whose titles match the query, in order.
pub open spec fn matching_chapters(chapters: Seq<ChapterTargetModel>, query: Seq<char>) -> Seq<
    usize,
>
    decreases chapters.len(),
{
    if chapters.len() == 0 {
        Seq::empty()
    } else {
        let before = matching_chapters(chapters.drop_last(), query);
        if title_matches(chapters.last().title, query) {
            before.push((chapters.len() - 1) as usize)
        } else {
            before
        }
    }
}

/// The list `0, 1, ..., n - 1`.
pub open spec fn all_positions(n: nat) -> Seq<usize> {
    Seq::new(n, |i: int| i as usize)
}

/// The row above `sel` (row 0 stays).
pub open spec fn row_above(sel: usize) -> usize {
    if sel > 0 {
        (sel - 1) as usize
    } else {
        0
    }
}

/// The row below `sel` among `n` rows (the last row stays).
pub open spec fn row_below(sel: usize, n: nat) -> usize {
    if sel + 1 < n {
        (sel + 1) as usize
    } else {
        sel
    }
}

/// The chapter picker: a query, the positions of the chapters it shows, and
/// the highlighted row among them.
pub struct ChapterPicker {
    pub query: String,
    pub filtered: Vec<usize>,
    pub selected: usize,
}

impl ChapterPicker {
    /// An empty picker.
    pub fn new() -> (r: ChapterPicker)
        ensures
            r.query@.len() == 0,
            r.filtered@.len() == 0,
            r.selected == 0,
    {
        ChapterPicker { query: String::new(), filtered: Vec::new(), selected: 0 }
    }

    /// Clears the query and shows all `len` chapters, highlighting the first.
    pub fn reset(&mut self, len: usize)
        ensures
            final(self).query@.len() == 0,
            final(self).filtered@ == all_positions(len as nat),
            final(self).selected == 0,
    {
        self.query = String::new();
        let mut filtered: Vec<usize> = Vec::new();
        let mut i: usize = 0;
        while i < len
            invariant
                i <= len,
                filtered@ =~= all_positions(i as nat),
            decreases len - i,
        {
            filtered.push(i);
            i += 1;
        }
        self.filtered = filtered;
        self.selected = 0;
    }

    /// Shows the chapters whose titles match the lowercased query,
    /// highlighting the first.
    pub fn refilter(&mut self, chapters: &[ChapterTarget])
        ensures
            final(self).query == old(self).query,
            final(self).filtered@ == matching_chapters(
                chapters.deep_view(),
                lowercase(old(self).query@),
            ),
            final(self).selected == 0,
    {
        let q = to_lowercase(self.query.as_str());
        let qc = chars_of(q.as_str());
        let mut filtered: Vec<usize> = Vec::new();
        let mut i: usize = 0;
        assert(chapters.deep_view().take(0) =~= Seq::<ChapterTargetModel>::empty());
        while i < chapters.len()
            invariant
                i <= chapters@.len(),
                qc@ == lowercase(self.query@),
                filtered@ == matching_chapters(chapters.deep_view().take(i as int), qc@),
            decreases chapters@.len() - i,
        {
            proof {
                let cs = chapters.deep_view();
                assert(cs.take(i + 1).drop_last() =~= cs.take(i as int));
                assert(cs.take(i + 1).last() == chapters@[i as int].deep_view());
            }
            let show = if qc.len() == 0 {
                true
            } else {
                let t = to_lowercase(chapters[i].title.as_str());
                let tc = chars_of(t.as_str());
                contains_chars(tc.as_slice(), qc.as_slice())
            };
            if show {
                filtered.push(i);
            }
            i += 1;
        }
        assert(chapters.deep_view().take(chapters@.len() as int) =~= chapters.deep_view());
        self.filtered = filtered;
        self.selected = 0;
    }

    /// Adds a character to the query and filters again.
    pub fn type_char(&mut self, c: char, chapters: &[ChapterTarget])
        ensures
            final(self).query@ == old(self).query@.push(c),
            final(self).filtered@ == matching_chapters(
                chapters.deep_view(),
                lowercase(old(self).query@.push(c)),
            ),
            final(self).selected == 0,
    {
        string_push(&mut self.query, c);
        self.refilter(chapters);
    }

    /// Removes the last character of the query and filters again.
    pub fn backspace(&mut self, chapters: &[ChapterTarget])
        ensures
            final(self).query@ == if old(self).query@.len() > 0 {
                old(self).query@.drop_last()
            } else {
                old(self).query@
            },
            final(self).filtered@ == matching_chapters(
                chapters.deep_view(),
                lowercase(final(self).query@),
            ),
            final(self).selected == 0,
    {
        let _ = string_pop(&mut self.query);
        self.refilter(chapters);
    }

    /// Highlights the row above, if any.
    pub fn move_up(&mut self)
        ensures
            final(self).query == old(self).query,
            final(self).filtered == old(self).filtered,
            final(self).selected == row_above(old(self).selected),
    {
        if self.selected > 0 {
            self.selected -= 1;
        }
    }

    /// Highlights the row below, if any.
    pub fn move_down(&mut self)
        ensures
            final(self).query == old(self).query,
            final(self).filtered == old(self).filtered,
            final(self).selected == row_below(old(self).selected, old(self).filtered@.len()),
    {
        if self.selected < self.filtered.len() && self.selected + 1 < self.filtered.len() {
            self.selected += 1;
        }
    }

    /// The position of the highlighted chapter, if the highlighted row shows a
    /// chapter that exists.
    pub open spec fn spec_selected_index(&self, n: nat) -> Option<usize> {
        if self.selected < self.filtered@.len() && self.filtered@[self.selected as int] < n {
            Some(self.filtered@[self.selected as int])
        } else {
            None
        }
    }

    /// The highlighted chapter, if any.
    pub fn selected_target<'a>(&self, chapters: &'a [ChapterTarget]) -> (r: Option<
        &'a ChapterTarget,
    >)
        ensures
            match self.spec_selected_index(chapters@.len()) {
                Some(i) => r == Some(&chapters@[i as int]),
                None => r is None,
            },
    {
        if self.selected < self.filtered.len() {
            let i = self.filtered[self.selected];
            if i < chapters.len() {
                return Some(&chapters[i]);
            }
        }
        None
    }
}

/// Moving down then up comes back to the same row when there is a row
/// below; moving up then down does when there is a row above; and a move never
/// leaves the shown rows.
pub proof fn law_picker_moves(sel: usize, n: nat)
    requires
        n <= usize::MAX,
    ensures
        sel + 1 < n ==> row_above(row_below(sel, n)) == sel,
        sel > 0 && sel < n ==> row_below(row_above(sel), n) == sel,
        sel < n ==> row_above(sel) < n && row_below(sel, n) < n,
{
}

} // verus!

verus! {

/// One entry of the file picker's listing, as the picker reads it.
#[derive(Debug, Clone, PartialEq, Eq)]
pub struct PickerEntry {
    /// The entry's file name, when it is valid Unicode.
    pub name: Option<String>,
    /// The entry is the parent of the listed directory (shown as `..`).
    pub is_parent: bool,
    pub is_dir: bool,
}

/// The mathematical content of a [`PickerEntry`].
pub struct PickerEntryModel {
    pub name: Option<Seq<char>>,
    pub is_parent: bool,
    pub is_dir: bool,
}

impl DeepView for PickerEntry {
    type V = PickerEntryModel;

    open spec fn deep_view(&self) -> PickerEntryModel {
        PickerEntryModel {
            name: match self.name {
                Some(n) => Some(n@),
                None => None,
            },
            is_parent: self.is_parent,
            is_dir: self.is_dir,
        }
    }
}

/// How an entry is shown in the file picker: `..` for the parent, else its
/// name (`?` when the name is not valid Unicode), with a `/` after a
/// directory.
pub open spec fn entry_label(e: PickerEntryModel) -> Seq<char> {
    let name = if e.is_parent {
        seq!['.', '.']
    } else {
        match e.name {
            Some(n) => n,
            None => seq!['?'],
        }
    };
    if e.is_dir {
        name.push('/')
    } else {
        name
    }
}

impl PickerEntry {
    /// The entry's row in the file picker (see [`entry_label`]).
    pub fn label(&self) -> (r: String)
        ensures
            r@ == entry_label(self.deep_view()),
    {
        let mut cs: Vec<char> = if self.is_parent {
            vec!['.', '.']
        } else {
            match &self.name {
                Some(n) => chars_of(n.as_str()),
                None => vec!['?'],
            }
        };
        if self.is_dir {
            cs.push('/');
        }
        string_of(cs.as_slice())
    }
}

/// Whether an entry is shown for a (lowercased) query: always for an empty
/// query and for the parent entry, otherwise when its lowercased name
/// contains the query.
pub open spec fn entry_matches(e: PickerEntryModel, query: Seq<char>) -> bool {
    query.len() == 0 || e.is_parent || match e.name {
        Some(n) => occurs_in(query, lowercase(n)),
        None => false,
    }
}

/// The positions of the entries shown for a query, in order.
pub open spec fn matching_entries(entries: Seq<PickerEntryModel>, query: Seq<char>) -> Seq<usize>
    decreases entries.len(),
{
    if entries.len() == 0 {
        Seq::empty()
    } else {
        let before = matching_entries(entries.drop_last(), query);
        if entry_matches(entries.last(), query) {
            before.push((entries.len() - 1) as usize)
        } else {
            before
        }
    }
}

/// The file picker: a query over a directory listing.
pub struct FilePicker {
    pub query: String,
    pub entries: Vec<PickerEntry>,
    pub filtered: Vec<usize>,
    pub selected: usize,
}

impl FilePicker {
    /// A picker with nothing listed.
    pub fn new() -> (r: FilePicker)
        ensures
            r.query@.len() == 0,
            r.entries@.len() == 0,
            r.filtered@.len() == 0,
            r.selected == 0,
    {
        FilePicker { query: String::new(), entries: Vec::new(), filtered: Vec::new(), selected: 0 }
    }

    /// Lists new entries (already in display order) and filters them by the
    /// current query.
    pub fn set_entries(&mut self, entries: Vec<PickerEntry>)
        ensures
            final(self).query == old(self).query,
            final(self).entries@ == entries@,
            final(self).filtered@ == matching_entries(entries.deep_view(), lowercase(old(self).query@)),
            final(self).selected == 0,
    {
        self.entries = entries;
        self.refilter();
    }

    /// Shows the entries that match the lowercased query, highlighting the
    /// first.
    pub fn refilter(&mut self)
        ensures
            final(self).query == old(self).query,
            final(self).entries == old(self).entries,
            final(self).filtered@ == matching_entries(
                old(self).entries.deep_view(),
                lowercase(old(self).query@),
            ),
            final(self).selected == 0,
    {
        let q = to_lowercase(self.query.as_str());
        let qc = chars_of(q.as_str());
        let mut filtered: Vec<usize> = Vec::new();
        let mut i: usize = 0;
        let n = self.entries.len();
        assert(self.entries.deep_view().take(0) =~= Seq::<PickerEntryModel>::empty());
        while i < n
            invariant
                n == self.entries@.len(),
                i <= n,
                qc@ == lowercase(self.query@),
                filtered@ == matching_entries(self.entries.deep_view().take(i as int), qc@),
            decreases n - i,
        {
            proof {
                let es = self.entries.deep_view();
                assert(es.take(i + 1).drop_last() =~= es.take(i as int));
                assert(es.take(i + 1).last() == self.entries@[i as int].deep_view());
            }
            let e = &self.entries[i];
            let show = if qc.len() == 0 || e.is_parent {
                true
            } else {
                match &e.name {
                    Some(name) => {
                        let lower = to_lowercase(name.as_str());
                        let lc = chars_of(lower.as_str());
                        contains_chars(lc.as_slice(), qc.as_slice())
                    },
                    None => false,
                }
            };
            if show {
                filtered.push(i);
            }
            i += 1;
        }
        assert(self.entries.deep_view().take(n as int) =~= self.entries.deep_view());
        self.filtered = filtered;
        self.selected = 0;
    }

    /// Adds a character to the query and filters again.
    pub fn type_char(&mut self, c: char)
        ensures
            final(self).query@ == old(self).query@.push(c),
            final(self).entries == old(self).entries,
            final(self).filtered@ == matching_entries(
                old(self).entries.deep_view(),
                lowercase(old(self).query@.push(c)),
            ),
            final(self).selected == 0,
    {
        string_push(&mut self.query, c);
        self.refilter();
    }

    /// Removes the last character of the query and filters again.
    pub fn backspace(&mut self)
        ensures
            final(self).query@ == if old(self).query@.len() > 0 {
                old(self).query@.drop_last()
            } else {
                old(self).query@
            },
            final(self).entries == old(self).entries,
            final(self).filtered@ == matching_entries(
                old(self).entries.deep_view(),
                lowercase(final(self).query@),
            ),
            final(self).selected == 0,
    {
        let _ = string_pop(&mut self.query);
        self.refilter();
    }

    /// Highlights the row above, if any.
    pub fn move_up(&mut self)
        ensures
            final(self).query == old(self).query,
            final(self).entries == old(self).entries,
            final(self).filtered == old(self).filtered,
            final(self).selected == row_above(old(self).selected),
    {
        if self.selected > 0 {
            self.selected -= 1;
        }
    }

    /// Highlights the row below, if any.
    pub fn move_down(&mut self)
        ensures
            final(self).query == old(self).query,
            final(self).entries == old(self).entries,
            final(self).filtered == old(self).filtered,
            final(self).selected == row_below(old(self).selected, old(self).filtered@.len()),
    {
        if self.selected < self.filtered.len() && self.selected + 1 < self.filtered.len() {
            self.selected += 1;
        }
    }

    /// The position in `entries` of the highlighted entry, if the highlighted
    /// row shows an entry that exists.
    pub open spec fn spec_selected_path(&self) -> Option<usize> {
        if self.selected < self.filtered@.len() && self.filtered@[self.selected as int]
            < self.entries@.len() {
            Some(self.filtered@[self.selected as int])
        } else {
            None
        }
    }

    /// The position in `entries` of the highlighted entry (the caller holds
    /// the paths in the same order).
    pub fn selected_path(&self) -> (r: Option<usize>)
        ensures
            r == self.spec_selected_path(),
    {
        if self.selected < self.filtered.len() {
            let i = self.filtered[self.selected];
            if i < self.entries.len() {
                return Some(i);
            }
        }
        None
    }

    /// Whether entry `i` is the parent of the listed directory.
    pub fn is_parent(&self, i: usize) -> (r: bool)
        ensures
            r == (i < self.entries@.len() && self.entries@[i as int].is_parent),
    {
        i < self.entries.len() && self.entries[i].is_parent
    }
}

} // verus!

verus! {

// ---------------------------------------------------------------------------
// The order of a directory listing

/// Whether `a` comes no later than `b` in lexicographic order of characters
/// (which is also the order of their UTF-8 bytes).
pub open spec fn chars_le(a: Seq<char>, b: Seq<char>) -> bool
    decreases a.len(),
{
    if a.len() == 0 {
        true
    } else if b.len() == 0 {
        false
    } else if a[0] != b[0] {
        a[0] < b[0]
    } else {
        chars_le(a.drop_first(), b.drop_first())
    }
}

/// The order of optional names: a missing name first.
pub open spec fn name_le(a: Option<Seq<char>>, b: Option<Seq<char>>) -> bool {
    match (a, b) {
        (None, _) => true,
        (Some(_), None) => false,
        (Some(x), Some(y)) => chars_le(x, y),
    }
}

/// The listing order: directories before files, then by name.
pub open spec fn listed_before(a: PickerEntryModel, b: PickerEntryModel) -> bool {
    (a.is_dir && !b.is_dir) || (a.is_dir == b.is_dir && name_le(a.name, b.name))
}

/// Whether an entry of a directory is listed: its name is valid Unicode and
/// does not start with a dot.
pub open spec fn is_listed(e: PickerEntryModel) -> bool {
    match e.name {
        Some(n) => !(n.len() > 0 && n[0] == '.'),
        None => false,
    }
}

proof fn lemma_chars_le_total(a: Seq<char>, b: Seq<char>)
    ensures
        chars_le(a, b) || chars_le(b, a),
    decreases a.len(),
{
    if a.len() > 0 && b.len() > 0 && a[0] == b[0] {
        lemma_chars_le_total(a.drop_first(), b.drop_first());
    }
}

proof fn lemma_chars_le_transitive(a: Seq<char>, b: Seq<char>, c: Seq<char>)
    requires
        chars_le(a, b),
        chars_le(b, c),
    ensures
        chars_le(a, c),
    decreases a.len(),
{
    if a.len() > 0 && b.len() > 0 && c.len() > 0 && a[0] == b[0] && b[0] == c[0] {
        lemma_chars_le_transitive(a.drop_first(), b.drop_first(), c.drop_first());
    }
}

proof fn lemma_listed_before_total(a: PickerEntryModel, b: PickerEntryModel)
    ensures
        listed_before(a, b) || listed_before(b, a),
{
    if let (Some(x), Some(y)) = (a.name, b.name) {
        lemma_chars_le_total(x, y);
    }
}

proof fn lemma_listed_before_transitive(a: PickerEntryModel, b: PickerEntryModel, c: PickerEntryModel)
    requires
        listed_before(a, b),
        listed_before(b, c),
    ensures
        listed_before(a, c),
{
    if let (Some(x), Some(y), Some(z)) = (a.name, b.name, c.name) {
        if chars_le(x, y) && chars_le(y, z) {
            lemma_chars_le_transitive(x, y, z);
        }
    }
}

/// Executable [`chars_le`].
fn chars_le_exec(a: &[char], b: &[char]) -> (r: bool)
    ensures
        r == chars_le(a@, b@),
{
    let mut i: usize = 0;
    assert(a@.skip(0) =~= a@);
    assert(b@.skip(0) =~= b@);
    while i < a.len() && i < b.len() && a[i] == b[i]
        invariant
            i <= a@.len(),
            i <= b@.len(),
            chars_le(a@, b@) == chars_le(a@.skip(i as int), b@.skip(i as int)),
        decreases a@.len() - i,
    {
        proof {
            assert(a@.skip(i as int).drop_first() =~= a@.skip(i + 1));
            assert(b@.skip(i as int).drop_first() =~= b@.skip(i + 1));
        }
        i += 1;
    }
    if i == a.len() {
        true
    } else if i == b.len() {
        false
    } else {
        assert(a@.skip(i as int)[0] == a@[i as int]);
        assert(b@.skip(i as int)[0] == b@[i as int]);
        a[i] < b[i]
    }
}

/// Executable [`listed_before`].
fn listed_before_exec(a: &PickerEntry, b: &PickerEntry) -> (r: bool)
    ensures
        r == listed_before(a.deep_view(), b.deep_view()),
{
    if a.is_dir != b.is_dir {
        return a.is_dir;
    }
    match (&a.name, &b.name) {
        (None, _) => true,
        (Some(_), None) => false,
        (Some(x), Some(y)) => {
            let xc = chars_of(x.as_str());
            let yc = chars_of(y.as_str());
            chars_le_exec(xc.as_slice(), yc.as_slice())
        },
    }
}

/// Whether `order` lists the positions of the listed entries of `entries`,
/// each once, in listing order.
pub open spec fn is_listing_order(entries: Seq<PickerEntryModel>, order: Seq<usize>) -> bool {
    &&& order.no_duplicates()
    &&& forall|k: int|
        0 <= k < order.len() ==> #[trigger] order[k] < entries.len() && is_listed(
            entries[order[k] as int],
        )
    &&& forall|i: int|
        0 <= i < entries.len() && is_listed(#[trigger] entries[i]) ==> order.contains(i as usize)
    &&& forall|k1: int, k2: int|
        0 <= k1 < k2 < order.len() ==> listed_before(
            entries[#[trigger] order[k1] as int],
            entries[#[trigger] order[k2] as int],
        )
}

/// The listing order up to entry `i` (exclusive).
pub open spec fn listing_prefix(es: Seq<PickerEntryModel>, order: Seq<usize>, i: int) -> bool {
    &&& order.no_duplicates()
    &&& forall|k: int|
        0 <= k < order.len() ==> #[trigger] order[k] < i && is_listed(es[order[k] as int])
    &&& forall|j: int| 0 <= j < i && is_listed(#[trigger] es[j]) ==> order.contains(j as usize)
    &&& forall|k1: int, k2: int|
        0 <= k1 < k2 < order.len() ==> listed_before(
            es[#[trigger] order[k1] as int],
            es[#[trigger] order[k2] as int],
        )
}

proof fn lemma_insert_in_listing(es: Seq<PickerEntryModel>, old_order: Seq<usize>, p: int, i: usize)
    requires
        i < es.len(),
        listing_prefix(es, old_order, i as int),
        is_listed(es[i as int]),
        0 <= p <= old_order.len(),
        forall|k: int| 0 <= k < p ==> listed_before(es[#[trigger] old_order[k] as int], es[i as int]),
        p < old_order.len() ==> !listed_before(es[old_order[p] as int], es[i as int]),
    ensures
        listing_prefix(es, old_order.insert(p, i), i + 1),
{
    let new_order = old_order.insert(p, i);
    if p < old_order.len() {
        lemma_listed_before_total(es[old_order[p] as int], es[i as int]);
    }
    assert forall|k: int| p <= k < old_order.len() implies listed_before(
        es[i as int],
        es[#[trigger] old_order[k] as int],
    ) by {
        if k > p {
            lemma_listed_before_transitive(
                es[i as int],
                es[old_order[p] as int],
                es[old_order[k] as int],
            );
        }
    }
    assert forall|k: int| 0 <= k < new_order.len() implies #[trigger] new_order[k] < i + 1
        && is_listed(es[new_order[k] as int]) by {
        if k > p {
            assert(new_order[k] == old_order[k - 1]);
        } else if k < p {
            assert(new_order[k] == old_order[k]);
        }
    }
    assert forall|a: int, b: int| 0 <= a < new_order.len() && 0 <= b < new_order.len() && a != b
        implies new_order[a] != new_order[b] by {
        if a != p && b != p {
            let a0 = if a < p { a } else { a - 1 };
            let b0 = if b < p { b } else { b - 1 };
            assert(new_order[a] == old_order[a0]);
            assert(new_order[b] == old_order[b0]);
        } else if a == p {
            let b0 = if b < p { b } else { b - 1 };
            assert(new_order[b] == old_order[b0]);
        } else {
            let a0 = if a < p { a } else { a - 1 };
            assert(new_order[a] == old_order[a0]);
        }
    }
    assert forall|j: int| 0 <= j < i + 1 && is_listed(#[trigger] es[j]) implies new_order.contains(
        j as usize,
    ) by {
        if j == i {
            assert(new_order[p] == i);
        } else {
            let k = choose|k: int| 0 <= k < old_order.len() && old_order[k] == j as usize;
            if k < p {
                assert(new_order[k] == j as usize);
            } else {
                assert(new_order[k + 1] == j as usize);
            }
        }
    }
    assert forall|k1: int, k2: int| 0 <= k1 < k2 < new_order.len() implies listed_before(
        es[#[trigger] new_order[k1] as int],
        es[#[trigger] new_order[k2] as int],
    ) by {
        if k1 == p {
            assert(new_order[k2] == old_order[k2 - 1]);
        } else if k2 == p {
            assert(new_order[k1] == old_order[k1]);
        } else {
            let a0 = if k1 < p { k1 } else { k1 - 1 };
            let b0 = if k2 < p { k2 } else { k2 - 1 };
            assert(new_order[k1] == old_order[a0]);
            assert(new_order[k2] == old_order[b0]);
        }
    }
}

/// The positions of the entries a directory listing shows, in the order it
/// shows them: hidden entries (names starting with a dot) and names that
/// are not valid Unicode left out, directories first, then by name.
pub fn listing_order(entries: &[PickerEntry]) -> (r: Vec<usize>)
    ensures
        is_listing_order(entries.deep_view(), r@),
{
    let ghost es = entries.deep_view();
    let mut order: Vec<usize> = Vec::new();
    let mut i: usize = 0;
    while i < entries.len()
        invariant
            es == entries.deep_view(),
            i <= es.len(),
            listing_prefix(es, order@, i as int),
        decreases es.len() - i,
    {
        let e = &entries[i];
        let shown = match &e.name {
            Some(n) => {
                let cs = chars_of(n.as_str());
                !(cs.len() > 0 && cs[0] == '.')
            },
            None => false,
        };
        assert(es[i as int] == e.deep_view());
        assert(shown == is_listed(es[i as int]));
        if shown {
            // the first position whose entry comes strictly after `e`
            let mut p: usize = 0;
            while p < order.len() && listed_before_exec(&entries[order[p]], e)
                invariant
                    es == entries.deep_view(),
                    p <= order@.len(),
                    listing_prefix(es, order@, i as int),
                    i < es.len(),
                    es[i as int] == e.deep_view(),
                    forall|k: int| 0 <= k < p ==> listed_before(es[#[trigger] order@[k] as int], es[i as int]),
                decreases order@.len() - p,
            {
                assert(es[order@[p as int] as int] == entries@[order@[p as int] as int].deep_view());
                p += 1;
            }
            assert(p < order@.len() ==> es[order@[p as int] as int] == entries@[order@[p as int] as int].deep_view());
            let ghost old_order = order@;
            order.insert(p, i);
            proof {
                lemma_insert_in_listing(es, old_order, p as int, i);
                assert(order@ =~= old_order.insert(p as int, i));
            }
        }
        i += 1;
    }
    order
}

} // verus!
