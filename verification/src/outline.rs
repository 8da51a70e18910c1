//! The outline (bookmarks) of a PDF document as sections: each outline item
//! with a title and a destination page becomes a section at the block where
//! that page begins, nested items one level deeper than their parent.
//!
//! The object graph is read from a snapshot of the loaded document in plain
//! values ([`PdfGraph`]); the lookups below follow the object model of the
//! PDF library: an object id names one object, a reference is followed to the
//! object it names (at most 128 times in a chain), and a dictionary maps each
//! key to one value.

use vstd::prelude::*;
use crate::doc::{Document, SectionModel, SectionStart};
use crate::pdf::{
    blocks_from_pdf_pages, decode_pdf_string, infer_pdf_sections, inferred_sections, page_block,
    page_to_block_index, pages_blocks, pdf_string_text, texts,
};

verus! {

/// A PDF object, as far as the outline reader looks into it.
#[derive(Debug)]
pub enum PdfValue {
    /// An indirect reference: object number and generation.
    Reference(u32, u16),
    /// The bytes of a string object.
    Text(Vec<u8>),
    Array(Vec<PdfValue>),
    /// The entries of a dictionary, each key once.
    Dictionary(Vec<(Vec<u8>, PdfValue)>),
    /// Any other object (numbers, names, streams, ...).
    Other,
}

/// What the outline reader needs of a loaded PDF document.
#[derive(Debug)]
pub struct PdfGraph {
    /// The trailer's `Root` entry, when it is a reference.
    pub root: Option<(u32, u16)>,
    /// Each page's number (from 1) and object id, in page order.
    pub pages: Vec<(u32, (u32, u16))>,
    /// The document's objects by id.
    pub objects: Vec<((u32, u16), PdfValue)>,
}

// ---------------------------------------------------------------------------
// The object model

/// The object with this id (the first entry that has it).
pub open spec fn lookup(objs: Seq<((u32, u16), PdfValue)>, id: (u32, u16)) -> Option<PdfValue>
    decreases objs.len(),
{
    if objs.len() == 0 {
        None
    } else if objs[0].0 == id {
        Some(objs[0].1)
    } else {
        lookup(objs.drop_first(), id)
    }
}

/// How many references in a row are followed before giving up.
pub open spec fn deref_limit() -> nat {
    128
}

/// `v` with references followed, at most `hops` more of them; `None` when a
/// reference names no object or the chain is too long.
pub open spec fn dereferenced(objs: Seq<((u32, u16), PdfValue)>, v: PdfValue, hops: nat) -> Option<
    PdfValue,
>
    decreases hops,
{
    match v {
        PdfValue::Reference(a, b) => match lookup(objs, (a, b)) {
            Some(o) => if hops == 0 {
                None
            } else {
                dereferenced(objs, o, (hops - 1) as nat)
            },
            None => None,
        },
        _ => Some(v),
    }
}

/// The object with this id, references followed.
pub open spec fn object_at(objs: Seq<((u32, u16), PdfValue)>, id: (u32, u16)) -> Option<PdfValue> {
    match lookup(objs, id) {
        Some(o) => dereferenced(objs, o, deref_limit()),
        None => None,
    }
}

/// The entries of the dictionary with this id.
pub open spec fn dictionary_at(objs: Seq<((u32, u16), PdfValue)>, id: (u32, u16)) -> Option<
    Seq<(Vec<u8>, PdfValue)>,
> {
    match object_at(objs, id) {
        Some(PdfValue::Dictionary(d)) => Some(d@),
        _ => None,
    }
}

/// The value of a dictionary entry.
pub open spec fn entry(d: Seq<(Vec<u8>, PdfValue)>, key: Seq<u8>) -> Option<PdfValue>
    decreases d.len(),
{
    if d.len() == 0 {
        None
    } else if d[0].0@ == key {
        Some(d[0].1)
    } else {
        entry(d.drop_first(), key)
    }
}

/// The id that a value refers to, when it is a reference.
pub open spec fn reference_in(v: Option<PdfValue>) -> Option<(u32, u16)> {
    match v {
        Some(PdfValue::Reference(a, b)) => Some((a, b)),
        _ => None,
    }
}

/// A borrowed optional value, as a value.
pub open spec fn copied<T>(o: Option<&T>) -> Option<T> {
    match o {
        Some(v) => Some(*v),
        None => None,
    }
}

proof fn lemma_lookup_skip(objs: Seq<((u32, u16), PdfValue)>, id: (u32, u16), k: int)
    requires
        0 <= k <= objs.len(),
        forall|j: int| 0 <= j < k ==> objs[j].0 != id,
    ensures
        lookup(objs, id) == lookup(objs.skip(k), id),
    decreases k,
{
    if k > 0 {
        assert(objs.skip(1) =~= objs.drop_first());
        lemma_lookup_skip(objs.drop_first(), id, k - 1);
        assert(objs.drop_first().skip(k - 1) =~= objs.skip(k));
    } else {
        assert(objs.skip(0) =~= objs);
    }
}

proof fn lemma_entry_skip(d: Seq<(Vec<u8>, PdfValue)>, key: Seq<u8>, k: int)
    requires
        0 <= k <= d.len(),
        forall|j: int| 0 <= j < k ==> d[j].0@ != key,
    ensures
        entry(d, key) == entry(d.skip(k), key),
    decreases k,
{
    if k > 0 {
        assert(d.skip(1) =~= d.drop_first());
        lemma_entry_skip(d.drop_first(), key, k - 1);
        assert(d.drop_first().skip(k - 1) =~= d.skip(k));
    } else {
        assert(d.skip(0) =~= d);
    }
}

/// Whether `a` and `b` name the same object.
fn same_id(a: (u32, u16), b: (u32, u16)) -> (r: bool)
    ensures
        r == (a == b),
{
    a.0 == b.0 && a.1 == b.1
}

/// The object with this id (see [`lookup`]).
pub fn find_object(objs: &[((u32, u16), PdfValue)], id: (u32, u16)) -> (r: Option<&PdfValue>)
    ensures
        copied(r) == lookup(objs@, id),
{
    let mut i: usize = 0;
    while i < objs.len()
        invariant
            i <= objs@.len(),
            forall|j: int| 0 <= j < i ==> objs@[j].0 != id,
        decreases objs@.len() - i,
    {
        if same_id(objs[i].0, id) {
            proof {
                lemma_lookup_skip(objs@, id, i as int);
                assert(objs@.skip(i as int)[0] == objs@[i as int]);
            }
            return Some(&objs[i].1);
        }
        i += 1;
    }
    proof {
        lemma_lookup_skip(objs@, id, i as int);
    }
    None
}

/// `v` with references followed (see [`dereferenced`]).
pub fn dereference<'a>(objs: &'a [((u32, u16), PdfValue)], v: &'a PdfValue) -> (r: Option<
    &'a PdfValue,
>)
    ensures
        copied(r) == dereferenced(objs@, *v, deref_limit()),
{
    let mut cur: &PdfValue = v;
    let mut hops: usize = 0;
    loop
        invariant
            hops <= 128,
            dereferenced(objs@, *v, deref_limit()) == dereferenced(
                objs@,
                *cur,
                (128 - hops) as nat,
            ),
        decreases 128 - hops,
    {
        match cur {
            PdfValue::Reference(a, b) => {
                match find_object(objs, (*a, *b)) {
                    None => {
                        return None;
                    },
                    Some(o) => {
                        if hops == 128 {
                            return None;
                        }
                        hops += 1;
                        cur = o;
                    },
                }
            },
            _ => {
                return Some(cur);
            },
        }
    }
}

/// The object with this id, references followed (see [`object_at`]).
pub fn object_with_id(objs: &[((u32, u16), PdfValue)], id: (u32, u16)) -> (r: Option<&PdfValue>)
    ensures
        copied(r) == object_at(objs@, id),
{
    match find_object(objs, id) {
        Some(o) => dereference(objs, o),
        None => None,
    }
}

/// The entries of the dictionary with this id (see [`dictionary_at`]).
pub fn dictionary_with_id(objs: &[((u32, u16), PdfValue)], id: (u32, u16)) -> (r: Option<
    &Vec<(Vec<u8>, PdfValue)>,
>)
    ensures
        match r {
            Some(d) => dictionary_at(objs@, id) == Some(d@),
            None => dictionary_at(objs@, id) is None,
        },
{
    match object_with_id(objs, id) {
        Some(PdfValue::Dictionary(d)) => Some(d),
        _ => None,
    }
}

/// Whether `a` and `b` hold the same bytes.
fn same_key(a: &[u8], b: &[u8]) -> (r: bool)
    ensures
        r == (a@ == b@),
{
    if a.len() != b.len() {
        return false;
    }
    let mut i: usize = 0;
    while i < a.len()
        invariant
            a@.len() == b@.len(),
            i <= a@.len(),
            forall|j: int| 0 <= j < i ==> a@[j] == b@[j],
        decreases a@.len() - i,
    {
        if a[i] != b[i] {
            return false;
        }
        i += 1;
    }
    assert(a@ =~= b@);
    true
}

/// The value of a dictionary entry (see [`entry`]).
pub fn entry_value<'a>(d: &'a [(Vec<u8>, PdfValue)], key: &[u8]) -> (r: Option<&'a PdfValue>)
    ensures
        copied(r) == entry(d@, key@),
{
    let mut i: usize = 0;
    while i < d.len()
        invariant
            i <= d@.len(),
            forall|j: int| 0 <= j < i ==> d@[j].0@ != key@,
        decreases d@.len() - i,
    {
        if same_key(d[i].0.as_slice(), key) {
            proof {
                lemma_entry_skip(d@, key@, i as int);
                assert(d@.skip(i as int)[0] == d@[i as int]);
            }
            return Some(&d[i].1);
        }
        i += 1;
    }
    proof {
        lemma_entry_skip(d@, key@, i as int);
    }
    None
}

/// The id that a dictionary entry refers to (see [`reference_in`]).
pub fn entry_reference(d: &[(Vec<u8>, PdfValue)], key: &[u8]) -> (r: Option<(u32, u16)>)
    ensures
        r == reference_in(entry(d@, key@)),
{
    match entry_value(d, key) {
        Some(PdfValue::Reference(a, b)) => Some((*a, *b)),
        _ => None,
    }
}

// ---------------------------------------------------------------------------
// Outline items

/// The dictionary keys the outline reader looks up.
pub open spec fn key_title() -> Seq<u8> {
    seq![84u8, 105u8, 116u8, 108u8, 101u8]
}

pub open spec fn key_dest() -> Seq<u8> {
    seq![68u8, 101u8, 115u8, 116u8]
}

pub open spec fn key_action() -> Seq<u8> {
    seq![65u8]
}

pub open spec fn key_action_dest() -> Seq<u8> {
    seq![68u8]
}

pub open spec fn key_first() -> Seq<u8> {
    seq![70u8, 105u8, 114u8, 115u8, 116u8]
}

pub open spec fn key_next() -> Seq<u8> {
    seq![78u8, 101u8, 120u8, 116u8]
}

pub open spec fn key_outlines() -> Seq<u8> {
    seq![79u8, 117u8, 116u8, 108u8, 105u8, 110u8, 101u8, 115u8]
}

/// The number of the page with this object id (when several pages share
/// it, the last of them).
pub open spec fn page_number(pages: Seq<(u32, (u32, u16))>, id: (u32, u16)) -> Option<u32>
    decreases pages.len(),
{
    if pages.len() == 0 {
        None
    } else if pages.last().1 == id {
        Some(pages.last().0)
    } else {
        page_number(pages.drop_last(), id)
    }
}

/// The page of an explicit destination: an array whose first element refers
/// to a page.
pub open spec fn array_page(pages: Seq<(u32, (u32, u16))>, v: PdfValue) -> Option<u32> {
    match v {
        PdfValue::Array(items) => if items@.len() > 0 {
            match items@[0] {
                PdfValue::Reference(a, b) => page_number(pages, (a, b)),
                _ => None,
            }
        } else {
            None
        },
        _ => None,
    }
}

/// The page a destination leads to: an explicit destination, or a reference
/// to one (followed to an object that is no longer a reference). Named
/// destinations lead nowhere.
pub open spec fn destination_page(
    objs: Seq<((u32, u16), PdfValue)>,
    pages: Seq<(u32, (u32, u16))>,
    dest: PdfValue,
) -> Option<u32> {
    match dest {
        PdfValue::Reference(a, b) => match object_at(objs, (a, b)) {
            Some(o) => array_page(pages, o),
            None => None,
        },
        _ => array_page(pages, dest),
    }
}

/// The title of an outline item: its `Title` string, decoded, when not
/// empty.
pub open spec fn outline_title_of(d: Seq<(Vec<u8>, PdfValue)>) -> Option<Seq<char>> {
    match entry(d, key_title()) {
        Some(PdfValue::Text(bytes)) => if pdf_string_text(bytes@).len() > 0 {
            Some(pdf_string_text(bytes@))
        } else {
            None
        },
        _ => None,
    }
}

/// The action dictionary of an outline item: its `A` entry, inline or by
/// reference.
pub open spec fn action_of(objs: Seq<((u32, u16), PdfValue)>, a: Option<PdfValue>) -> Option<
    Seq<(Vec<u8>, PdfValue)>,
> {
    match a {
        Some(PdfValue::Reference(x, y)) => dictionary_at(objs, (x, y)),
        Some(PdfValue::Dictionary(d)) => Some(d@),
        _ => None,
    }
}

/// The page an outline item leads to: through its `Dest` entry when it has
/// one, else through the `D` entry of its action.
pub open spec fn outline_page_of(
    objs: Seq<((u32, u16), PdfValue)>,
    pages: Seq<(u32, (u32, u16))>,
    d: Seq<(Vec<u8>, PdfValue)>,
) -> Option<u32> {
    match entry(d, key_dest()) {
        Some(dest) => destination_page(objs, pages, dest),
        None => match action_of(objs, entry(d, key_action())) {
            Some(action) => match entry(action, key_action_dest()) {
                Some(dest) => destination_page(objs, pages, dest),
                None => None,
            },
            None => None,
        },
    }
}

/// The number of the page with this object id (see [`page_number`]).
pub fn page_number_for(pages: &[(u32, (u32, u16))], id: (u32, u16)) -> (r: Option<u32>)
    ensures
        r == page_number(pages@, id),
{
    let mut i: usize = pages.len();
    assert(pages@.take(i as int) =~= pages@);
    while i > 0
        invariant
            i <= pages@.len(),
            page_number(pages@, id) == page_number(pages@.take(i as int), id),
        decreases i,
    {
        proof {
            assert(pages@.take(i as int).drop_last() =~= pages@.take(i - 1));
            assert(pages@.take(i as int).last() == pages@[i - 1]);
        }
        i -= 1;
        if same_id(pages[i].1, id) {
            return Some(pages[i].0);
        }
    }
    proof {
        assert(pages@.take(0) =~= Seq::<(u32, (u32, u16))>::empty());
    }
    None
}

/// The page of an explicit destination (see [`array_page`]).
fn array_page_for(pages: &[(u32, (u32, u16))], v: &PdfValue) -> (r: Option<u32>)
    ensures
        r == array_page(pages@, *v),
{
    match v {
        PdfValue::Array(items) => {
            if items.len() > 0 {
                match &items[0] {
                    PdfValue::Reference(a, b) => page_number_for(pages, (*a, *b)),
                    _ => None,
                }
            } else {
                None
            }
        },
        _ => None,
    }
}

/// The page a destination leads to (see [`destination_page`]).
pub fn destination_page_for(
    objs: &[((u32, u16), PdfValue)],
    pages: &[(u32, (u32, u16))],
    dest: &PdfValue,
) -> (r: Option<u32>)
    ensures
        r == destination_page(objs@, pages@, *dest),
{
    match dest {
        PdfValue::Reference(a, b) => match object_with_id(objs, (*a, *b)) {
            Some(o) => array_page_for(pages, o),
            None => None,
        },
        _ => array_page_for(pages, dest),
    }
}

/// The title of an outline item (see [`outline_title_of`]).
pub fn outline_title(d: &[(Vec<u8>, PdfValue)]) -> (r: Option<String>)
    ensures
        match r {
            Some(t) => outline_title_of(d@) == Some(t@),
            None => outline_title_of(d@) is None,
        },
{
    let key: [u8; 5] = [84u8, 105u8, 116u8, 108u8, 101u8];
    assert(key@ =~= key_title());
    match entry_value(d, &key) {
        Some(PdfValue::Text(bytes)) => {
            let title = decode_pdf_string(bytes.as_slice());
            if title.as_str().unicode_len() > 0 {
                Some(title)
            } else {
                None
            }
        },
        _ => None,
    }
}

/// The page an outline item leads to (see [`outline_page_of`]).
pub fn outline_page_number(
    objs: &[((u32, u16), PdfValue)],
    pages: &[(u32, (u32, u16))],
    d: &[(Vec<u8>, PdfValue)],
) -> (r: Option<u32>)
    ensures
        r == outline_page_of(objs@, pages@, d@),
{
    let dest_key: [u8; 4] = [68u8, 101u8, 115u8, 116u8];
    let action_key: [u8; 1] = [65u8];
    let action_dest_key: [u8; 1] = [68u8];
    assert(dest_key@ =~= key_dest());
    assert(action_key@ =~= key_action());
    assert(action_dest_key@ =~= key_action_dest());
    if let Some(dest) = entry_value(d, &dest_key) {
        return destination_page_for(objs, pages, dest);
    }
    let action: &[(Vec<u8>, PdfValue)] = match entry_value(d, &action_key) {
        Some(PdfValue::Reference(x, y)) => match dictionary_with_id(objs, (*x, *y)) {
            Some(a) => a.as_slice(),
            None => {
                return None;
            },
        },
        Some(PdfValue::Dictionary(a)) => a.as_slice(),
        _ => {
            return None;
        },
    };
    match entry_value(action, &action_dest_key) {
        Some(dest) => destination_page_for(objs, pages, dest),
        None => None,
    }
}

// ---------------------------------------------------------------------------
// The walk over the outline

/// How many of the document's objects have an id that is not in `visited`.
pub open spec fn unvisited(objs: Seq<((u32, u16), PdfValue)>, visited: Seq<(u32, u16)>) -> nat
    decreases objs.len(),
{
    if objs.len() == 0 {
        0
    } else {
        unvisited(objs.drop_last(), visited) + if visited.contains(objs.last().0) {
            0nat
        } else {
            1nat
        }
    }
}

pub proof fn lemma_lookup_found(objs: Seq<((u32, u16), PdfValue)>, id: (u32, u16))
    requires
        lookup(objs, id) is Some,
    ensures
        exists|i: int| 0 <= i < objs.len() && objs[i].0 == id,
    decreases objs.len(),
{
    if objs[0].0 == id {
        assert(objs[0].0 == id);
    } else {
        lemma_lookup_found(objs.drop_first(), id);
        let i = choose|i: int| 0 <= i < objs.drop_first().len() && objs.drop_first()[i].0 == id;
        assert(objs[i + 1].0 == id);
    }
}

pub proof fn lemma_unvisited_shrinks(
    objs: Seq<((u32, u16), PdfValue)>,
    visited: Seq<(u32, u16)>,
    id: (u32, u16),
)
    ensures
        unvisited(objs, visited.push(id)) <= unvisited(objs, visited),
        !visited.contains(id) && (exists|i: int| 0 <= i < objs.len() && objs[i].0 == id)
            ==> unvisited(objs, visited.push(id)) < unvisited(objs, visited),
    decreases objs.len(),
{
    if objs.len() > 0 {
        lemma_unvisited_shrinks(objs.drop_last(), visited, id);
        let last = objs.last().0;
        assert(visited.push(id).contains(last) <==> (visited.contains(last) || last == id)) by {
            if visited.contains(last) {
                let k = choose|k: int| 0 <= k < visited.len() && visited[k] == last;
                assert(visited.push(id)[k] == last);
            }
            if last == id {
                assert(visited.push(id)[visited.len() as int] == last);
            }
            if visited.push(id).contains(last) {
                let k = choose|k: int| 0 <= k < visited.push(id).len() && visited.push(id)[k] == last;
                if k < visited.len() {
                    assert(visited[k] == last);
                }
            }
        }
        if !visited.contains(id) && (exists|i: int| 0 <= i < objs.len() && objs[i].0 == id) {
            let i = choose|i: int| 0 <= i < objs.len() && objs[i].0 == id;
            if i < objs.len() - 1 {
                assert(objs.drop_last()[i].0 == id);
            }
        }
    }
}

/// One pending entry of the walk: an outline item (or nothing) and the
/// level it sits at.
pub type Pending = (Option<(u32, u16)>, u8);

/// The level below `level` (capped at 255).
pub open spec fn deeper(level: u8) -> u8 {
    if level < 255 {
        (level + 1) as u8
    } else {
        255
    }
}

/// The section an outline item contributes, if it has a title and a page.
pub open spec fn item_section(
    objs: Seq<((u32, u16), PdfValue)>,
    pages: Seq<(u32, (u32, u16))>,
    starts: Seq<usize>,
    total: usize,
    d: Seq<(Vec<u8>, PdfValue)>,
    level: u8,
) -> Option<SectionModel> {
    match outline_title_of(d) {
        Some(title) => match outline_page_of(objs, pages, d) {
            Some(p) => Some(
                SectionModel { title, level, block_index: page_block(p, starts, total) as int },
            ),
            None => None,
        },
        None => None,
    }
}

/// The walk over the outline, depth first: the item on top of `pending` is
/// taken; an item seen before ends its chain of siblings; a new item adds its
/// section, then its children (one level deeper) are walked, then its next
/// sibling. `None` when an item is not a dictionary.
pub open spec fn walk(
    objs: Seq<((u32, u16), PdfValue)>,
    pages: Seq<(u32, (u32, u16))>,
    starts: Seq<usize>,
    total: usize,
    pending: Seq<Pending>,
    visited: Seq<(u32, u16)>,
    found: Seq<SectionModel>,
) -> Option<Seq<SectionModel>>
    decreases unvisited(objs, visited), pending.len(),
{
    if pending.len() == 0 {
        Some(found)
    } else {
        let (item, level) = pending.last();
        let rest = pending.drop_last();
        match item {
            None => walk(objs, pages, starts, total, rest, visited, found),
            Some(id) => if visited.contains(id) {
                walk(objs, pages, starts, total, rest, visited, found)
            } else {
                match dictionary_at(objs, id) {
                    None => None,
                    Some(d) => {
                        proof {
                            lemma_lookup_found(objs, id);
                            lemma_unvisited_shrinks(objs, visited, id);
                        }
                        let found2 = match item_section(objs, pages, starts, total, d, level) {
                            Some(sec) => found.push(sec),
                            None => found,
                        };
                        let next = reference_in(entry(d, key_next()));
                        let child = reference_in(entry(d, key_first()));
                        walk(
                            objs,
                            pages,
                            starts,
                            total,
                            rest.push((next, level)).push((child, deeper(level))),
                            visited.push(id),
                            found2,
                        )
                    },
                }
            },
        }
    }
}

/// Whether `id` is in `visited`.
fn seen_before(visited: &Vec<(u32, u16)>, id: (u32, u16)) -> (r: bool)
    ensures
        r == visited@.contains(id),
{
    let mut i: usize = 0;
    while i < visited.len()
        invariant
            i <= visited@.len(),
            forall|j: int| 0 <= j < i ==> visited@[j] != id,
        decreases visited@.len() - i,
    {
        if same_id(visited[i], id) {
            assert(visited@[i as int] == id);
            return true;
        }
        i += 1;
    }
    false
}

/// The sections of the outline that starts at item `first` (see [`walk`]);
/// `None` when an item is not a dictionary.
pub fn collect_outline_sections(
    graph: &PdfGraph,
    first: (u32, u16),
    page_block_starts: &[usize],
    total_blocks: usize,
) -> (r: Option<Vec<SectionStart>>)
    ensures
        match r {
            Some(s) => walk(
                graph.objects@,
                graph.pages@,
                page_block_starts@,
                total_blocks,
                seq![(Some(first), 1u8)],
                Seq::empty(),
                Seq::empty(),
            ) == Some(s.deep_view()),
            None => walk(
                graph.objects@,
                graph.pages@,
                page_block_starts@,
                total_blocks,
                seq![(Some(first), 1u8)],
                Seq::empty(),
                Seq::empty(),
            ) is None,
        },
{
    let objs = graph.objects.as_slice();
    let pages = graph.pages.as_slice();
    let mut pending: Vec<Pending> = Vec::new();
    pending.push((Some(first), 1u8));
    let mut visited: Vec<(u32, u16)> = Vec::new();
    let mut found: Vec<SectionStart> = Vec::new();
    let next_key: [u8; 4] = [78u8, 101u8, 120u8, 116u8];
    let first_key: [u8; 5] = [70u8, 105u8, 114u8, 115u8, 116u8];
    assert(next_key@ =~= key_next());
    assert(first_key@ =~= key_first());
    let ghost target = walk(
        objs@,
        pages@,
        page_block_starts@,
        total_blocks,
        pending@,
        visited@,
        found.deep_view(),
    );
    assert(pending@ =~= seq![(Some(first), 1u8)]);
    assert(found.deep_view() =~= Seq::<SectionModel>::empty());
    while pending.len() > 0
        invariant
            objs@ == graph.objects@,
            pages@ == graph.pages@,
            next_key@ == key_next(),
            first_key@ == key_first(),
            target == walk(
                graph.objects@,
                graph.pages@,
                page_block_starts@,
                total_blocks,
                seq![(Some(first), 1u8)],
                Seq::empty(),
                Seq::empty(),
            ),
            target == walk(
                objs@,
                pages@,
                page_block_starts@,
                total_blocks,
                pending@,
                visited@,
                found.deep_view(),
            ),
        decreases unvisited(objs@, visited@), pending@.len(),
    {
        let ghost before = pending@;
        let top = pending.pop();
        let (item, level) = match top {
            Some(t) => t,
            None => {
                return None;
            },
        };
        assert(pending@ == before.drop_last());
        if let Some(id) = item {
            if !seen_before(&visited, id) {
                let d = match dictionary_with_id(objs, id) {
                    Some(d) => d,
                    None => {
                        return None;
                    },
                };
                proof {
                    lemma_lookup_found(objs@, id);
                    lemma_unvisited_shrinks(objs@, visited@, id);
                }
                visited.push(id);
                if let Some(title) = outline_title(d.as_slice()) {
                    if let Some(p) = outline_page_number(objs, pages, d.as_slice()) {
                        let block_index = page_to_block_index(p, page_block_starts, total_blocks);
                        let ghost old_found = found.deep_view();
                        found.push(SectionStart { title, level, block_index });
                        assert(found.deep_view() =~= old_found.push(found.deep_view().last()));
                    }
                }
                let next = entry_reference(d.as_slice(), &next_key);
                let child = entry_reference(d.as_slice(), &first_key);
                let down: u8 = if level < 255 {
                    level + 1
                } else {
                    255
                };
                pending.push((next, level));
                pending.push((child, down));
            }
        }
    }
    Some(found)
}

/// The outline reached from the document catalog (the trailer's `Root`):
/// none when the catalog has no `Outlines` reference or the outline has no
/// `First` item; `None` when the catalog or the outline is not a
/// dictionary.
pub open spec fn outline_sections_of(g: PdfGraph, starts: Seq<usize>, total: usize) -> Option<
    Seq<SectionModel>,
> {
    let objs = g.objects@;
    match g.root {
        None => None,
        Some(root) => match dictionary_at(objs, root) {
            None => None,
            Some(catalog) => match reference_in(entry(catalog, key_outlines())) {
                None => Some(Seq::empty()),
                Some(oid) => match dictionary_at(objs, oid) {
                    None => None,
                    Some(outlines) => match reference_in(entry(outlines, key_first())) {
                        None => Some(Seq::empty()),
                        Some(first) => walk(
                            objs,
                            g.pages@,
                            starts,
                            total,
                            seq![(Some(first), 1u8)],
                            Seq::empty(),
                            Seq::empty(),
                        ),
                    },
                },
            },
        },
    }
}

/// The sections of a PDF document's outline (see [`outline_sections_of`]).
pub fn pdf_outline_sections(graph: &PdfGraph, page_block_starts: &[usize], total_blocks: usize) -> (r:
    Option<Vec<SectionStart>>)
    ensures
        match r {
            Some(s) => outline_sections_of(*graph, page_block_starts@, total_blocks) == Some(
                s.deep_view(),
            ),
            None => outline_sections_of(*graph, page_block_starts@, total_blocks) is None,
        },
{
    let outlines_key: [u8; 8] = [79u8, 117u8, 116u8, 108u8, 105u8, 110u8, 101u8, 115u8];
    let first_key: [u8; 5] = [70u8, 105u8, 114u8, 115u8, 116u8];
    assert(outlines_key@ =~= key_outlines());
    assert(first_key@ =~= key_first());
    let root = match graph.root {
        Some(root) => root,
        None => {
            return None;
        },
    };
    let catalog = match dictionary_with_id(graph.objects.as_slice(), root) {
        Some(c) => c,
        None => {
            return None;
        },
    };
    let outlines_id = match entry_reference(catalog.as_slice(), &outlines_key) {
        Some(id) => id,
        None => {
            let none: Vec<SectionStart> = Vec::new();
            assert(none.deep_view() =~= Seq::<SectionModel>::empty());
            return Some(none);
        },
    };
    let outlines = match dictionary_with_id(graph.objects.as_slice(), outlines_id) {
        Some(o) => o,
        None => {
            return None;
        },
    };
    match entry_reference(outlines.as_slice(), &first_key) {
        Some(first) => collect_outline_sections(graph, first, page_block_starts, total_blocks),
        None => {
            let none: Vec<SectionStart> = Vec::new();
            assert(none.deep_view() =~= Seq::<SectionModel>::empty());
            Some(none)
        },
    }
}

// ---------------------------------------------------------------------------
// Whole documents

/// Why a PDF document could not be read.
#[derive(Debug, Clone, Copy, PartialEq, Eq, Structural)]
pub enum PdfError {
    /// The text of the pages could not be extracted.
    Pages,
    /// The document could not be loaded for its outline, or its catalog or
    /// outline is broken.
    Outline,
}

/// Where each page's blocks begin, when the pages are read in order.
pub open spec fn page_starts(pages: Seq<Seq<char>>) -> Seq<usize> {
    Seq::new(pages.len(), |i: int| pages_blocks(pages.take(i)).len() as usize)
}

/// The sections of a PDF document: its outline, or, when the outline gives
/// none, the sections inferred from the pages.
pub open spec fn pdf_sections(
    outline: Seq<SectionModel>,
    pages: Seq<Seq<char>>,
    starts: Seq<usize>,
    total: usize,
) -> Seq<SectionModel> {
    if outline.len() > 0 {
        outline
    } else {
        inferred_sections(pages, starts, total)
    }
}

/// Whether `r` is the document made of the page texts `ps` and the snapshot
/// `graph`: the pages' blocks in order with the sections of
/// [`pdf_sections`], or [`PdfError::Outline`] exactly when the snapshot is
/// missing or its outline cannot be read.
pub open spec fn is_pdf_document(
    ps: Seq<Seq<char>>,
    graph: Option<PdfGraph>,
    r: Result<Document, PdfError>,
) -> bool {
    let blocks = pages_blocks(ps);
    let starts = page_starts(ps);
    match graph {
        None => r == Err::<Document, PdfError>(PdfError::Outline),
        Some(g) => match outline_sections_of(g, starts, blocks.len() as usize) {
            None => r == Err::<Document, PdfError>(PdfError::Outline),
            Some(o) => r matches Ok(d) && d.blocks.deep_view() == blocks && d.sections.deep_view()
                == pdf_sections(o, ps, starts, blocks.len() as usize),
        },
    }
}

/// A PDF document from the text of its pages and the snapshot of its object
/// graph (`None` when the document could not be loaded for it); see
/// [`is_pdf_document`].
pub fn pdf_document(pages: Vec<String>, graph: Option<PdfGraph>) -> (r: Result<Document, PdfError>)
    ensures
        is_pdf_document(texts(pages@), graph, r),
{
    let (blocks, starts) = blocks_from_pdf_pages(pages.as_slice());
    proof {
        assert(starts@ =~= page_starts(texts(pages@)));
    }
    let g = match graph {
        Some(g) => g,
        None => {
            return Err(PdfError::Outline);
        },
    };
    let outline = match pdf_outline_sections(&g, starts.as_slice(), blocks.len()) {
        Some(o) => o,
        None => {
            return Err(PdfError::Outline);
        },
    };
    let sections = if outline.len() > 0 {
        outline
    } else {
        infer_pdf_sections(pages.as_slice(), starts.as_slice(), blocks.len())
    };
    Ok(Document { blocks, sections })
}

/// What the PDF library's `Document::load_mem` yields for a file, as a
/// [`PdfGraph`]: the trailer's `Root` reference, the pages from
/// `get_pages` and every object; `None` when loading fails.
pub uninterp spec fn pdf_graph(bytes: Seq<u8>) -> Option<PdfGraph>;

/// `lopdf::Object` (re-exported by `pdf_extract`), carried opaquely into the
/// conversion below.
#[verifier::external_type_specification]
#[verifier::external_body]
pub struct ExPdfObject(pdf_extract::Object);

/// The conversion of one `lopdf` object into a [`PdfValue`], variant for
/// variant (references, strings, arrays and dictionaries with their
/// contents converted alike; everything else as `Other`). Used only by
/// [`load_pdf_graph`].
#[verifier::external_body]
fn pdf_value(o: &pdf_extract::Object) -> PdfValue {
    match o {
        pdf_extract::Object::Reference((n, g)) => PdfValue::Reference(*n, *g),
        pdf_extract::Object::String(bytes, _) => PdfValue::Text(bytes.clone()),
        pdf_extract::Object::Array(items) => PdfValue::Array(items.iter().map(pdf_value).collect()),
        pdf_extract::Object::Dictionary(d) => PdfValue::Dictionary(
            d.iter().map(|(k, v)| (k.clone(), pdf_value(v))).collect(),
        ),
        _ => PdfValue::Other,
    }
}

/// `lopdf::Document::load_mem` (as `pdf_extract::Document`), read into a
/// [`PdfGraph`]: named [`pdf_graph`] of the bytes. The loader reports
/// malformed files as errors (`None` here) and checks offsets before slicing
/// the buffer; that it returns on every input is taken from that reading of
/// its source, not proved.
#[verifier::external_body]
fn load_pdf_graph(bytes: &[u8]) -> (r: Option<PdfGraph>)
    ensures
        r == pdf_graph(bytes@),
{
    let doc = pdf_extract::Document::load_mem(bytes).ok()?;
    let root = doc.trailer.get(b"Root").and_then(pdf_extract::Object::as_reference).ok();
    let pages = doc.get_pages().into_iter().collect();
    let mut objects = Vec::new();
    for (id, o) in doc.objects.iter() {
        objects.push((*id, pdf_value(o)));
    }
    Some(PdfGraph { root, pages, objects })
}

/// Reads a PDF file from its bytes and the text of its pages, which the
/// caller extracted beforehand (`None` when that failed): without page text
/// it fails with [`PdfError::Pages`]; otherwise the document is loaded for
/// its outline (see [`is_pdf_document`]).
pub fn parse_pdf(bytes: &[u8], pages: Option<Vec<String>>) -> (r: Result<Document, PdfError>)
    ensures
        match pages {
            None => r == Err::<Document, PdfError>(PdfError::Pages),
            Some(p) => is_pdf_document(texts(p@), pdf_graph(bytes@), r),
        },
{
    let pages = match pages {
        Some(p) => p,
        None => {
            return Err(PdfError::Pages);
        },
    };
    let graph = load_pdf_graph(bytes);
    pdf_document(pages, graph)
}

/// Every section points at a block of a document with `total` blocks (at 0
/// when there are none).
pub open spec fn sections_within(secs: Seq<SectionModel>, total: usize) -> bool {
    forall|k: int|
        0 <= k < secs.len() ==> 0 <= #[trigger] secs[k].block_index && (total > 0
            ==> secs[k].block_index < total) && (total == 0 ==> secs[k].block_index == 0)
}

proof fn lemma_page_block_within(p: u32, starts: Seq<usize>, total: usize)
    ensures
        total > 0 ==> page_block(p, starts, total) < total,
        total == 0 ==> page_block(p, starts, total) == 0,
{
}

proof fn lemma_walk_within(
    objs: Seq<((u32, u16), PdfValue)>,
    pages: Seq<(u32, (u32, u16))>,
    starts: Seq<usize>,
    total: usize,
    pending: Seq<Pending>,
    visited: Seq<(u32, u16)>,
    found: Seq<SectionModel>,
)
    requires
        sections_within(found, total),
    ensures
        walk(objs, pages, starts, total, pending, visited, found) matches Some(r) ==> sections_within(
            r,
            total,
        ),
    decreases unvisited(objs, visited), pending.len(),
{
    if pending.len() > 0 {
        let (item, level) = pending.last();
        let rest = pending.drop_last();
        match item {
            None => lemma_walk_within(objs, pages, starts, total, rest, visited, found),
            Some(id) => if visited.contains(id) {
                lemma_walk_within(objs, pages, starts, total, rest, visited, found)
            } else {
                match dictionary_at(objs, id) {
                    None => {},
                    Some(d) => {
                        lemma_lookup_found(objs, id);
                        lemma_unvisited_shrinks(objs, visited, id);
                        let found2 = match item_section(objs, pages, starts, total, d, level) {
                            Some(sec) => found.push(sec),
                            None => found,
                        };
                        if let Some(p) = outline_page_of(objs, pages, d) {
                            lemma_page_block_within(p, starts, total);
                        }
                        assert(sections_within(found2, total));
                        let next = reference_in(entry(d, key_next()));
                        let child = reference_in(entry(d, key_first()));
                        lemma_walk_within(
                            objs,
                            pages,
                            starts,
                            total,
                            rest.push((next, level)).push((child, deeper(level))),
                            visited.push(id),
                            found2,
                        );
                    },
                }
            },
        }
    }
}

proof fn lemma_inferred_within(pages: Seq<Seq<char>>, starts: Seq<usize>, total: usize)
    ensures
        sections_within(inferred_sections(pages, starts, total), total),
    decreases pages.len(),
{
    if pages.len() > 0 {
        lemma_inferred_within(pages.drop_last(), starts, total);
        lemma_page_block_within(pages.len() as u32, starts, total);
    }
}

/// Every section of a PDF document, from its outline or inferred from its
/// pages, points at one of the document's blocks.
pub proof fn law_pdf_sections_point_into_document(
    ps: Seq<Seq<char>>,
    graph: Option<PdfGraph>,
    r: Result<Document, PdfError>,
)
    requires
        is_pdf_document(ps, graph, r),
        pages_blocks(ps).len() <= usize::MAX,
    ensures
        r matches Ok(d) ==> sections_within(d.sections.deep_view(), d.blocks@.len() as usize),
{
    let total = pages_blocks(ps).len() as usize;
    let starts = page_starts(ps);
    if let Some(g) = graph {
        if let Some(root) = g.root {
            if let Some(catalog) = dictionary_at(g.objects@, root) {
                if let Some(oid) = reference_in(entry(catalog, key_outlines())) {
                    if let Some(outlines) = dictionary_at(g.objects@, oid) {
                        if let Some(first) = reference_in(entry(outlines, key_first())) {
                            lemma_walk_within(
                                g.objects@,
                                g.pages@,
                                starts,
                                total,
                                seq![(Some(first), 1u8)],
                                Seq::empty(),
                                Seq::empty(),
                            );
                        }
                    }
                }
            }
        }
    }
    lemma_inferred_within(ps, starts, total);
    if let Ok(d) = r {
        assert(d.blocks.deep_view().len() == d.blocks@.len());
    }
}

} // verus!
