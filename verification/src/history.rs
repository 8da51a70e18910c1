//! What the reader remembers between sessions: the most recently opened
//! files, newest first, each at most once.

use vstd::prelude::*;
use crate::chars::string_of;

verus! {

/// How many recent files are remembered.
pub const RECENT_LIMIT: usize = 12;

/// The paths of `ps` other than `key`, in their order.
pub open spec fn without_path(ps: Seq<Seq<char>>, key: Seq<char>) -> Seq<Seq<char>>
    decreases ps.len(),
{
    if ps.len() == 0 {
        Seq::empty()
    } else {
        let r = without_path(ps.drop_last(), key);
        if ps.last() == key {
            r
        } else {
            r.push(ps.last())
        }
    }
}

/// The recent list after `key` was opened: `key` first, then the others in
/// their order, cut to [`RECENT_LIMIT`] entries.
pub open spec fn promoted(ps: Seq<Seq<char>>, key: Seq<char>) -> Seq<Seq<char>> {
    let all = seq![key] + without_path(ps, key);
    if all.len() > RECENT_LIMIT {
        all.take(RECENT_LIMIT as int)
    } else {
        all
    }
}

/// Moves `key` to the front of the recent list (adding it if it is new) and
/// forgets what falls beyond [`RECENT_LIMIT`].
pub fn promote_recent_path(paths: &mut Vec<String>, key: String)
    ensures
        final(paths).deep_view() == promoted(old(paths).deep_view(), key@),
{
    let ghost ps = paths.deep_view();
    let mut rest: Vec<String> = Vec::new();
    let mut i: usize = 0;
    while i < paths.len()
        invariant
            ps == paths.deep_view(),
            i <= paths.len(),
            rest.deep_view() == without_path(ps.take(i as int), key@),
        decreases paths.len() - i,
    {
        proof {
            assert(ps.take(i + 1).drop_last() =~= ps.take(i as int));
            assert(ps.take(i + 1).last() == paths[i as int]@);
        }
        if !(paths[i] == key) {
            let ghost before = rest.deep_view();
            rest.push(paths[i].clone());
            proof {
                assert(rest.deep_view() =~= before.push(paths[i as int]@));
            }
        }
        i += 1;
    }
    proof {
        assert(ps.take(i as int) =~= ps);
    }
    let ghost kept = rest.deep_view();
    let mut out: Vec<String> = Vec::new();
    out.push(key);
    out.append(&mut rest);
    proof {
        assert(out.deep_view() =~= seq![key@] + kept);
    }
    if out.len() > RECENT_LIMIT {
        let ghost whole = out.deep_view();
        out.truncate(RECENT_LIMIT);
        proof {
            assert(out.deep_view() =~= whole.take(RECENT_LIMIT as int));
        }
    }
    *paths = out;
}

proof fn lemma_without_excludes(ps: Seq<Seq<char>>, key: Seq<char>)
    ensures
        forall|j: int| 0 <= j < without_path(ps, key).len() ==> without_path(ps, key)[j] != key,
        without_path(ps, key).len() <= ps.len(),
    decreases ps.len(),
{
    if ps.len() > 0 {
        lemma_without_excludes(ps.drop_last(), key);
    }
}

proof fn lemma_without_absent(ps: Seq<Seq<char>>, key: Seq<char>)
    requires
        forall|j: int| 0 <= j < ps.len() ==> ps[j] != key,
    ensures
        without_path(ps, key) == ps,
    decreases ps.len(),
{
    if ps.len() > 0 {
        lemma_without_absent(ps.drop_last(), key);
        assert(ps.drop_last().push(ps.last()) =~= ps);
    }
}

proof fn lemma_without_after_key(ps: Seq<Seq<char>>, key: Seq<char>)
    ensures
        without_path(seq![key] + ps, key) == without_path(ps, key),
    decreases ps.len(),
{
    if ps.len() == 0 {
        assert(seq![key] + ps =~= seq![key]);
        assert(seq![key].drop_last() =~= Seq::<Seq<char>>::empty());
        assert(without_path(seq![key].drop_last(), key) == Seq::<Seq<char>>::empty());
        assert(without_path(seq![key], key) == Seq::<Seq<char>>::empty());
    } else {
        let whole = seq![key] + ps;
        assert(whole.drop_last() =~= seq![key] + ps.drop_last());
        assert(whole.last() == ps.last());
        lemma_without_after_key(ps.drop_last(), key);
    }
}

/// After a file is opened it heads the recent list, appears there only once,
/// and the list holds at most [`RECENT_LIMIT`] entries.
pub proof fn law_promoted_file_leads(ps: Seq<Seq<char>>, key: Seq<char>)
    ensures
        promoted(ps, key).len() >= 1,
        promoted(ps, key)[0] == key,
        promoted(ps, key).len() <= RECENT_LIMIT,
        forall|j: int| 1 <= j < promoted(ps, key).len() ==> promoted(ps, key)[j] != key,
{
    lemma_without_excludes(ps, key);
    let all = seq![key] + without_path(ps, key);
    assert forall|j: int| 1 <= j < promoted(ps, key).len() implies promoted(ps, key)[j] != key by {
        assert(promoted(ps, key)[j] == all[j]);
        assert(all[j] == without_path(ps, key)[j - 1]);
    }
}

/// Opening the same file twice in a row leaves the recent list as one
/// opening did.
pub proof fn law_promote_twice(ps: Seq<Seq<char>>, key: Seq<char>)
    ensures
        promoted(promoted(ps, key), key) == promoted(ps, key),
{
    let w = without_path(ps, key);
    lemma_without_excludes(ps, key);
    let tail = if w.len() > RECENT_LIMIT - 1 {
        w.take(RECENT_LIMIT - 1)
    } else {
        w
    };
    let p = promoted(ps, key);
    assert(p =~= seq![key] + tail);
    lemma_without_after_key(tail, key);
    lemma_without_absent(tail, key);
    assert(without_path(p, key) == tail);
    assert(seq![key] + tail =~= p);
}

/// Opening a file keeps the other remembered files in their order, after it.
pub proof fn law_promote_keeps_order(ps: Seq<Seq<char>>, key: Seq<char>)
    ensures
        promoted(ps, key).drop_first() =~= without_path(ps, key).take(
            promoted(ps, key).len() - 1,
        ),
{
    lemma_without_excludes(ps, key);
}

/// Whether a path differs from `key`.
pub open spec fn other_than(key: Seq<char>) -> spec_fn(Seq<char>) -> bool {
    |p: Seq<char>| p != key
}

proof fn lemma_without_is_filter(ps: Seq<Seq<char>>, key: Seq<char>)
    ensures
        without_path(ps, key) == ps.filter(other_than(key)),
    decreases ps.len(),
{
    reveal_with_fuel(Seq::filter, 1);
    if ps.len() > 0 {
        lemma_without_is_filter(ps.drop_last(), key);
    }
}

proof fn lemma_without_from(ps: Seq<Seq<char>>, key: Seq<char>)
    ensures
        forall|j: int| 0 <= j < without_path(ps, key).len() ==> ps.contains(
            #[trigger] without_path(ps, key)[j],
        ),
    decreases ps.len(),
{
    if ps.len() > 0 {
        let rest = ps.drop_last();
        lemma_without_from(rest, key);
        let w = without_path(ps, key);
        assert forall|j: int| 0 <= j < w.len() implies ps.contains(#[trigger] w[j]) by {
            if j < without_path(rest, key).len() {
                let x = without_path(rest, key)[j];
                assert(w[j] == x);
                let k = choose|k: int| 0 <= k < rest.len() && rest[k] == x;
                assert(ps[k] == x);
            } else {
                assert(w[j] == ps.last());
                assert(ps[ps.len() - 1] == ps.last());
            }
        }
    }
}

proof fn lemma_without_distinct(ps: Seq<Seq<char>>, key: Seq<char>)
    requires
        ps.no_duplicates(),
    ensures
        without_path(ps, key).no_duplicates(),
    decreases ps.len(),
{
    if ps.len() > 0 {
        let rest = ps.drop_last();
        assert(rest.no_duplicates());
        lemma_without_distinct(rest, key);
        lemma_without_from(rest, key);
        let wr = without_path(rest, key);
        if ps.last() != key {
            assert forall|j: int| 0 <= j < wr.len() implies wr[j] != ps.last() by {
                let k = choose|k: int| 0 <= k < rest.len() && rest[k] == wr[j];
                assert(ps[k] == rest[k]);
                assert(ps[ps.len() - 1] == ps.last());
            }
        }
    }
}

/// A recent list without repeated paths stays without repeated paths after a
/// file is opened.
pub proof fn law_promote_keeps_files_distinct(ps: Seq<Seq<char>>, key: Seq<char>)
    requires
        ps.no_duplicates(),
    ensures
        promoted(ps, key).no_duplicates(),
{
    lemma_without_distinct(ps, key);
    lemma_without_excludes(ps, key);
    let all = seq![key] + without_path(ps, key);
    assert(all.no_duplicates()) by {
        assert forall|i: int, j: int|
            0 <= i < all.len() && 0 <= j < all.len() && i != j implies all[i] != all[j] by {
            if i > 0 && j > 0 {
                assert(all[i] == without_path(ps, key)[i - 1]);
                assert(all[j] == without_path(ps, key)[j - 1]);
            } else if i == 0 {
                assert(all[j] == without_path(ps, key)[j - 1]);
            } else {
                assert(all[i] == without_path(ps, key)[i - 1]);
            }
        }
    }
}

/// The recent list after opening `key` is `key` followed by the remembered
/// paths other than `key`, in their order, cut to [`RECENT_LIMIT`] entries.
pub proof fn law_promoted_is_key_then_others(ps: Seq<Seq<char>>, key: Seq<char>)
    ensures
        ({
            let all = seq![key] + ps.filter(other_than(key));
            promoted(ps, key) == all.take(
                if all.len() > RECENT_LIMIT {
                    RECENT_LIMIT as int
                } else {
                    all.len() as int
                },
            )
        }),
{
    lemma_without_is_filter(ps, key);
    let all = seq![key] + ps.filter(other_than(key));
    assert(all.take(all.len() as int) =~= all);
}

/// What `Path::file_name` gives for a path: its last component, unless the
/// path ends in `..` or is a root.
pub uninterp spec fn path_file_name(path: Seq<char>) -> Option<Seq<char>>;

/// `std::path::Path::file_name` on a path given as text: named
/// [`path_file_name`] of the path.
#[verifier::external_body]
fn file_name_of(path: &str) -> (r: Option<String>)
    ensures
        match r {
            Some(n) => path_file_name(path@) == Some(n@),
            None => path_file_name(path@) is None,
        },
{
    std::path::Path::new(path).file_name().and_then(|n| n.to_str()).map(|n| n.to_string())
}

/// What `Path::parent` gives for a path, shown as text: the path without its
/// last component, unless the path is a root or empty.
pub uninterp spec fn path_parent(path: Seq<char>) -> Option<Seq<char>>;

/// `std::path::Path::parent` on a path given as text, displayed: named
/// [`path_parent`] of the path.
#[verifier::external_body]
fn parent_of(path: &str) -> (r: Option<String>)
    ensures
        match r {
            Some(p) => path_parent(path@) == Some(p@),
            None => path_parent(path@) is None,
        },
{
    std::path::Path::new(path).parent().map(|p| p.display().to_string())
}

/// A recently read file and the position reached in it.
pub struct RecentFile {
    pub path: String,
    pub index: usize,
}

impl RecentFile {
    /// The file's name, or `?` when the path has none.
    pub fn file_name(&self) -> (r: String)
        ensures
            r@ == match path_file_name(self.path@) {
                Some(n) => n,
                None => seq!['?'],
            },
    {
        match file_name_of(self.path.as_str()) {
            Some(n) => n,
            None => {
                let q = ['?'];
                assert(q@ =~= seq!['?']);
                string_of(&q)
            },
        }
    }

    /// The directory the file is in, or `—` when the path has none.
    pub fn parent_display(&self) -> (r: String)
        ensures
            r@ == match path_parent(self.path@) {
                Some(p) => p,
                None => seq!['\u{2014}'],
            },
    {
        match parent_of(self.path.as_str()) {
            Some(p) => p,
            None => {
                let dash = ['\u{2014}'];
                assert(dash@ =~= seq!['\u{2014}']);
                string_of(&dash)
            },
        }
    }
}

} // verus!
