//! Display-width helpers and the cleaning pass that every extracted piece of
//! text goes through before it becomes a block.

use vstd::prelude::*;
use crate::chars::{chars_of, is_space, is_space_char, string_of};

verus! {

/// The ellipsis that marks a cut.
pub open spec fn ellipsis() -> char {
    '\u{2026}'
}

/// At most `max` characters of `s`; when `s` is longer, its first `max - 1`
/// characters followed by `…`.
pub open spec fn truncated_end(s: Seq<char>, max: nat) -> Seq<char> {
    if max == 0 {
        Seq::empty()
    } else if s.len() <= max {
        s
    } else {
        s.take(max - 1).push(ellipsis())
    }
}

/// At most `max` characters of `s`; when `s` is longer, `…` followed by its
/// last `max - 1` characters.
pub open spec fn truncated_start(s: Seq<char>, max: nat) -> Seq<char> {
    if max == 0 {
        Seq::empty()
    } else if s.len() <= max {
        s
    } else {
        seq![ellipsis()] + s.skip(s.len() - (max - 1))
    }
}

/// Returns a string of at most `max` characters. When truncated, the last
/// character is replaced by `…`.
pub fn truncate_end(s: &str, max: usize) -> (r: String)
    ensures
        r@ == truncated_end(s@, max as nat),
        r@.len() <= max,
        s@.len() <= max ==> r@ == s@,
{
    if max == 0 {
        return string_of(&[]);
    }
    let cs = chars_of(s);
    if cs.len() <= max {
        return string_of(cs.as_slice());
    }
    let keep = max - 1;
    let mut out: Vec<char> = Vec::new();
    let mut i: usize = 0;
    while i < keep
        invariant
            keep < cs@.len(),
            i <= keep,
            out@ == cs@.take(i as int),
        decreases keep - i,
    {
        out.push(cs[i]);
        i += 1;
        assert(out@ =~= cs@.take(i as int));
    }
    out.push('\u{2026}');
    string_of(out.as_slice())
}

/// Returns a string of at most `max` characters. When truncated, the first
/// character is replaced by `…` and the tail is preserved.
pub fn truncate_start(s: &str, max: usize) -> (r: String)
    ensures
        r@ == truncated_start(s@, max as nat),
        r@.len() <= max,
        s@.len() <= max ==> r@ == s@,
{
    if max == 0 {
        return string_of(&[]);
    }
    let cs = chars_of(s);
    let n = cs.len();
    if n <= max {
        return string_of(cs.as_slice());
    }
    let skip = n - (max - 1);
    let mut out: Vec<char> = Vec::new();
    out.push('\u{2026}');
    let mut i: usize = skip;
    while i < n
        invariant
            n == cs@.len(),
            skip <= i <= n,
            out@ == seq!['\u{2026}'] + cs@.subrange(skip as int, i as int),
        decreases n - i,
    {
        out.push(cs[i]);
        i += 1;
        assert(out@ =~= seq!['\u{2026}'] + cs@.subrange(skip as int, i as int));
    }
    assert(cs@.subrange(skip as int, n as int) =~= cs@.skip(skip as int));
    string_of(out.as_slice())
}

/// Characters that carry no visible text and are removed outright: zero-width
/// space, non-joiner and joiner, word joiner, byte order mark, soft hyphen,
/// and carriage return (so Windows line endings read as plain newlines).
pub open spec fn is_invisible(c: char) -> bool {
    ||| c == '\u{200b}'
    ||| c == '\u{200c}'
    ||| c == '\u{200d}'
    ||| c == '\u{2060}'
    ||| c == '\u{feff}'
    ||| c == '\u{ad}'
    ||| c == '\r'
}

pub(crate) fn is_invisible_char(c: char) -> (b: bool)
    ensures
        b == is_invisible(c),
{
    c == '\u{200b}' || c == '\u{200c}' || c == '\u{200d}' || c == '\u{2060}' || c == '\u{feff}'
        || c == '\u{ad}' || c == '\r'
}

/// The cleaned form of `s`, given whether the text already emitted ends in a
/// collapsed space: invisible characters vanish, newlines are kept, and every
/// other run of whitespace becomes one space.
pub open spec fn sanitized_from(s: Seq<char>, after_space: bool) -> Seq<char>
    decreases s.len(),
{
    if s.len() == 0 {
        Seq::empty()
    } else {
        let c = s[0];
        let rest = s.drop_first();
        if is_invisible(c) {
            sanitized_from(rest, after_space)
        } else if c == '\n' {
            seq!['\n'] + sanitized_from(rest, false)
        } else if is_space(c) {
            if after_space {
                sanitized_from(rest, true)
            } else {
                seq![' '] + sanitized_from(rest, true)
            }
        } else {
            seq![c] + sanitized_from(rest, false)
        }
    }
}

/// The cleaned form of `s` (see [`sanitized_from`]).
pub open spec fn sanitized(s: Seq<char>) -> Seq<char> {
    sanitized_from(s, false)
}

/// Removes invisible characters and collapses runs of spaces and tabs into a
/// single space, keeping line breaks, so that paragraph splitting still works
/// on the result.
pub fn sanitize_chars(s: &[char]) -> (r: Vec<char>)
    ensures
        r@ == sanitized(s@),
{
    let n = s.len();
    let mut out: Vec<char> = Vec::new();
    let mut after_space = false;
    let mut i: usize = 0;
    assert(s@.skip(0) =~= s@);
    assert(out@ + sanitized(s@) =~= sanitized(s@));
    while i < n
        invariant
            n == s@.len(),
            i <= n,
            out@ + sanitized_from(s@.skip(i as int), after_space) == sanitized(s@),
        decreases n - i,
    {
        let c = s[i];
        let ghost rest = s@.skip(i as int);
        proof {
            assert(rest[0] == c);
            assert(rest.drop_first() =~= s@.skip(i + 1));
        }
        if is_invisible_char(c) {
        } else if c == '\n' {
            assert(out@ + (seq!['\n'] + sanitized_from(rest.drop_first(), false)) =~= out@.push('\n')
                + sanitized_from(rest.drop_first(), false));
            out.push('\n');
            after_space = false;
        } else if is_space_char(c) {
            if !after_space {
                assert(out@ + (seq![' '] + sanitized_from(rest.drop_first(), true)) =~= out@.push(
                    ' ',
                ) + sanitized_from(rest.drop_first(), true));
                out.push(' ');
                after_space = true;
            }
        } else {
            assert(out@ + (seq![c] + sanitized_from(rest.drop_first(), false)) =~= out@.push(c)
                + sanitized_from(rest.drop_first(), false));
            out.push(c);
            after_space = false;
        }
        i += 1;
    }
    assert(s@.skip(n as int).len() == 0);
    assert(out@ + Seq::<char>::empty() =~= out@);
    out
}

/// [`sanitize_chars`] on a string.
pub fn sanitize(s: &str) -> (r: String)
    ensures
        r@ == sanitized(s@),
{
    let cs = chars_of(s);
    let out = sanitize_chars(cs.as_slice());
    string_of(out.as_slice())
}

proof fn lemma_sanitized_from_idempotent(s: Seq<char>, after_space: bool)
    ensures
        sanitized_from(sanitized_from(s, after_space), after_space) == sanitized_from(s, after_space),
    decreases s.len(),
{
    if s.len() > 0 {
        let c = s[0];
        let rest = s.drop_first();
        if is_invisible(c) {
            lemma_sanitized_from_idempotent(rest, after_space);
        } else if c == '\n' {
            lemma_sanitized_from_idempotent(rest, false);
            let x = sanitized_from(rest, false);
            assert((seq!['\n'] + x)[0] == '\n');
            assert((seq!['\n'] + x).drop_first() =~= x);
        } else if is_space(c) {
            lemma_sanitized_from_idempotent(rest, true);
            if !after_space {
                let x = sanitized_from(rest, true);
                assert((seq![' '] + x)[0] == ' ');
                assert((seq![' '] + x).drop_first() =~= x);
            }
        } else {
            lemma_sanitized_from_idempotent(rest, false);
            let x = sanitized_from(rest, false);
            assert((seq![c] + x)[0] == c);
            assert((seq![c] + x).drop_first() =~= x);
        }
    }
}

/// Cleaning text twice gives what cleaning it once gives.
pub proof fn law_sanitize_is_idempotent(s: Seq<char>)
    ensures
        sanitized(sanitized(s)) == sanitized(s),
{
    lemma_sanitized_from_idempotent(s, false);
}

} // verus!
