//! Joining pieces of text with a separator.

use vstd::prelude::*;

verus! {

/// The pieces in order, with `sep` between neighbours: nothing before the first
/// piece and nothing after the last one.
pub open spec fn joined(parts: Seq<Seq<char>>, sep: Seq<char>) -> Seq<char>
    decreases parts.len(),
{
    if parts.len() == 0 {
        Seq::empty()
    } else if parts.len() == 1 {
        parts[0]
    } else {
        joined(parts.drop_last(), sep) + sep + parts.last()
    }
}

/// The views of a sequence of strings.
pub open spec fn views_of(parts: Seq<String>) -> Seq<Seq<char>> {
    parts.map_values(|s: String| s@)
}

/// Joining two non-empty runs separately and putting the separator between the
/// results is the same as joining the two runs as one.
pub proof fn lemma_joined_concat(a: Seq<Seq<char>>, b: Seq<Seq<char>>, sep: Seq<char>)
    requires
        a.len() > 0,
        b.len() > 0,
    ensures
        joined(a + b, sep) == joined(a, sep) + sep + joined(b, sep),
    decreases b.len(),
{
    let ab = a + b;
    assert(ab.len() >= 2);
    assert(ab.last() == b.last());
    if b.len() == 1 {
        assert(ab.drop_last() =~= a);
        assert(joined(b, sep) == b[0]);
    } else {
        assert(ab.drop_last() =~= a + b.drop_last());
        lemma_joined_concat(a, b.drop_last(), sep);
        assert(joined(ab, sep) =~= joined(a, sep) + sep + joined(b, sep));
    }
}

/// Joins `parts` with `sep`.
pub fn join_strings(parts: &Vec<String>, sep: &str) -> (out: String)
    ensures
        out@ == joined(views_of(parts@), sep@),
{
    let mut out = String::new();
    let mut i: usize = 0;
    while i < parts.len()
        invariant
            i <= parts.len(),
            out@ == joined(views_of(parts@).take(i as int), sep@),
        decreases parts.len() - i,
    {
        let ghost all = views_of(parts@);
        let ghost before = all.take(i as int);
        let ghost after = all.take(i + 1);
        proof {
            assert(after.drop_last() =~= before);
            assert(after.last() == parts@[i as int]@);
        }
        if i > 0 {
            out.append(sep);
        }
        out.append(parts[i].as_str());
        proof {
            if i == 0 {
                assert(out@ =~= after[0]);
            } else {
                assert(out@ =~= joined(before, sep@) + sep@ + after.last());
            }
        }
        i += 1;
    }
    proof {
        assert(views_of(parts@).take(parts.len() as int) =~= views_of(parts@));
    }
    out
}

/// The view of a string that may be missing.
pub open spec fn text_of(text: Option<String>) -> Option<Seq<char>> {
    match text {
        Some(s) => Some(s@),
        None => None,
    }
}

/// Whether two strings that may be missing are the same: both missing, or both
/// there with the same characters.
pub fn same_text(a: &Option<String>, b: &Option<String>) -> (same: bool)
    ensures
        same == (text_of(*a) == text_of(*b)),
{
    match a {
        Some(x) => match b {
            Some(y) => *x == *y,
            None => false,
        },
        None => match b {
            Some(_) => false,
            None => true,
        },
    }
}

/// A copy of a string that may be missing.
pub fn copy_text(text: &Option<String>) -> (copy: Option<String>)
    ensures
        text_of(copy) == text_of(*text),
{
    match text {
        Some(s) => Some(s.clone()),
        None => None,
    }
}

/// `text` without the occurrences of `pattern`, found from the front and one
/// behind the other. An empty pattern occurs nowhere.
pub open spec fn without(text: Seq<char>, pattern: Seq<char>) -> Seq<char>
    decreases text.len(),
{
    if pattern.len() == 0 || text.len() < pattern.len() {
        text
    } else if text.take(pattern.len() as int) == pattern {
        without(text.skip(pattern.len() as int), pattern)
    } else {
        seq![text[0]] + without(text.skip(1), pattern)
    }
}

/// Whether `pattern` stands in `text` at index `at`.
pub open spec fn occurs_at(text: Seq<char>, pattern: Seq<char>, at: int) -> bool {
    0 <= at && at + pattern.len() <= text.len() && text.subrange(at, at + pattern.len()) == pattern
}

/// Tests [`occurs_at`].
fn has_at(text: &str, pattern: &str, at: usize) -> (found: bool)
    requires
        at <= text@.len(),
    ensures
        found == occurs_at(text@, pattern@, at as int),
{
    let n: usize = text.unicode_len();
    let m: usize = pattern.unicode_len();
    if m > n - at {
        return false;
    }
    let mut k: usize = 0;
    while k < m
        invariant
            k <= m,
            m == pattern@.len(),
            n == text@.len(),
            at + m <= n,
            forall|j: int| 0 <= j < k ==> text@[at + j] == pattern@[j],
        decreases m - k,
    {
        if text.get_char(at + k) != pattern.get_char(k) {
            proof {
                assert(text@.subrange(at as int, at + m)[k as int] == text@[at + k]);
            }
            return false;
        }
        k += 1;
    }
    proof {
        assert(text@.subrange(at as int, at + m) =~= pattern@);
    }
    true
}

/// Removes the occurrences of `pattern` from `text`: [`without`].
pub fn remove_all(text: &str, pattern: &str) -> (out: String)
    ensures
        out@ == without(text@, pattern@),
{
    let n: usize = text.unicode_len();
    let m: usize = pattern.unicode_len();
    if m == 0 {
        return text.to_owned();
    }
    let mut out = String::new();
    let mut i: usize = 0;
    proof {
        assert(text@.skip(0) =~= text@);
    }
    while i < n
        invariant
            i <= n,
            n == text@.len(),
            m == pattern@.len(),
            m > 0,
            out@ + without(text@.skip(i as int), pattern@) == without(text@, pattern@),
        decreases n - i,
    {
        let ghost rest = text@.skip(i as int);
        if has_at(text, pattern, i) {
            proof {
                assert(rest.take(m as int) =~= text@.subrange(i as int, i + m));
                assert(rest.skip(m as int) =~= text@.skip(i + m));
            }
            i += m;
        } else {
            proof {
                if rest.len() >= m {
                    assert(rest.take(m as int) =~= text@.subrange(i as int, i + m));
                }
            }
            let piece = text.substring_char(i, i + 1);
            let ghost before = out@;
            out.append(piece);
            proof {
                assert(piece@ =~= seq![rest[0]]);
                assert(rest.skip(1) =~= text@.skip(i + 1));
                if rest.len() >= m {
                    assert(before + (seq![rest[0]] + without(rest.skip(1), pattern@)) =~= out@
                        + without(text@.skip(i + 1), pattern@));
                } else {
                    lemma_without_short(rest, pattern@);
                    lemma_without_short(rest.skip(1), pattern@);
                    assert(before + rest =~= out@ + rest.skip(1));
                }
            }
            i += 1;
        }
    }
    proof {
        assert(text@.skip(n as int) =~= Seq::<char>::empty());
        assert(out@ + Seq::<char>::empty() =~= out@);
    }
    out
}

/// A text that is shorter than the pattern is left as it is.
proof fn lemma_without_short(text: Seq<char>, pattern: Seq<char>)
    requires
        text.len() < pattern.len(),
    ensures
        without(text, pattern) == text,
{
}

} // verus!
