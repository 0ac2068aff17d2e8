//! Small operations on text, specified over sequences of characters.

use vstd::prelude::*;

verus! {

/// `text` with every occurrence of `pattern` replaced by `with`, scanning from
/// the left and resuming after each replaced occurrence. An empty pattern
/// occurs nowhere.
pub open spec fn replaced(text: Seq<char>, pattern: Seq<char>, with: Seq<char>) -> Seq<char>
    decreases text.len(),
{
    if pattern.len() == 0 || text.len() < pattern.len() {
        text
    } else if text.subrange(0, pattern.len() as int) == pattern {
        with + replaced(text.subrange(pattern.len() as int, text.len() as int), pattern, with)
    } else {
        seq![text[0]] + replaced(text.subrange(1, text.len() as int), pattern, with)
    }
}

/// The characters of `text`, for indexing in constant time.
pub fn chars_of(text: &str) -> (chars: Vec<char>)
    ensures
        chars@ == text@,
{
    let mut chars: Vec<char> = Vec::new();
    for c in it: text.chars()
        invariant
            it.seq() == text@,
            chars@ == it.seq().take(it.index() as int),
    {
        chars.push(c);
    }
    chars
}

/// Whether two texts hold the same characters.
pub fn same_text(left: &str, right: &str) -> (same: bool)
    ensures
        same == (left@ == right@),
{
    let a = chars_of(left);
    let b = chars_of(right);
    if a.len() != b.len() {
        return false;
    }
    let mut i: usize = 0;
    while i < a.len()
        invariant
            a@ == left@,
            b@ == right@,
            a.len() == b.len(),
            i <= a.len(),
            a@.take(i as int) == b@.take(i as int),
        decreases a.len() - i,
    {
        if a[i] != b[i] {
            assert(left@[i as int] != right@[i as int]);
            return false;
        }
        assert(a@.take(i + 1) =~= a@.take(i as int).push(a@[i as int]));
        assert(b@.take(i + 1) =~= b@.take(i as int).push(b@[i as int]));
        i += 1;
    }
    assert(a@ =~= a@.take(i as int));
    assert(b@ =~= b@.take(i as int));
    true
}

/// Whether `pattern` occurs in `text` at position `at`.
fn occurs_at(text: &Vec<char>, at: usize, pattern: &Vec<char>) -> (found: bool)
    requires
        at + pattern.len() <= text.len(),
    ensures
        found == (text@.subrange(at as int, at + pattern.len()) == pattern@),
{
    let ghost window = text@.subrange(at as int, at + pattern.len());
    let mut j: usize = 0;
    while j < pattern.len()
        invariant
            at + pattern.len() <= text.len(),
            j <= pattern.len(),
            window == text@.subrange(at as int, at + pattern.len()),
            window.take(j as int) == pattern@.take(j as int),
        decreases pattern.len() - j,
    {
        if text[at + j] != pattern[j] {
            assert(window[j as int] != pattern@[j as int]);
            return false;
        }
        assert(window.take(j + 1) =~= window.take(j as int).push(window[j as int]));
        assert(pattern@.take(j + 1) =~= pattern@.take(j as int).push(pattern@[j as int]));
        j += 1;
    }
    assert(window =~= window.take(j as int));
    assert(pattern@ =~= pattern@.take(j as int));
    true
}

/// Replaces every occurrence of `pattern` in `text` by `with`. An empty
/// pattern leaves the text as it is.
pub fn replace_all(text: &str, pattern: &str, with: &str) -> (result: String)
    ensures
        result@ == replaced(text@, pattern@, with@),
{
    let t = chars_of(text);
    let p = chars_of(pattern);
    let n = t.len();
    let m = p.len();
    if m == 0 || n < m {
        return text.to_owned();
    }
    let mut result = String::new();
    let mut start: usize = 0;
    let mut i: usize = 0;
    assert(text@.subrange(0, n as int) =~= text@);
    assert(result@ + text@.subrange(0, 0) =~= Seq::<char>::empty());
    assert(Seq::<char>::empty() + replaced(text@, pattern@, with@) =~= replaced(
        text@,
        pattern@,
        with@,
    ));
    while i < n
        invariant
            t@ == text@,
            p@ == pattern@,
            n == t.len(),
            m == p.len(),
            0 < m <= n,
            start <= i <= n,
            result@ + text@.subrange(start as int, i as int) + replaced(
                text@.subrange(i as int, n as int),
                pattern@,
                with@,
            ) == replaced(text@, pattern@, with@),
        decreases n - i,
    {
        let ghost rest = text@.subrange(i as int, n as int);
        if n - i >= m && occurs_at(&t, i, &p) {
            assert(rest.subrange(0, m as int) =~= text@.subrange(i as int, i + m));
            assert(rest.subrange(m as int, rest.len() as int) =~= text@.subrange(i + m, n as int));
            result.append(text.substring_char(start, i));
            result.append(with);
            i += m;
            start = i;
            assert(text@.subrange(start as int, i as int) =~= Seq::<char>::empty());
            assert(result@ + text@.subrange(start as int, i as int) =~= result@);
        } else {
            assert(rest.len() >= m ==> rest.subrange(0, m as int) =~= text@.subrange(
                i as int,
                i + m,
            ));
            assert(rest.subrange(1, rest.len() as int) =~= text@.subrange(i + 1, n as int));
            assert(text@.subrange(start as int, i as int) + seq![rest[0]] =~= text@.subrange(
                start as int,
                i + 1,
            ));
            let ghost tail = replaced(text@.subrange(i + 1, n as int), pattern@, with@);
            assert(replaced(rest, pattern@, with@) =~= seq![rest[0]] + tail) by {
                if rest.len() < m {
                    lemma_short_text_stays(text@.subrange(i + 1, n as int), pattern@, with@);
                }
            }
            assert(result@ + text@.subrange(start as int, i as int) + (seq![rest[0]] + tail)
                =~= result@ + (text@.subrange(start as int, i as int) + seq![rest[0]]) + tail);
            i += 1;
        }
    }
    assert(replaced(text@.subrange(i as int, n as int), pattern@, with@) =~= Seq::<char>::empty());
    result.append(text.substring_char(start, n));
    result
}

/// A text shorter than the pattern holds no occurrence of it.
proof fn lemma_short_text_stays(text: Seq<char>, pattern: Seq<char>, with: Seq<char>)
    requires
        text.len() < pattern.len(),
    ensures
        replaced(text, pattern, with) == text,
{
}

} // verus!
