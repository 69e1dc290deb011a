//! Paths as text: separator normalisation and the last segment of a path.

use vstd::prelude::*;

verus! {

/// The separator that paths are normalised to.
pub const SEPARATOR: char = '\\';

/// The other separator that callers may write.
pub const ALTERNATE_SEPARATOR: char = '/';

/// `String::push` appends one character to the text.
pub assume_specification[ String::push ](text: &mut String, ch: char)
    ensures
        final(text)@ == old(text)@.push(ch),
;

/// One character with the alternate separator replaced.
pub open spec fn normalized_char(c: char) -> char {
    if c == ALTERNATE_SEPARATOR {
        SEPARATOR
    } else {
        c
    }
}

/// A path with every alternate separator replaced by the separator.
pub open spec fn normalized(path: Seq<char>) -> Seq<char> {
    Seq::new(path.len(), |i: int| normalized_char(path[i]))
}

/// What follows the last separator of a path; the whole path where it has none.
pub open spec fn last_segment(path: Seq<char>) -> Seq<char>
    decreases path.len(),
{
    if path.len() == 0 {
        Seq::empty()
    } else if path.last() == SEPARATOR {
        Seq::empty()
    } else {
        last_segment(path.drop_last()).push(path.last())
    }
}

/// Whether `path` holds a separator.
pub open spec fn has_separator(path: Seq<char>) -> bool {
    exists|i: int| 0 <= i < path.len() && path[i] == SEPARATOR
}

/// Normalising a path that is already normalised changes nothing.
pub proof fn lemma_normalize_idempotent(path: Seq<char>)
    ensures
        normalized(normalized(path)) == normalized(path),
{
    assert(normalized(normalized(path)) =~= normalized(path));
}

/// A normalised path is as long as the path and holds no alternate separator.
pub proof fn lemma_normalized_has_no_alternate(path: Seq<char>)
    ensures
        normalized(path).len() == path.len(),
        forall|i: int| 0 <= i < path.len() ==> normalized(path)[i] != ALTERNATE_SEPARATOR,
{
}

/// The last segment is the longest tail of the path without a separator.
pub proof fn lemma_last_segment_is_tail(path: Seq<char>)
    ensures
        last_segment(path).len() <= path.len(),
        last_segment(path) == path.skip(path.len() - last_segment(path).len()),
        !has_separator(last_segment(path)),
        last_segment(path).len() < path.len() ==> path[path.len() - last_segment(path).len() - 1]
            == SEPARATOR,
    decreases path.len(),
{
    if path.len() > 0 && path.last() != SEPARATOR {
        let front = path.drop_last();
        lemma_last_segment_is_tail(front);
        let seg = last_segment(front);
        assert(last_segment(path) =~= path.skip(path.len() - last_segment(path).len()));
        if has_separator(last_segment(path)) {
            let i = choose|i: int|
                0 <= i < last_segment(path).len() && last_segment(path)[i] == SEPARATOR;
            assert(seg[i] == SEPARATOR);
        }
    } else {
        assert(last_segment(path) =~= path.skip(path.len() - last_segment(path).len()));
    }
}

/// Replaces every `/` of `path` by `\`.
pub fn normalize_separators(path: &str) -> (out: String)
    ensures
        out@ == normalized(path@),
{
    let mut out = String::new();
    let chars = path.chars();
    for c in it: chars
        invariant
            it.seq() == path@,
            out@ == normalized(path@.take(it.index() as int)),
    {
        let ghost before = path@.take(it.index() as int);
        let ghost after = path@.take(it.index() + 1);
        if c == ALTERNATE_SEPARATOR {
            out.push(SEPARATOR);
        } else {
            out.push(c);
        }
        assert(out@ =~= normalized(after));
    }
    assert(path@.take(path@.len() as int) =~= path@);
    out
}

/// The text after the last `\` of `path`: the name of what the path leads to.
pub fn segment_name(path: &str) -> (name: String)
    ensures
        name@ == last_segment(path@),
{
    let mut name = String::new();
    let chars = path.chars();
    for c in it: chars
        invariant
            it.seq() == path@,
            name@ == last_segment(path@.take(it.index() as int)),
    {
        let ghost after = path@.take(it.index() + 1);
        assert(after.drop_last() =~= path@.take(it.index() as int));
        if c == SEPARATOR {
            name = String::new();
        } else {
            name.push(c);
        }
    }
    assert(path@.take(path@.len() as int) =~= path@);
    name
}

} // verus!
