//! The parts of a file's path that the chunker reads: its name and its extension.
use vstd::prelude::*;

verus! {

/// What follows the last `sep` in `s`; all of `s` when it holds no `sep`.
pub open spec fn after_last(s: Seq<char>, sep: char) -> Seq<char>
    decreases s.len(),
{
    if s.len() == 0 {
        s
    } else if s.last() == sep {
        Seq::<char>::empty()
    } else {
        after_last(s.drop_last(), sep).push(s.last())
    }
}

/// The last component of a `/`-separated path.
pub open spec fn file_name_of(path: Seq<char>) -> Seq<char> {
    after_last(path, '/')
}

/// The extension of a file name, as `Path::extension` gives it: what follows the last
/// `.`, when there is a `.` and the name does not begin with its only one.
pub open spec fn extension_of(name: Seq<char>) -> Option<Seq<char>> {
    let ext = after_last(name, '.');
    if ext.len() + 1 >= name.len() {
        None
    } else {
        Some(ext)
    }
}

proof fn lemma_after_last_len(s: Seq<char>, sep: char)
    ensures
        after_last(s, sep).len() <= s.len(),
    decreases s.len(),
{
    if s.len() > 0 {
        lemma_after_last_len(s.drop_last(), sep);
    }
}

/// What follows the last `sep` in `s`; all of `s` when it holds no `sep`.
pub fn split_off_last(s: &str, sep: char) -> (r: String)
    ensures
        r@ == after_last(s@, sep),
{
    let mut r = String::new();
    let ghost mut seen: int = 0;
    for c in it: s.chars()
        invariant
            it.seq() == s@,
            seen == it.index(),
            r@ == after_last(s@.take(seen), sep),
    {
        assert(s@.take(seen + 1).drop_last() == s@.take(seen));
        assert(s@.take(seen + 1).last() == c);
        if c == sep {
            r = String::new();
        } else {
            r.push(c);
        }
        proof {
            seen = seen + 1;
        }
    }
    assert(s@.take(seen) == s@);
    r
}

/// The last component of a `/`-separated path.
pub fn file_name(path: &str) -> (r: String)
    ensures
        r@ == file_name_of(path@),
{
    split_off_last(path, '/')
}

/// The extension of a file name, if it has one.
pub fn extension(name: &str) -> (r: Option<String>)
    ensures
        r matches Some(e) ==> extension_of(name@) == Some(e@),
        r is None ==> extension_of(name@) is None,
{
    let ext = split_off_last(name, '.');
    proof {
        lemma_after_last_len(name@, '.');
    }
    let name_len = name.unicode_len();
    let ext_len = ext.as_str().unicode_len();
    if name_len - ext_len <= 1 {
        None
    } else {
        Some(ext)
    }
}

} // verus!
