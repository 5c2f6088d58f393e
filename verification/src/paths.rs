//! File names inside paths: the last component and its extension.
use crate::text::{
    after_last, end_of_last, from_chars, last_index, same, since_last, to_chars, trim_end_matches,
    without_trailing,
};
use vstd::prelude::*;

verus! {

/// The last component of a path, if it is a plain name. Slashes at the end and
/// components `.` do not count; a path that ends in `..` has no file name.
pub open spec fn file_name_of(path: Seq<char>) -> Option<Seq<char>>
    decreases path.len(),
{
    let p = without_trailing(path, '/');
    if p.len() == 0 || p.len() > path.len() || after_last(p, '/') == ".."@ {
        None
    } else if after_last(p, '/') == "."@ {
        file_name_of(p.drop_last())
    } else {
        Some(after_last(p, '/'))
    }
}

/// Whether a file name has an extension: a dot that is not its first character.
pub open spec fn has_extension(name: Seq<char>) -> bool {
    name != ".."@ && last_index(name, '.') > 0
}

/// What stands in a file name behind its last dot, if it has an extension.
pub open spec fn extension_of(name: Seq<char>) -> Option<Seq<char>> {
    if has_extension(name) {
        Some(after_last(name, '.'))
    } else {
        None
    }
}

pub proof fn lemma_without_trailing_shrinks(s: Seq<char>, c: char)
    ensures
        without_trailing(s, c).len() <= s.len(),
    decreases s.len(),
{
    if s.len() > 0 && s.last() == c {
        lemma_without_trailing_shrinks(s.drop_last(), c);
    }
}

/// The last component of a path, if it is a plain name.
pub fn file_name(path: &str) -> (r: Option<String>)
    ensures
        match r {
            Some(name) => file_name_of(path@) == Some(name@),
            None => file_name_of(path@) is None,
        },
    decreases path@.len(),
{
    let p = trim_end_matches(path, '/');
    proof {
        lemma_without_trailing_shrinks(path@, '/');
    }
    let v = to_chars(p.as_str());
    if v.len() == 0 {
        return None;
    }
    let last = since_last(p.as_str(), '/');
    if same(last.as_str(), "..") {
        return None;
    }
    if same(last.as_str(), ".") {
        let n: usize = v.len() - 1;
        let parent = from_chars(&v, 0, n);
        assert(parent@ =~= p@.drop_last());
        return file_name(parent.as_str());
    }
    Some(last)
}

/// What stands in a file name behind its last dot, if it has an extension.
pub fn extension(name: &str) -> (r: Option<String>)
    ensures
        match r {
            Some(ext) => extension_of(name@) == Some(ext@),
            None => extension_of(name@) is None,
        },
{
    let v = to_chars(name);
    if same(name, "..") || end_of_last(&v, '.') <= 1 {
        None
    } else {
        Some(since_last(name, '.'))
    }
}

} // verus!
