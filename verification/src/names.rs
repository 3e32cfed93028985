//! Library names: which of them are looked for in the search path, and how
//! a list of them is written in one line.

use vstd::prelude::*;
use vstd::string::*;

verus! {

/// A bare name holds neither a path separator nor the dot of an extension.
pub open spec fn is_bare_name(name: Seq<char>) -> bool {
    forall|i: int| 0 <= i < name.len() ==> name[i] != '/' && name[i] != '.'
}

/// Whether `file_name` is a bare name.
pub fn bare_name(file_name: &str) -> (r: bool)
    ensures
        r == is_bare_name(file_name@),
{
    let n = file_name.unicode_len();
    let mut i: usize = 0;
    while i < n
        invariant
            n == file_name@.len(),
            i <= n,
            forall|j: int| 0 <= j < i ==> file_name@[j] != '/' && file_name@[j] != '.',
        decreases n - i,
    {
        let c = file_name.get_char(i);
        if c == '/' || c == '.' {
            return false;
        }
        i += 1;
    }
    true
}

/// The path that a search for `file_name` resolves to: the file that was
/// found, or the name itself where none was.
pub fn resolved_path(file_name: &str, found: Option<String>) -> (r: String)
    ensures
        r@ == match found {
            Some(path) => path@,
            None => file_name@,
        },
{
    match found {
        Some(path) => path,
        None => String::from_str(file_name),
    }
}

/// The parts of a list, joined with a colon between each two.
pub open spec fn joined(parts: Seq<Seq<char>>) -> Seq<char>
    decreases parts.len(),
{
    if parts.len() == 0 {
        Seq::empty()
    } else if parts.len() == 1 {
        parts[0]
    } else {
        joined(parts.drop_last()) + seq![':'] + parts.last()
    }
}

/// The text holds no colon.
pub open spec fn colon_free(text: Seq<char>) -> bool {
    forall|i: int| 0 <= i < text.len() ==> text[i] != ':'
}

/// The texts of a list of strings.
pub open spec fn texts(names: Seq<String>) -> Seq<Seq<char>> {
    Seq::new(names.len(), |i: int| names[i]@)
}

/// The library names in a colon-separated list, in their order: the parts
/// between the colons, of which there is one more than there are colons.
pub fn library_names(list: &str) -> (r: Vec<String>)
    ensures
        r@.len() >= 1,
        joined(texts(r@)) == list@,
        forall|i: int| 0 <= i < r@.len() ==> colon_free(#[trigger] r@[i]@),
{
    let n = list.unicode_len();
    let mut names: Vec<String> = Vec::new();
    let mut start: usize = 0;
    let mut i: usize = 0;
    while i < n
        invariant
            n == list@.len(),
            start <= i <= n,
            colon_free(list@.subrange(start as int, i as int)),
            forall|j: int| 0 <= j < names@.len() ==> colon_free(#[trigger] names@[j]@),
            joined(texts(names@).push(list@.subrange(start as int, i as int))) == list@.take(
                i as int,
            ),
        decreases n - i,
    {
        let ghost done = texts(names@);
        let ghost part = list@.subrange(start as int, i as int);
        if list.get_char(i) == ':' {
            names.push(String::from_str(list.substring_char(start, i)));
            proof {
                let ended = done.push(part);
                assert(texts(names@) =~= ended);
                let open = ended.push(Seq::<char>::empty());
                assert(open.drop_last() =~= ended);
                assert(list@.subrange(i + 1, i + 1) =~= Seq::<char>::empty());
                assert(joined(open) =~= list@.take(i as int) + seq![':']);
                assert(list@.take(i + 1) =~= list@.take(i as int) + seq![':']);
            }
            start = i + 1;
        } else {
            proof {
                let longer = list@.subrange(start as int, i + 1);
                assert(longer =~= part.push(list@[i as int]));
                assert(done.push(longer).drop_last() =~= done);
                assert(done.push(part).drop_last() =~= done);
                if done.len() == 0 {
                    assert(joined(done.push(longer)) =~= list@.take(i + 1));
                } else {
                    assert(joined(done.push(longer)) =~= joined(done) + seq![':'] + longer);
                    assert(joined(done.push(part)) =~= joined(done) + seq![':'] + part);
                    assert(joined(done.push(longer)) =~= list@.take(i + 1));
                }
            }
        }
        i += 1;
    }
    let ghost done = texts(names@);
    names.push(String::from_str(list.substring_char(start, n)));
    proof {
        assert(texts(names@) =~= done.push(list@.subrange(start as int, n as int)));
        assert(list@.take(n as int) =~= list@);
    }
    names
}

} // verus!
