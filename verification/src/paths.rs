//! Slash-separated paths.

use vstd::prelude::*;
use crate::strings;
use crate::strings::find_after_last;
use crate::text;
use crate::text::{from_chars, str_eq, to_chars};

verus! {

broadcast use {vstd::string::group_string_axioms, vstd::seq::group_seq_axioms};

/// The last component of a path. Trailing slashes and `.` components do not
/// count; a path that is empty or ends in `..` has none.
pub open spec fn file_name(p: Seq<char>) -> Option<Seq<char>>
    decreases p.len(),
    via file_name_decreases
{
    let start = strings::after_last(p, '/', p.len() as int);
    let component = p.skip(start);
    if p.len() == 0 {
        None
    } else if p.last() == '/' {
        file_name(p.drop_last())
    } else if component == "."@ {
        if start == 0 {
            None
        } else {
            file_name(p.take(start))
        }
    } else if component == ".."@ {
        None
    } else {
        Some(component)
    }
}

#[via_fn]
proof fn file_name_decreases(p: Seq<char>) {
    strings::lemma_after_last(p, '/', p.len() as int);
}

/// What follows the last dot of a file name, unless the name has no dot but
/// perhaps its first character.
pub open spec fn extension_of_name(name: Seq<char>) -> Option<Seq<char>> {
    let after = strings::after_last(name, '.', name.len() as int);
    if after <= 1 {
        None
    } else {
        Some(name.skip(after))
    }
}

/// The extension of a path.
pub open spec fn extension_spec(p: Seq<char>) -> Option<Seq<char>> {
    match file_name(p) {
        Some(name) => extension_of_name(name),
        None => None,
    }
}

/// The extension of a path.
pub fn extension(path: &str) -> (r: Option<String>)
    ensures
        text::opt_view(r) == extension_spec(path@),
{
    let chars: Vec<char> = to_chars(path);
    let mut end: usize = chars.len();
    assert(chars@.take(end as int) =~= path@);
    while end > 0
        invariant
            end <= chars@.len(),
            file_name(path@) == file_name(chars@.take(end as int)),
        decreases end,
    {
        let ghost p = chars@.take(end as int);
        if chars[end - 1] == '/' {
            assert(p.drop_last() =~= chars@.take(end - 1));
            end = end - 1;
        } else {
            let start: usize = find_after_last(&chars, '/', end);
            let name: String = from_chars(&chars, start, end);
            proof {
                lemma_after_last_take(chars@, '/', end as int, end as int);
                assert(name@ =~= p.skip(start as int));
            }
            if str_eq(name.as_str(), ".") {
                if start == 0 {
                    return None;
                }
                assert(p.take(start as int) =~= chars@.take(start as int));
                proof {
                    reveal_strlit(".");
                    assert(name@.len() == 1);
                }
                end = start;
            } else if str_eq(name.as_str(), "..") {
                return None;
            } else {
                let letters: Vec<char> = to_chars(name.as_str());
                let after: usize = find_after_last(&letters, '.', letters.len());
                if after <= 1 {
                    return None;
                }
                let ext: String = from_chars(&letters, after, letters.len());
                assert(ext@ =~= name@.skip(after as int));
                return Some(ext);
            }
        }
    }
    None
}

proof fn lemma_after_last_take(s: Seq<char>, c: char, n: int, to: int)
    requires
        0 <= to <= n <= s.len(),
    ensures
        strings::after_last(s.take(n), c, to) == strings::after_last(s, c, to),
    decreases to,
{
    if to > 0 && s[to - 1] != c {
        lemma_after_last_take(s, c, n, to - 1);
    }
}

/// The extension of a file is what follows the last dot of its name, in whatever
/// directory it lies.
pub proof fn law_extension_follows_dot(dir: Seq<char>, name: Seq<char>, ext: Seq<char>)
    requires
        dir.len() == 0 || dir.last() == '/',
        name.len() > 0 && !name.contains('/'),
        ext.len() > 0 && !ext.contains('/') && !ext.contains('.'),
    ensures
        extension_spec(dir + name + seq!['.'] + ext) == Some(ext),
{
    let p = dir + name + seq!['.'] + ext;
    let file = name + seq!['.'] + ext;
    let n = p.len() as int;
    reveal_strlit(".");
    reveal_strlit("..");
    strings::lemma_after_last(p, '/', n);
    let start = strings::after_last(p, '/', n);
    assert(start == dir.len()) by {
        if start > dir.len() {
            let at = start - 1;
            assert(p[at] == '/');
            if at < dir.len() + name.len() {
                assert(p[at] == name[at - dir.len()]);
                assert(name.contains('/'));
            } else if at > dir.len() + name.len() {
                assert(p[at] == ext[at - dir.len() - name.len() - 1]);
                assert(ext.contains('/'));
            }
        }
        if start < dir.len() {
            assert(p[dir.len() - 1] == dir.last());
        }
    }
    assert(p.skip(start) =~= file);
    assert(p.last() == ext.last());
    assert(ext.contains(ext.last()));
    assert(file_name(p) == Some(file));
    let m = file.len() as int;
    strings::lemma_after_last(file, '.', m);
    let after = strings::after_last(file, '.', m);
    assert(after == name.len() + 1) by {
        if after > name.len() + 1 {
            assert(file[after - 1] == ext[after - 1 - name.len() - 1]);
            assert(ext.contains('.'));
        }
        if after < name.len() + 1 {
            assert(file[name.len() as int] == '.');
        }
    }
    assert(file.skip(after) =~= ext);
}

/// A file without a dot in its name has no extension.
pub proof fn law_no_dot_no_extension(name: Seq<char>)
    requires
        !name.contains('.'),
    ensures
        extension_of_name(name) is None,
{
    strings::lemma_after_last(name, '.', name.len() as int);
    let after = strings::after_last(name, '.', name.len() as int);
    if after > 0 {
        assert(name[after - 1] == '.');
    }
}

/// A file whose only dot is the first character of its name has no extension.
pub proof fn law_hidden_no_extension(name: Seq<char>)
    requires
        !name.contains('.'),
    ensures
        extension_of_name(seq!['.'] + name) is None,
{
    let file = seq!['.'] + name;
    strings::lemma_after_last(file, '.', file.len() as int);
    let after = strings::after_last(file, '.', file.len() as int);
    if after > 1 {
        assert(file[after - 1] == name[after - 2]);
        assert(name.contains('.'));
    }
}

} // verus!
