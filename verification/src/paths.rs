//! File names and their extensions.
//!
//! A path is read as `std::path::Path` reads it where `/` separates: its file
//! name is its last component, separators and components `.` at its end being
//! passed over, and a last component `..` is no file name. The extension of a
//! file name is what follows its last `.`, unless that `.` is the name's first
//! character.

use vstd::prelude::*;
use vstd::string::*;

verus! {

/// The place of the last `c` in `s`, or -1 where there is none.
pub open spec fn last_index_of(s: Seq<char>, c: char) -> int
    decreases s.len(),
{
    if s.len() == 0 {
        -1
    } else if s.last() == c {
        s.len() - 1
    } else {
        last_index_of(s.drop_last(), c)
    }
}

/// Whether the path ends in a component `.`: a `.` that stands first or
/// follows a `/`.
pub open spec fn ends_in_dot_component(path: Seq<char>) -> bool {
    &&& path.len() > 0
    &&& path.last() == '.'
    &&& (path.len() == 1 || path[path.len() - 2] == '/')
}

/// The path without what is passed over at its end: separators and components
/// `.`.
pub open spec fn without_trailing(path: Seq<char>) -> Seq<char>
    decreases path.len(),
{
    if path.len() > 0 && (path.last() == '/' || ends_in_dot_component(path)) {
        without_trailing(path.drop_last())
    } else {
        path
    }
}

/// The file name of a path: its last component, which is what follows the
/// last `/` once separators and components `.` at the end are passed over. A
/// path that is nothing but these has no file name, nor has one whose last
/// component is `..`.
pub open spec fn file_name_of(path: Seq<char>) -> Option<Seq<char>> {
    let trimmed = without_trailing(path);
    let name = trimmed.subrange(last_index_of(trimmed, '/') + 1, trimmed.len() as int);
    if trimmed.len() == 0 || name == ".."@ {
        None
    } else {
        Some(name)
    }
}

/// The extension of a file name: what follows the last `.`. A name without a
/// `.`, one whose only `.` stands first, and `..` have none.
pub open spec fn extension_of(name: Seq<char>) -> Option<Seq<char>> {
    let dot = last_index_of(name, '.');
    if dot <= 0 || name == ".."@ {
        None
    } else {
        Some(name.subrange(dot + 1, name.len() as int))
    }
}

/// The lower case form of an ASCII capital, any other character as it is.
pub open spec fn ascii_lower(c: char) -> char {
    if 'A' <= c && c <= 'Z' {
        ((c as u8) + 32) as char
    } else {
        c
    }
}

/// `s` with its ASCII capitals in lower case.
pub open spec fn lowered(s: Seq<char>) -> Seq<char> {
    s.map_values(|c: char| ascii_lower(c))
}

/// The last `c` of `s` stands where `last_index_of` says, and none after it.
pub proof fn lemma_last_index_of(s: Seq<char>, c: char)
    ensures
        -1 <= last_index_of(s, c) < s.len(),
        last_index_of(s, c) >= 0 ==> s[last_index_of(s, c)] == c,
        forall|i: int| last_index_of(s, c) < i < s.len() ==> s[i] != c,
    decreases s.len(),
{
    if s.len() > 0 && s.last() != c {
        lemma_last_index_of(s.drop_last(), c);
        assert forall|i: int| last_index_of(s, c) < i < s.len() implies s[i] != c by {
            if i < s.len() - 1 {
                assert(s.drop_last()[i] == s[i]);
            }
        }
    }
}

/// A separator at the end of a path changes nothing about its file name.
pub proof fn lemma_trailing_separator(path: Seq<char>)
    ensures
        without_trailing(path.push('/')) == without_trailing(path),
        file_name_of(path.push('/')) == file_name_of(path),
{
    assert(path.push('/').drop_last() =~= path);
}

/// A component `.` at the end of a path changes nothing about its file name.
pub proof fn lemma_trailing_dot_component(path: Seq<char>)
    ensures
        without_trailing(path.push('/').push('.')) == without_trailing(path),
        file_name_of(path.push('/').push('.')) == file_name_of(path),
{
    let longer = path.push('/').push('.');
    assert(longer.drop_last() =~= path.push('/'));
    assert(ends_in_dot_component(longer));
    lemma_trailing_separator(path);
}

/// A name without a separator, other than `.` and `..`, is its own file name.
pub proof fn lemma_file_name_of_plain_name(name: Seq<char>)
    requires
        name.len() > 0,
        forall|i: int| 0 <= i < name.len() ==> name[i] != '/',
        name != "."@,
        name != ".."@,
    ensures
        file_name_of(name) == Some(name),
{
    reveal_strlit(".");
    lemma_last_index_of(name, '/');
    if ends_in_dot_component(name) {
        if name.len() == 1 {
            assert(name =~= "."@);
        }
    }
    assert(name.subrange(0, name.len() as int) =~= name);
}

/// The characters of `text`, one by one.
pub fn chars_of(text: &str) -> (chars: Vec<char>)
    ensures
        chars@ == text@,
{
    let mut chars: Vec<char> = Vec::new();
    for c in it: text.chars()
        invariant
            it.seq() == text@,
            chars@ == text@.take(it.index() as int),
    {
        chars.push(c);
        assert(text@.take(it.index() + 1) =~= text@.take(it.index() as int).push(c));
    }
    assert(text@.take(text@.len() as int) =~= text@);
    chars
}

/// Whether `chars` spells `text`.
pub fn spells(chars: &Vec<char>, text: &str) -> (r: bool)
    ensures
        r == (chars@ == text@),
{
    let wanted = chars_of(text);
    if chars.len() != wanted.len() {
        return false;
    }
    let mut i: usize = 0;
    while i < chars.len()
        invariant
            i <= chars.len() == wanted.len(),
            wanted@ == text@,
            forall|j: int| 0 <= j < i ==> chars[j] == wanted[j],
        decreases chars.len() - i,
    {
        if chars[i] != wanted[i] {
            return false;
        }
        i = i + 1;
    }
    assert(chars@ =~= text@);
    true
}

/// Whether two texts are the same.
pub fn same_text(a: &str, b: &str) -> (r: bool)
    ensures
        r == (a@ == b@),
{
    let chars = chars_of(a);
    spells(&chars, b)
}

/// The place of the last `c` among `chars`.
pub fn find_last(chars: &Vec<char>, c: char) -> (r: Option<usize>)
    ensures
        match r {
            Some(i) => i == last_index_of(chars@, c),
            None => last_index_of(chars@, c) == -1,
        },
{
    let mut i: usize = chars.len();
    assert(chars@.take(i as int) =~= chars@);
    while i > 0
        invariant
            i <= chars.len(),
            last_index_of(chars@, c) == last_index_of(chars@.take(i as int), c),
        decreases i,
    {
        assert(chars@.take(i as int).drop_last() =~= chars@.take(i - 1));
        if chars[i - 1] == c {
            return Some(i - 1);
        }
        i = i - 1;
    }
    None
}

/// The characters of `chars` from place `start` on.
pub fn tail_from(chars: &Vec<char>, start: usize) -> (tail: Vec<char>)
    requires
        start <= chars.len(),
    ensures
        tail@ == chars@.subrange(start as int, chars.len() as int),
{
    let mut tail: Vec<char> = Vec::new();
    let mut i: usize = start;
    while i < chars.len()
        invariant
            start <= i <= chars.len(),
            tail@ == chars@.subrange(start as int, i as int),
        decreases chars.len() - i,
    {
        tail.push(chars[i]);
        assert(chars@.subrange(start as int, i + 1) =~= chars@.subrange(start as int, i as int).push(
            chars[i as int],
        ));
        i = i + 1;
    }
    tail
}

/// The lower case form of an ASCII capital, any other character as it is.
pub fn to_ascii_lower(c: char) -> (r: char)
    ensures
        r == ascii_lower(c),
{
    if c >= 'A' && c <= 'Z' {
        ((c as u8) + 32u8) as char
    } else {
        c
    }
}

/// The first `end` of the characters of `chars`.
pub fn head_to(chars: &Vec<char>, end: usize) -> (head: Vec<char>)
    requires
        end <= chars.len(),
    ensures
        head@ == chars@.take(end as int),
{
    let mut head: Vec<char> = Vec::new();
    let mut i: usize = 0;
    while i < end
        invariant
            i <= end <= chars.len(),
            head@ == chars@.take(i as int),
        decreases end - i,
    {
        head.push(chars[i]);
        assert(chars@.take(i + 1) =~= chars@.take(i as int).push(chars[i as int]));
        i = i + 1;
    }
    head
}

/// The file name of `path`, where it has one.
pub fn file_name(path: &Vec<char>) -> (r: Option<Vec<char>>)
    ensures
        match r {
            Some(name) => file_name_of(path@) == Some(name@),
            None => file_name_of(path@) is None,
        },
{
    let mut end: usize = path.len();
    assert(path@.take(end as int) =~= path@);
    while end > 0 && (path[end - 1] == '/' || (path[end - 1] == '.' && (end == 1 || path[end - 2]
        == '/')))
        invariant
            end <= path.len(),
            without_trailing(path@) == without_trailing(path@.take(end as int)),
        decreases end,
    {
        assert(path@.take(end as int).drop_last() =~= path@.take(end - 1));
        end = end - 1;
    }
    let trimmed = head_to(path, end);
    assert(without_trailing(path@) == trimmed@);
    if end == 0 {
        return None;
    }
    proof {
        lemma_last_index_of(trimmed@, '/');
    }
    let name = match find_last(&trimmed, '/') {
        Some(slash) => {
            assert(slash < end);
            tail_from(&trimmed, slash + 1)
        },
        None => tail_from(&trimmed, 0),
    };
    if spells(&name, "..") {
        None
    } else {
        Some(name)
    }
}

/// The extension of the file name `name`, in lower case.
pub fn lower_extension(name: &Vec<char>) -> (r: Option<Vec<char>>)
    ensures
        match r {
            Some(ext) => extension_of(name@) is Some && ext@ == lowered(
                extension_of(name@).unwrap(),
            ),
            None => extension_of(name@) is None,
        },
{
    proof {
        lemma_last_index_of(name@, '.');
        reveal_strlit("..");
    }
    let len: usize = name.len();
    let dot: usize = match find_last(name, '.') {
        Some(dot) => dot,
        None => {
            return None;
        },
    };
    if dot == 0 || spells(name, "..") {
        return None;
    }
    let mut ext: Vec<char> = Vec::new();
    let mut i: usize = dot + 1;
    let ghost whole = name@.subrange(dot + 1, name.len() as int);
    while i < len
        invariant
            dot < i <= len == name.len(),
            whole == name@.subrange(dot + 1, name.len() as int),
            ext@ == lowered(whole.take(i - dot - 1)),
        decreases len - i,
    {
        ext.push(to_ascii_lower(name[i]));
        assert(lowered(whole.take(i - dot)) =~= lowered(whole.take(i - dot - 1)).push(
            ascii_lower(name[i as int]),
        ));
        i = i + 1;
    }
    assert(whole.take(name.len() - dot - 1) =~= whole);
    Some(ext)
}

} // verus!
