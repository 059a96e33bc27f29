//! Names of composite outputs.
//!
//! A composite is written as `merged-YY-MM-DD.png`; an undated `merged.png`
//! is recognised too. One predicate decides both for the scanner, which keeps
//! composites out of the candidate lists, and for the merge engine, which
//! removes earlier composites before it writes a new one.

use vstd::prelude::*;
use vstd::string::*;
use crate::paths::chars_of;

verus! {

/// An ASCII decimal digit.
pub open spec fn is_ascii_digit(c: char) -> bool {
    '0' <= c && c <= '9'
}

/// A date token: two digits, a dash, two digits, a dash, two digits.
pub open spec fn is_date_token(s: Seq<char>) -> bool {
    &&& s.len() == 8
    &&& is_ascii_digit(s[0])
    &&& is_ascii_digit(s[1])
    &&& s[2] == '-'
    &&& is_ascii_digit(s[3])
    &&& is_ascii_digit(s[4])
    &&& s[5] == '-'
    &&& is_ascii_digit(s[6])
    &&& is_ascii_digit(s[7])
}

/// The name of the composite that carries the date token `token`.
pub open spec fn dated_name(token: Seq<char>) -> Seq<char> {
    "merged-"@ + token + ".png"@
}

/// A composite's name: `merged.png`, or `merged-`, a date token and `.png`.
pub open spec fn is_merged_name(name: Seq<char>) -> bool {
    ||| name == "merged.png"@
    ||| exists|token: Seq<char>| is_date_token(token) && name == #[trigger] dated_name(token)
}

/// The same set of names, spelled out position by position.
pub open spec fn is_merged_name_by_position(name: Seq<char>) -> bool {
    ||| name == "merged.png"@
    ||| {
        &&& name.len() == 19
        &&& name.subrange(0, 7) == "merged-"@
        &&& is_date_token(name.subrange(7, 15))
        &&& name.subrange(15, 19) == ".png"@
    }
}

/// The two descriptions of a composite's name agree.
pub proof fn lemma_merged_name_by_position(name: Seq<char>)
    ensures
        is_merged_name(name) == is_merged_name_by_position(name),
{
    reveal_strlit("merged-");
    reveal_strlit(".png");
    if is_merged_name_by_position(name) && name != "merged.png"@ {
        let token = name.subrange(7, 15);
        assert(name =~= dated_name(token));
    }
    if is_merged_name(name) && name != "merged.png"@ {
        let token = choose|token: Seq<char>| is_date_token(token) && name == dated_name(token);
        assert(name.subrange(0, 7) =~= "merged-"@);
        assert(name.subrange(7, 15) =~= token);
        assert(name.subrange(15, 19) =~= ".png"@);
    }
}

fn is_digit(c: char) -> (r: bool)
    ensures
        r == is_ascii_digit(c),
{
    '0' <= c && c <= '9'
}

/// Whether `pattern` stands among `chars` from position `start` on.
fn has_at(chars: &Vec<char>, start: usize, pattern: &str) -> (r: bool)
    requires
        start + pattern@.len() <= chars@.len(),
    ensures
        r == (chars@.subrange(start as int, start + pattern@.len()) == pattern@),
{
    let wanted = chars_of(pattern);
    let total: usize = chars.len();
    let len: usize = wanted.len();
    assert(start + len <= total);
    let ghost part = chars@.subrange(start as int, start + len);
    let mut i: usize = 0;
    while i < len
        invariant
            i <= len,
            wanted@ == pattern@,
            len == wanted@.len(),
            start + len <= chars@.len() == total,
            part == chars@.subrange(start as int, start + len),
            forall|j: int| 0 <= j < i ==> part[j] == wanted@[j],
        decreases len - i,
    {
        if chars[start + i] != wanted[i] {
            assert(part[i as int] != wanted@[i as int]);
            return false;
        }
        i = i + 1;
    }
    assert(part =~= pattern@);
    true
}

/// Whether `filename` names a composite output: `merged.png`, or `merged-`, a
/// date token of eight characters and `.png`.
pub fn is_merged_file(filename: &str) -> (r: bool)
    ensures
        r == is_merged_name(filename@),
{
    proof {
        lemma_merged_name_by_position(filename@);
        reveal_strlit("merged.png");
        reveal_strlit("merged-");
        reveal_strlit(".png");
    }
    let chars = chars_of(filename);
    let n: usize = chars.len();
    if n == 10 {
        assert(chars@.subrange(0, 10) =~= chars@);
        return has_at(&chars, 0, "merged.png");
    }
    if n != 19 {
        return false;
    }
    if !has_at(&chars, 0, "merged-") || !has_at(&chars, 15, ".png") {
        return false;
    }
    let date = is_digit(chars[7]) && is_digit(chars[8]) && chars[9] == '-' && is_digit(chars[10])
        && is_digit(chars[11]) && chars[12] == '-' && is_digit(chars[13]) && is_digit(chars[14]);
    assert(date == is_date_token(chars@.subrange(7, 15)));
    date
}

/// The name under which the composite with the date token `date_token` is
/// written.
pub fn output_filename(date_token: &str) -> (name: String)
    ensures
        name@ == dated_name(date_token@),
{
    let mut name = String::from_str("merged-");
    name.append(date_token);
    name.append(".png");
    name
}

/// A dated composite name is recognised as a composite: what one merge writes,
/// the next one finds and removes.
pub proof fn lemma_dated_name_is_merged(token: Seq<char>)
    requires
        is_date_token(token),
    ensures
        is_merged_name(dated_name(token)),
{
}

} // verus!
