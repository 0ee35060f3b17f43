//! Text operations on `str`, stated over sequences of characters.

use vstd::prelude::*;

verus! {

/// `text` ends with `suffix`.
pub open spec fn has_suffix(text: Seq<char>, suffix: Seq<char>) -> bool {
    &&& suffix.len() <= text.len()
    &&& text.subrange(text.len() - suffix.len(), text.len() as int) == suffix
}

/// A `::` starts at index `i` of `text`.
pub open spec fn separator_at(text: Seq<char>, i: int) -> bool {
    0 <= i && i + 1 < text.len() && text[i] == ':' && text[i + 1] == ':'
}

/// The first `::` of `text` starts at index `i`.
pub open spec fn first_separator(text: Seq<char>, i: int) -> bool {
    separator_at(text, i) && forall|j: int| #![trigger separator_at(text, j)] 0 <= j < i ==> !separator_at(text, j)
}

/// `text` holds a `::` somewhere.
pub open spec fn has_separator(text: Seq<char>) -> bool {
    exists|i: int| separator_at(text, i)
}

/// What follows the first `::` of `text`; all of `text` when it has none.
pub open spec fn after_separator(text: Seq<char>) -> Seq<char> {
    if has_separator(text) {
        text.skip((choose|i: int| first_separator(text, i)) + 2)
    } else {
        text
    }
}

/// The parts in order, with `separator` between each two of them.
pub open spec fn joined(parts: Seq<Seq<char>>, separator: Seq<char>) -> Seq<char>
    decreases parts.len(),
{
    if parts.len() == 0 {
        Seq::empty()
    } else if parts.len() == 1 {
        parts[0]
    } else {
        joined(parts.drop_last(), separator) + separator + parts.last()
    }
}

/// The decimal digit of a number below ten.
pub open spec fn digit(n: nat) -> char {
    if n == 0 {
        '0'
    } else if n == 1 {
        '1'
    } else if n == 2 {
        '2'
    } else if n == 3 {
        '3'
    } else if n == 4 {
        '4'
    } else if n == 5 {
        '5'
    } else if n == 6 {
        '6'
    } else if n == 7 {
        '7'
    } else if n == 8 {
        '8'
    } else {
        '9'
    }
}

/// A number written in decimal, without leading zeros.
pub open spec fn decimal(n: nat) -> Seq<char>
    decreases n,
{
    if n < 10 {
        seq![digit(n)]
    } else {
        decimal(n / 10).push(digit(n % 10))
    }
}

/// The characters of `text`.
pub fn chars_of(text: &str) -> (result: Vec<char>)
    ensures
        result@ == text@,
{
    let mut result: Vec<char> = Vec::new();
    for c in it: text.chars()
        invariant
            it.seq() == text@,
            result@ == text@.take(it.index() as int),
    {
        result.push(c);
    }
    proof {
        assert(text@.take(text@.len() as int) == text@);
    }
    result
}

/// The text is equal to another one.
pub fn same_text(left: &str, right: &str) -> (result: bool)
    ensures
        result == (left@ == right@),
{
    left.to_owned() == right.to_owned()
}

/// `wanted` occurs in `text`.
pub fn contains_char(text: &str, wanted: char) -> (result: bool)
    ensures
        result == text@.contains(wanted),
{
    let chars = chars_of(text);
    let mut i: usize = 0;
    while i < chars.len()
        invariant
            i <= chars.len(),
            chars@ == text@,
            forall|j: int| 0 <= j < i ==> text@[j] != wanted,
        decreases chars.len() - i,
    {
        if chars[i] == wanted {
            return true;
        }
        i += 1;
    }
    false
}

/// `text` ends with `suffix`.
pub fn ends_with(text: &str, suffix: &str) -> (result: bool)
    ensures
        result == has_suffix(text@, suffix@),
{
    let length: usize = text.unicode_len();
    let tail: usize = suffix.unicode_len();
    if length < tail {
        return false;
    }
    same_text(text.substring_char(length - tail, length), suffix)
}

/// What follows the first `::` of `text`; all of `text` when it has none.
pub fn strip_to_separator(text: &str) -> (result: String)
    ensures
        result@ == after_separator(text@),
{
    let chars = chars_of(text);
    let mut i: usize = 0;
    while i < chars.len()
        invariant
            i <= chars.len(),
            chars@ == text@,
            forall|j: int| #![trigger separator_at(text@, j)] 0 <= j < i ==> !separator_at(text@, j),
        decreases chars.len() - i,
    {
        if chars.len() - i > 1 && chars[i] == ':' && chars[i + 1] == ':' {
            proof {
                assert(separator_at(text@, i as int));
                assert(first_separator(text@, i as int));
                let chosen = choose|k: int| first_separator(text@, k);
                assert(first_separator(text@, chosen));
                assert(chosen == i);
            }
            return text.substring_char(i + 2, chars.len()).to_owned();
        }
        i += 1;
    }
    proof {
        assert forall|j: int| !separator_at(text@, j) by {}
    }
    text.to_owned()
}

/// The parts in order, with `separator` between each two of them.
pub fn join(parts: &Vec<String>, separator: &str) -> (result: String)
    ensures
        result@ == joined(parts.deep_view(), separator@),
{
    let mut result = String::new();
    let ghost views = parts.deep_view();
    let mut i: usize = 0;
    while i < parts.len()
        invariant
            i <= parts.len(),
            views == parts.deep_view(),
            result@ == joined(views.take(i as int), separator@),
        decreases parts.len() - i,
    {
        proof {
            assert(views.take(i + 1).drop_last() == views.take(i as int));
            assert(views.take(i + 1).last() == parts[i as int]@);
        }
        if i > 0 {
            result.append(separator);
        }
        result.append(parts[i].as_str());
        i += 1;
    }
    proof {
        assert(views.take(views.len() as int) == views);
    }
    result
}

fn digit_text(n: usize) -> (result: &'static str)
    requires
        n < 10,
    ensures
        result@ == seq![digit(n as nat)],
{
    proof {
        reveal_strlit("0");
        reveal_strlit("1");
        reveal_strlit("2");
        reveal_strlit("3");
        reveal_strlit("4");
        reveal_strlit("5");
        reveal_strlit("6");
        reveal_strlit("7");
        reveal_strlit("8");
        reveal_strlit("9");
    }
    if n == 0 {
        "0"
    } else if n == 1 {
        "1"
    } else if n == 2 {
        "2"
    } else if n == 3 {
        "3"
    } else if n == 4 {
        "4"
    } else if n == 5 {
        "5"
    } else if n == 6 {
        "6"
    } else if n == 7 {
        "7"
    } else if n == 8 {
        "8"
    } else {
        "9"
    }
}

/// A number written in decimal, without leading zeros.
pub fn decimal_text(n: usize) -> (result: String)
    ensures
        result@ == decimal(n as nat),
    decreases n,
{
    if n < 10 {
        digit_text(n).to_owned()
    } else {
        let mut result = decimal_text(n / 10);
        result.append(digit_text(n % 10));
        result
    }
}

} // verus!
