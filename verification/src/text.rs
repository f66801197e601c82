//! Character-level helpers shared by the parsers.

use vstd::prelude::*;

verus! {

/// The position of the first `c` in `s` at or after `from`, or `s.len()` when
/// there is none.
pub open spec fn first_at(s: Seq<char>, c: char, from: int) -> int
    decreases s.len() - from,
{
    if from < 0 || from >= s.len() {
        s.len() as int
    } else if s[from] == c {
        from
    } else {
        first_at(s, c, from + 1)
    }
}

/// Appends one character to a string with `String::push`: the new contents
/// are the old ones followed by `c`.
#[verifier::external_body]
fn push_char(s: &mut String, c: char)
    ensures
        final(s)@ == old(s)@.push(c),
{
    s.push(c)
}

/// Whether two strings hold the same characters, by `str`'s `==`.
#[verifier::external_body]
pub(crate) fn same_text(a: &str, b: &str) -> (same: bool)
    ensures
        same == (a@ == b@),
{
    a == b
}

/// Whether `char::is_whitespace` holds of `c`.
pub uninterp spec fn is_white(c: char) -> bool;

/// Asks `char::is_whitespace` of a character. The contract claims only that
/// the answer is the same every time.
#[verifier::external_body]
fn char_is_whitespace(c: char) -> (white: bool)
    ensures
        white == is_white(c),
{
    c.is_whitespace()
}

/// The position of the first character of `s` at or after `from` that is no
/// white space, or `s.len()`.
pub open spec fn first_black(s: Seq<char>, from: int) -> int
    decreases s.len() - from,
{
    if from < 0 || from >= s.len() {
        s.len() as int
    } else if !is_white(s[from]) {
        from
    } else {
        first_black(s, from + 1)
    }
}

/// The position behind the last character of `s` before `to` that is no
/// white space, or zero.
pub open spec fn last_black(s: Seq<char>, to: int) -> int
    decreases to,
{
    if to <= 0 || to > s.len() {
        0
    } else if !is_white(s[to - 1]) {
        to
    } else {
        last_black(s, to - 1)
    }
}

/// A text without the white space at its two ends.
pub open spec fn trimmed(s: Seq<char>) -> Seq<char> {
    let from = first_black(s, 0);
    let to = last_black(s, s.len() as int);
    if from <= to {
        s.subrange(from, to)
    } else {
        Seq::empty()
    }
}

/// The characters of `s`, in order.
pub fn to_chars(s: &str) -> (v: Vec<char>)
    ensures
        v@ == s@,
{
    let mut v: Vec<char> = Vec::new();
    for c in it: s.chars()
        invariant
            it.seq() == s@,
            v@ == s@.take(it.index() as int),
    {
        v.push(c);
    }
    v
}

/// The string made of `cs[from..to]`.
pub fn string_of(cs: &Vec<char>, from: usize, to: usize) -> (s: String)
    requires
        from <= to <= cs.len(),
    ensures
        s@ == cs@.subrange(from as int, to as int),
{
    let mut s = String::new();
    let mut i: usize = from;
    while i < to
        invariant
            from <= i <= to <= cs.len(),
            s@ == cs@.subrange(from as int, i as int),
        decreases to - i,
    {
        push_char(&mut s, cs[i]);
        i += 1;
        assert(s@ =~= cs@.subrange(from as int, i as int));
    }
    s
}

/// The position, counted from `from`, of the first `c` in `cs[from..to]`, or
/// `to - from` when there is none.
pub fn find_char(cs: &Vec<char>, c: char, from: usize, to: usize) -> (at: usize)
    requires
        from <= to <= cs.len(),
    ensures
        at == first_at(cs@.subrange(from as int, to as int), c, 0),
        at <= to - from,
{
    let ghost body = cs@.subrange(from as int, to as int);
    let mut i: usize = from;
    while i < to
        invariant
            from <= i <= to <= cs.len(),
            body == cs@.subrange(from as int, to as int),
            first_at(body, c, 0) == first_at(body, c, i - from),
        decreases to - i,
    {
        if cs[i] == c {
            return i - from;
        }
        i += 1;
    }
    i - from
}

/// The texts of a list of strings.
pub open spec fn texts(v: Seq<String>) -> Seq<Seq<char>> {
    v.map_values(|s: String| s@)
}

/// The characters of an optional string.
pub open spec fn opt_text(o: Option<String>) -> Option<Seq<char>> {
    match o {
        Some(s) => Some(s@),
        None => None,
    }
}

/// The texts of a list of pairs of strings.
pub open spec fn text_pairs(v: Seq<(String, String)>) -> Seq<(Seq<char>, Seq<char>)> {
    v.map_values(|p: (String, String)| (p.0@, p.1@))
}

/// The position of the first `key` in `keys` at or after `from`, or
/// `keys.len()` when there is none.
pub open spec fn position(keys: Seq<Seq<char>>, key: Seq<char>, from: int) -> int
    decreases keys.len() - from,
{
    if from < 0 || from >= keys.len() {
        keys.len() as int
    } else if keys[from] == key {
        from
    } else {
        position(keys, key, from + 1)
    }
}

/// `position` lands on the first occurrence of the key, or on the end.
pub proof fn lemma_position(keys: Seq<Seq<char>>, key: Seq<char>, from: int)
    requires
        0 <= from <= keys.len(),
    ensures
        from <= position(keys, key, from) <= keys.len(),
        position(keys, key, from) < keys.len() ==> keys[position(keys, key, from)] == key,
        forall|k: int| from <= k < position(keys, key, from) ==> keys[k] != key,
    decreases keys.len() - from,
{
    if from < keys.len() && keys[from] != key {
        lemma_position(keys, key, from + 1);
    }
}

/// A key has a position exactly when it occurs.
pub proof fn lemma_position_contains(keys: Seq<Seq<char>>, key: Seq<char>)
    ensures
        position(keys, key, 0) < keys.len() <==> keys.contains(key),
{
    lemma_position(keys, key, 0);
    let p = position(keys, key, 0);
    if keys.contains(key) {
        let k = choose|k: int| 0 <= k < keys.len() && keys[k] == key;
        assert(p <= k);
    }
}

/// A text without the white space at its two ends.
pub fn trim(text: &str) -> (rest: String)
    ensures
        rest@ == trimmed(text@),
{
    let cs = to_chars(text);
    let mut from: usize = 0;
    while from < cs.len() && char_is_whitespace(cs[from])
        invariant
            from <= cs.len(),
            first_black(cs@, 0) == first_black(cs@, from as int),
        decreases cs.len() - from,
    {
        from += 1;
    }
    let mut to: usize = cs.len();
    while to > 0 && char_is_whitespace(cs[to - 1])
        invariant
            to <= cs.len(),
            last_black(cs@, cs.len() as int) == last_black(cs@, to as int),
        decreases to,
    {
        to -= 1;
    }
    if from <= to {
        string_of(&cs, from, to)
    } else {
        String::new()
    }
}

/// A copy of a list of strings.
pub fn clone_texts(v: &Vec<String>) -> (copy: Vec<String>)
    ensures
        texts(copy@) == texts(v@),
{
    let mut copy: Vec<String> = Vec::new();
    let mut i: usize = 0;
    while i < v.len()
        invariant
            i <= v.len(),
            copy.len() == i,
            forall|k: int| 0 <= k < i ==> (#[trigger] copy@[k])@ == v@[k]@,
        decreases v.len() - i,
    {
        copy.push(v[i].clone());
        i += 1;
    }
    assert(texts(copy@) =~= texts(v@));
    copy
}

/// The position of the first string of `v` that reads `key`, or the length
/// of `v`.
pub fn find_text(v: &Vec<String>, key: &str) -> (at: usize)
    ensures
        at == position(texts(v@), key@, 0),
        at <= v.len(),
{
    let mut i: usize = 0;
    while i < v.len()
        invariant
            i <= v.len(),
            position(texts(v@), key@, 0) == position(texts(v@), key@, i as int),
        decreases v.len() - i,
    {
        if same_text(v[i].as_str(), key) {
            return i;
        }
        i += 1;
    }
    i
}

} // verus!
