//! Text primitives: conversion between strings and character vectors,
//! concatenation, splitting, trimming, and numerals.

use vstd::prelude::*;
use vstd::string::*;

verus! {

/// `String::push`: appends one character to the end of the string.
pub assume_specification[ String::push ](s: &mut String, c: char)
    ensures
        final(s)@ == old(s)@.push(c),
;

/// The views of a sequence of strings.
pub open spec fn texts(v: Seq<String>) -> Seq<Seq<char>> {
    v.map_values(|s: String| s@)
}

/// The view of an optional string.
pub open spec fn opt_text(v: Option<String>) -> Option<Seq<char>> {
    match v {
        Some(s) => Some(s@),
        None => None,
    }
}

/// The characters of a string, in order.
pub fn to_chars(s: &str) -> (r: Vec<char>)
    ensures
        r@ == s@,
{
    let mut out: Vec<char> = Vec::new();
    for c in it: s.chars()
        invariant
            out@ == it.seq().take(it.index()),
            it.seq() == s@,
    {
        out.push(c);
    }
    out
}

/// The string made of the given characters.
pub fn from_chars(v: &Vec<char>) -> (r: String)
    ensures
        r@ == v@,
{
    let mut out = String::new();
    let mut i: usize = 0;
    while i < v.len()
        invariant
            i <= v.len(),
            out@ == v@.take(i as int),
        decreases v.len() - i,
    {
        out.push(v[i]);
        i += 1;
    }
    out
}

/// Whether two texts are the same.
pub fn text_eq(a: &str, b: &str) -> (r: bool)
    ensures
        r == (a@ == b@),
{
    let x = to_chars(a);
    let y = to_chars(b);
    if x.len() != y.len() {
        return false;
    }
    let mut i: usize = 0;
    while i < x.len()
        invariant
            i <= x.len(),
            x.len() == y.len(),
            x@ == a@,
            y@ == b@,
            forall|j: int| 0 <= j < i ==> x[j] == y[j],
        decreases x.len() - i,
    {
        if x[i] != y[i] {
            return false;
        }
        i += 1;
    }
    assert(a@ =~= b@);
    true
}

/// `a` followed by `b`.
pub fn cat(a: &str, b: &str) -> (r: String)
    ensures
        r@ == a@ + b@,
{
    let mut out = a.to_owned();
    out.append(b);
    out
}

/// `a`, `b` and `c` one after the other.
pub fn cat3(a: &str, b: &str, c: &str) -> (r: String)
    ensures
        r@ == a@ + b@ + c@,
{
    let mut out = a.to_owned();
    out.append(b);
    out.append(c);
    out
}

/// Five pieces one after the other.
pub fn cat5(a: &str, b: &str, c: &str, d: &str, e: &str) -> (r: String)
    ensures
        r@ == a@ + b@ + c@ + d@ + e@,
{
    let mut out = a.to_owned();
    out.append(b);
    out.append(c);
    out.append(d);
    out.append(e);
    out
}

/// A copy of a list of strings.
pub fn clone_texts(v: &Vec<String>) -> (r: Vec<String>)
    ensures
        r@ == v@,
{
    let mut out: Vec<String> = Vec::new();
    let mut i: usize = 0;
    while i < v.len()
        invariant
            i <= v.len(),
            out@ == v@.take(i as int),
        decreases v.len() - i,
    {
        out.push(v[i].clone());
        i += 1;
    }
    out
}

/// A copy of an optional string.
pub fn clone_opt_text(v: &Option<String>) -> (r: Option<String>)
    ensures
        r == *v,
{
    match v {
        Some(s) => Some(s.clone()),
        None => None,
    }
}

/// The pieces of `list` with `sep` between neighbours.
pub open spec fn join_spec(list: Seq<Seq<char>>, sep: Seq<char>) -> Seq<char>
    decreases list.len(),
{
    if list.len() == 0 {
        Seq::empty()
    } else if list.len() == 1 {
        list[0]
    } else {
        join_spec(list.drop_last(), sep) + sep + list.last()
    }
}

/// Joins strings with a separator between neighbours.
pub fn join(list: &Vec<String>, sep: &str) -> (r: String)
    ensures
        r@ == join_spec(texts(list@), sep@),
{
    let mut out = String::new();
    let mut i: usize = 0;
    while i < list.len()
        invariant
            i <= list.len(),
            out@ == join_spec(texts(list@).take(i as int), sep@),
        decreases list.len() - i,
    {
        if i > 0 {
            out.append(sep);
        }
        out.append(list[i].as_str());
        proof {
            let t = texts(list@);
            assert(t.take(i + 1).drop_last() =~= t.take(i as int));
            assert(t.take(i + 1).last() == list[i as int]@);
        }
        i += 1;
    }
    proof {
        assert(texts(list@).take(list.len() as int) =~= texts(list@));
    }
    out
}

/// The pieces of `s` between occurrences of `c`; there is always one piece
/// more than there are occurrences.
pub open spec fn split_spec(s: Seq<char>, c: char) -> Seq<Seq<char>>
    decreases s.len(),
{
    if s.len() == 0 {
        seq![Seq::empty()]
    } else {
        let before = split_spec(s.drop_last(), c);
        if s.last() == c {
            before.push(Seq::empty())
        } else {
            before.drop_last().push(before.last().push(s.last()))
        }
    }
}

/// There is always at least one piece.
pub proof fn lemma_split_nonempty(s: Seq<char>, c: char)
    ensures
        split_spec(s, c).len() > 0,
    decreases s.len(),
{
    if s.len() > 0 {
        lemma_split_nonempty(s.drop_last(), c);
    }
}

/// What holds no separator extends the last piece.
pub proof fn lemma_split_extend(s: Seq<char>, t: Seq<char>, c: char)
    requires
        !t.contains(c),
    ensures
        split_spec(s + t, c) == split_spec(s, c).drop_last().push(split_spec(s, c).last() + t),
    decreases t.len(),
{
    lemma_split_nonempty(s, c);
    let base = split_spec(s, c);
    if t.len() == 0 {
        assert(s + t =~= s);
        assert(base.last() + t =~= base.last());
        assert(base.drop_last().push(base.last()) =~= base);
    } else {
        assert(t.contains(t.last()));
        assert forall|x: char| t.drop_last().contains(x) implies t.contains(x) by {
            let i = choose|i: int| 0 <= i < t.drop_last().len() && t.drop_last()[i] == x;
            assert(t[i] == x);
        }
        lemma_split_extend(s, t.drop_last(), c);
        assert((s + t).drop_last() =~= s + t.drop_last());
        let before = split_spec(s + t.drop_last(), c);
        assert(before.drop_last() =~= base.drop_last());
        assert(before.last().push(t.last()) =~= base.last() + t);
    }
}

/// Pieces without the separator that are joined with it split back.
pub proof fn lemma_join_splits_back(list: Seq<Seq<char>>, c: char)
    requires
        list.len() > 0,
        forall|i: int| 0 <= i < list.len() ==> !(#[trigger] list[i]).contains(c),
    ensures
        split_spec(join_spec(list, seq![c]), c) == list,
    decreases list.len(),
{
    let nothing = Seq::<char>::empty();
    if list.len() == 1 {
        lemma_split_extend(nothing, list[0], c);
        assert(nothing + list[0] =~= list[0]);
        assert(split_spec(nothing, c) =~= seq![nothing]);
        assert(split_spec(nothing, c).drop_last().push(list[0]) =~= list);
    } else {
        let before = list.drop_last();
        assert forall|i: int| 0 <= i < before.len() implies !(#[trigger] before[i]).contains(c) by {
            assert(before[i] == list[i]);
        }
        lemma_join_splits_back(before, c);
        let s = join_spec(before, seq![c]);
        let t = list.last();
        assert(!list[list.len() - 1].contains(c));
        lemma_split_extend(s + seq![c], t, c);
        assert((s + seq![c]).drop_last() =~= s);
        assert(split_spec(s + seq![c], c) == before.push(nothing));
        assert(before.push(nothing).drop_last() =~= before);
        assert(nothing + t =~= t);
        assert(before.push(t) =~= list);
    }
}

/// Splits a string at every occurrence of a character.
pub fn split(s: &str, c: char) -> (r: Vec<String>)
    ensures
        texts(r@) == split_spec(s@, c),
{
    let chars = to_chars(s);
    let mut done: Vec<String> = Vec::new();
    let mut cur = String::new();
    let mut i: usize = 0;
    proof {
        assert(texts(done@).push(cur@) =~= split_spec(s@.take(0), c));
    }
    while i < chars.len()
        invariant
            i <= chars.len(),
            chars@ == s@,
            texts(done@).push(cur@) == split_spec(s@.take(i as int), c),
        decreases chars.len() - i,
    {
        proof {
            assert(s@.take(i + 1).drop_last() =~= s@.take(i as int));
            assert(s@.take(i + 1).last() == chars[i as int]);
            assert(texts(done@).push(cur@).drop_last() =~= texts(done@));
        }
        if chars[i] == c {
            let ghost before = done@;
            done.push(cur);
            cur = String::new();
            proof {
                assert(texts(done@) =~= texts(before).push(done@.last()@));
            }
        } else {
            cur.push(chars[i]);
        }
        i += 1;
    }
    let ghost before = done@;
    done.push(cur);
    proof {
        assert(s@.take(chars.len() as int) =~= s@);
        assert(texts(done@) =~= texts(before).push(done@.last()@));
    }
    done
}

/// A line without the carriage return that its line break may begin with.
pub open spec fn strip_cr_spec(s: Seq<char>) -> Seq<char> {
    if s.len() > 0 && s.last() == '\r' {
        s.drop_last()
    } else {
        s
    }
}

/// The lines of a text. A line ends with a line feed, which a carriage return
/// may precede; the last one may go without.
pub open spec fn lines_spec(s: Seq<char>) -> Seq<Seq<char>> {
    let pieces = split_spec(s, '\n');
    let closed = pieces.drop_last().map_values(|p: Seq<char>| strip_cr_spec(p));
    if pieces.last().len() == 0 {
        closed
    } else {
        closed.push(pieces.last())
    }
}

/// A line without the carriage return that its line break may begin with.
fn strip_cr(s: &str) -> (r: String)
    ensures
        r@ == strip_cr_spec(s@),
{
    let mut chars = to_chars(s);
    if chars.len() > 0 && chars[chars.len() - 1] == '\r' {
        chars.pop();
        proof {
            assert(chars@ =~= s@.drop_last());
        }
    }
    from_chars(&chars)
}

/// The lines of a text.
pub fn lines(s: &str) -> (r: Vec<String>)
    ensures
        texts(r@) == lines_spec(s@),
{
    let mut pieces = split(s, '\n');
    proof {
        lemma_split_nonempty(s@, '\n');
        assert(texts(pieces@).len() == pieces@.len());
        assert(texts(pieces@).drop_last().len() == pieces@.len() - 1);
    }
    let mut out: Vec<String> = Vec::new();
    let mut i: usize = 0;
    while i < pieces.len() - 1
        invariant
            pieces.len() > 0,
            i <= pieces.len() - 1,
            i == out.len(),
            forall|j: int| 0 <= j < i ==> (#[trigger] out[j])@ == strip_cr_spec(pieces[j]@),
        decreases pieces.len() - i,
    {
        let line = strip_cr(pieces[i].as_str());
        out.push(line);
        i += 1;
    }
    let ghost all = texts(pieces@);
    let ghost closed = all.drop_last().map_values(|p: Seq<char>| strip_cr_spec(p));
    proof {
        assert(texts(out@) =~= closed);
        assert(all.last() == pieces@.last()@);
    }
    match pieces.pop() {
        Some(last) => {
            if !last.as_str().is_empty() {
                let ghost before = out@;
                out.push(last);
                proof {
                    assert(texts(out@) =~= texts(before).push(last@));
                }
            }
        },
        None => {},
    }
    out
}

/// The characters with the Unicode `White_Space` property.
pub open spec fn is_space_spec(c: char) -> bool {
    let n = c as u32;
    ||| 0x9 <= n <= 0xd
    ||| n == 0x20
    ||| n == 0x85
    ||| n == 0xa0
    ||| n == 0x1680
    ||| 0x2000 <= n <= 0x200a
    ||| n == 0x2028
    ||| n == 0x2029
    ||| n == 0x202f
    ||| n == 0x205f
    ||| n == 0x3000
}

/// Whether a character counts as white space.
pub fn is_space(c: char) -> (r: bool)
    ensures
        r == is_space_spec(c),
{
    let n: u32 = c as u32;
    (0x9 <= n && n <= 0xd) || n == 0x20 || n == 0x85 || n == 0xa0 || n == 0x1680
        || (0x2000 <= n && n <= 0x200a) || n == 0x2028 || n == 0x2029 || n == 0x202f
        || n == 0x205f || n == 0x3000
}

/// `s` without its trailing white space.
pub open spec fn trim_end_spec(s: Seq<char>) -> Seq<char>
    decreases s.len(),
{
    if s.len() > 0 && is_space_spec(s.last()) {
        trim_end_spec(s.drop_last())
    } else {
        s
    }
}

/// `s` without its leading white space.
pub open spec fn trim_start_spec(s: Seq<char>) -> Seq<char>
    decreases s.len(),
{
    if s.len() > 0 && is_space_spec(s[0]) {
        trim_start_spec(s.drop_first())
    } else {
        s
    }
}

/// `s` without white space at either end.
pub open spec fn trim_spec(s: Seq<char>) -> Seq<char> {
    trim_end_spec(trim_start_spec(s))
}

/// Trimming only takes characters away from the ends.
pub proof fn lemma_trim_is_part(s: Seq<char>)
    ensures
        trim_start_spec(s).len() <= s.len(),
        trim_start_spec(s) == s.skip(s.len() - trim_start_spec(s).len()),
        trim_spec(s).len() <= trim_start_spec(s).len(),
        trim_spec(s) == trim_start_spec(s).take(trim_spec(s).len() as int),
{
    lemma_trim_start(s);
    lemma_trim_end(trim_start_spec(s));
}

proof fn lemma_trim_start(s: Seq<char>)
    ensures
        trim_start_spec(s).len() <= s.len(),
        trim_start_spec(s) == s.skip(s.len() - trim_start_spec(s).len()),
    decreases s.len(),
{
    if s.len() > 0 && is_space_spec(s[0]) {
        let rest = s.drop_first();
        lemma_trim_start(rest);
        let n = trim_start_spec(s).len();
        assert(rest.skip(rest.len() - n) =~= s.skip(s.len() - n));
    } else {
        assert(s.skip(0) =~= s);
    }
}

proof fn lemma_trim_end(s: Seq<char>)
    ensures
        trim_end_spec(s).len() <= s.len(),
        trim_end_spec(s) == s.take(trim_end_spec(s).len() as int),
    decreases s.len(),
{
    if s.len() > 0 && is_space_spec(s.last()) {
        let rest = s.drop_last();
        lemma_trim_end(rest);
        let n = trim_end_spec(s).len() as int;
        assert(rest.take(n) =~= s.take(n));
    } else {
        assert(s.take(s.len() as int) =~= s);
    }
}

/// Removes trailing white space from a character vector.
pub fn trim_end_chars(v: &mut Vec<char>)
    ensures
        final(v)@ == trim_end_spec(old(v)@),
{
    let ghost start = v@;
    while v.len() > 0 && is_space(v[v.len() - 1])
        invariant
            trim_end_spec(v@) == trim_end_spec(start),
        decreases v.len(),
    {
        let ghost before = v@;
        v.pop();
        proof {
            assert(v@ =~= before.drop_last());
        }
    }
}

/// The characters of a string without its leading white space.
pub fn trim_start_chars(s: &str) -> (r: Vec<char>)
    ensures
        r@ == trim_start_spec(s@),
{
    let mut chars = to_chars(s);
    let mut start: usize = 0;
    proof {
        assert(s@.skip(0) =~= s@);
    }
    while start < chars.len() && is_space(chars[start])
        invariant
            start <= chars.len(),
            chars@ == s@,
            trim_start_spec(s@.skip(start as int)) == trim_start_spec(s@),
        decreases chars.len() - start,
    {
        proof {
            assert(s@.skip(start as int).drop_first() =~= s@.skip(start + 1));
        }
        start += 1;
    }
    let rest = chars.split_off(start);
    proof {
        assert(rest@ =~= s@.skip(start as int));
    }
    rest
}

/// The string without white space at either end.
pub fn trim(s: &str) -> (r: String)
    ensures
        r@ == trim_spec(s@),
{
    let mut rest = trim_start_chars(s);
    trim_end_chars(&mut rest);
    from_chars(&rest)
}

/// Whether `s` begins with `p`.
pub open spec fn starts_with_spec(s: Seq<char>, p: Seq<char>) -> bool {
    p.len() <= s.len() && s.take(p.len() as int) == p
}

/// What follows the prefix `p` of `s`, if `s` begins with it.
pub fn strip_prefix(s: &str, p: &str) -> (r: Option<String>)
    ensures
        r is Some <==> starts_with_spec(s@, p@),
        r is Some ==> r->0@ == s@.skip(p@.len() as int),
{
    let mut x = to_chars(s);
    let y = to_chars(p);
    if y.len() > x.len() {
        return None;
    }
    let mut i: usize = 0;
    while i < y.len()
        invariant
            i <= y.len() <= x.len(),
            x@ == s@,
            y@ == p@,
            forall|j: int| 0 <= j < i ==> x[j] == y[j],
        decreases y.len() - i,
    {
        if x[i] != y[i] {
            proof {
                assert(s@.take(p@.len() as int)[i as int] != p@[i as int]);
            }
            return None;
        }
        i += 1;
    }
    proof {
        assert(s@.take(p@.len() as int) =~= p@);
    }
    let rest = x.split_off(y.len());
    proof {
        assert(rest@ =~= s@.skip(p@.len() as int));
    }
    Some(from_chars(&rest))
}

/// Whether `s` begins with `p`.
pub fn starts_with(s: &str, p: &str) -> (r: bool)
    ensures
        r == starts_with_spec(s@, p@),
{
    match strip_prefix(s, p) {
        Some(_) => true,
        None => false,
    }
}

/// Whether `s` ends with `p`.
pub open spec fn ends_with_spec(s: Seq<char>, p: Seq<char>) -> bool {
    p.len() <= s.len() && s.skip(s.len() - p.len()) == p
}

/// What precedes the suffix `p` of `s`, if `s` ends with it.
pub fn strip_suffix(s: &str, p: &str) -> (r: Option<String>)
    ensures
        r is Some <==> ends_with_spec(s@, p@),
        r is Some ==> r->0@ == s@.take(s@.len() - p@.len()),
{
    let mut x = to_chars(s);
    let y = to_chars(p);
    if y.len() > x.len() {
        return None;
    }
    let cut: usize = x.len() - y.len();
    let mut i: usize = 0;
    while i < y.len()
        invariant
            i <= y.len() <= x.len(),
            cut == x.len() - y.len(),
            x@ == s@,
            y@ == p@,
            forall|j: int| 0 <= j < i ==> x[cut + j] == y[j],
        decreases y.len() - i,
    {
        if x[cut + i] != y[i] {
            proof {
                assert(s@.skip(s@.len() - p@.len())[i as int] != p@[i as int]);
            }
            return None;
        }
        i += 1;
    }
    proof {
        assert(s@.skip(s@.len() - p@.len()) =~= p@);
    }
    x.truncate(cut);
    proof {
        assert(x@ =~= s@.take(s@.len() - p@.len()));
    }
    Some(from_chars(&x))
}

/// Whether `p` occurs in `s`.
pub open spec fn contains_spec(s: Seq<char>, p: Seq<char>) -> bool {
    exists|i: int| 0 <= i <= s.len() && #[trigger] starts_with_spec(s.skip(i), p)
}

/// Whether `p` occurs in `s`.
pub fn contains(s: &str, p: &str) -> (r: bool)
    ensures
        r == contains_spec(s@, p@),
{
    let n: usize = s.unicode_len();
    if p.is_empty() {
        proof {
            assert(s@.skip(0).take(0) =~= p@);
            assert(starts_with_spec(s@.skip(0), p@));
        }
        return true;
    }
    let mut i: usize = 0;
    while i < n
        invariant
            i <= n,
            n == s@.len(),
            forall|j: int| 0 <= j < i ==> !#[trigger] starts_with_spec(s@.skip(j), p@),
        decreases n - i,
    {
        let rest = s.substring_char(i, n);
        proof {
            assert(rest@ =~= s@.skip(i as int));
        }
        if starts_with(rest, p) {
            return true;
        }
        i += 1;
    }
    false
}

/// A character in ASCII lower case.
pub open spec fn ascii_lower_char(c: char) -> char {
    if 'A' <= c <= 'Z' {
        ((c as u32) + 32) as char
    } else {
        c
    }
}

/// `s` with its ASCII letters in lower case.
pub open spec fn ascii_lower_spec(s: Seq<char>) -> Seq<char> {
    s.map_values(|c: char| ascii_lower_char(c))
}

/// Whether a text is made of ASCII characters.
pub open spec fn is_ascii_text(s: Seq<char>) -> bool {
    forall|i: int| 0 <= i < s.len() ==> (#[trigger] s[i] as u32) < 128
}

/// `char::to_lowercase`: the lower case of a character, which may be several
/// characters.
pub uninterp spec fn lower_of(c: char) -> Seq<char>;

/// `char::to_lowercase`, collected: a function of the character, of at least
/// one character. Of an ASCII character it is the ASCII lower case.
#[verifier::external_body]
pub(crate) fn to_lower_of(c: char) -> (r: String)
    ensures
        r@ == lower_of(c),
        r@.len() > 0,
        (c as u32) < 128 ==> r@ == seq![ascii_lower_char(c)],
{
    c.to_lowercase().to_string()
}

/// The characters of a text, each in lower case.
pub open spec fn lowered(s: Seq<char>) -> Seq<Seq<char>> {
    s.map_values(|c: char| lower_of(c))
}

/// The characters of a text, each in ASCII lower case.
pub open spec fn ascii_lowered(s: Seq<char>) -> Seq<Seq<char>> {
    s.map_values(|c: char| seq![ascii_lower_char(c)])
}

/// The characters of a text, each in lower case.
pub fn lower_chars(s: &str) -> (r: Vec<String>)
    ensures
        texts(r@) == lowered(s@),
        is_ascii_text(s@) ==> texts(r@) == ascii_lowered(s@),
{
    let chars = to_chars(s);
    let mut out: Vec<String> = Vec::new();
    let mut i: usize = 0;
    while i < chars.len()
        invariant
            i <= chars.len(),
            out.len() == i,
            forall|j: int| 0 <= j < i ==> (#[trigger] out[j])@ == lower_of(chars[j]),
            forall|j: int|
                0 <= j < i && (chars[j] as u32) < 128 ==> (#[trigger] out[j])@
                    == seq![ascii_lower_char(chars[j])],
        decreases chars.len() - i,
    {
        out.push(to_lower_of(chars[i]));
        i += 1;
    }
    proof {
        assert(texts(out@) =~= lowered(s@));
        if is_ascii_text(s@) {
            assert(texts(out@) =~= ascii_lowered(s@));
        }
    }
    out
}

/// One character in ASCII lower case.
pub fn ascii_lower(c: char) -> (r: char)
    ensures
        r == ascii_lower_char(c),
{
    if 'A' <= c && c <= 'Z' {
        let b: u8 = c as u8;
        (b + 32) as char
    } else {
        c
    }
}

/// A string with its ASCII letters in lower case.
pub fn to_ascii_lower(s: &str) -> (r: String)
    ensures
        r@ == ascii_lower_spec(s@),
{
    let mut out = String::new();
    for c in it: s.chars()
        invariant
            out@ == ascii_lower_spec(it.seq().take(it.index())),
            it.seq() == s@,
    {
        out.push(ascii_lower(c));
        proof {
            assert(it.seq().take(it.index() + 1) =~= it.seq().take(it.index()).push(c));
        }
    }
    proof {
        assert(s@.take(s@.len() as int) =~= s@);
    }
    out
}

/// The digit character of a value below sixteen.
pub open spec fn digit_char(d: nat) -> char {
    if d < 10 {
        (48 + d) as char
    } else {
        (87 + d) as char
    }
}

/// The numeral of `n` in the given base, most significant digit first,
/// without leading zeros.
pub open spec fn numeral(n: nat, base: nat) -> Seq<char>
    decreases n,
{
    if base < 2 || n < base {
        seq![digit_char(n)]
    } else {
        proof {
            assert(n / base < n) by (nonlinear_arith)
                requires
                    2 <= base <= n,
            ;
        }
        numeral(n / base, base).push(digit_char(n % base))
    }
}

/// The digit character of a value below sixteen.
pub fn write_digit(d: u64) -> (r: char)
    requires
        d < 16,
    ensures
        r == digit_char(d as nat),
{
    if d < 10 {
        (48 + d as u8) as char
    } else {
        (87 + d as u8) as char
    }
}

/// Writes a number in a base up to sixteen, letters in lower case.
pub fn write_numeral(n: u64, base: u64) -> (r: String)
    requires
        2 <= base <= 16,
    ensures
        r@ == numeral(n as nat, base as nat),
    decreases n,
{
    if n < base {
        let mut out = String::new();
        out.push(write_digit(n));
        proof {
            assert(out@ =~= seq![digit_char(n as nat)]);
        }
        out
    } else {
        proof {
            assert(n / base < n && n % base < base) by (nonlinear_arith)
                requires
                    2 <= base <= n,
            ;
        }
        let mut out = write_numeral(n / base, base);
        out.push(write_digit(n % base));
        out
    }
}

/// Different numbers have different numerals.
pub proof fn lemma_numeral_injective(a: nat, b: nat, base: nat)
    requires
        2 <= base <= 16,
        numeral(a, base) == numeral(b, base),
    ensures
        a == b,
    decreases a,
{
    lemma_numeral_filled(a / base, base);
    lemma_numeral_filled(b / base, base);
    if a < base || b < base {
        assert(a >= base ==> numeral(a, base) == numeral(a / base, base).push(
            digit_char(a % base),
        ));
        assert(b >= base ==> numeral(b, base) == numeral(b / base, base).push(
            digit_char(b % base),
        ));
        assert(a < base ==> numeral(a, base).len() == 1);
        assert(b < base ==> numeral(b, base).len() == 1);
        assert(numeral(a, base)[0] == digit_char(a));
        assert(numeral(b, base)[0] == digit_char(b));
    } else {
        assert(numeral(a, base).drop_last() =~= numeral(a / base, base));
        assert(numeral(b, base).drop_last() =~= numeral(b / base, base));
        assert(numeral(a, base).last() == digit_char(a % base));
        assert(numeral(b, base).last() == digit_char(b % base));
        assert(a / base < a && a % base < base && b % base < base) by (nonlinear_arith)
            requires
                2 <= base <= a,
        ;
        lemma_numeral_injective(a / base, b / base, base);
        assert(a == b) by (nonlinear_arith)
            requires
                base > 0,
                a / base == b / base,
                a % base == b % base,
        ;
    }
}

proof fn lemma_numeral_filled(n: nat, base: nat)
    ensures
        numeral(n, base).len() > 0,
{
    if base < 2 || n < base {
        assert(numeral(n, base).len() == 1);
    } else {
        assert(numeral(n, base).last() == digit_char(n % base));
    }
}

/// The decimal numeral of a number.
pub open spec fn decimal(n: int) -> Seq<char> {
    if n < 0 {
        seq!['-'] + numeral((-n) as nat, 10)
    } else {
        numeral(n as nat, 10)
    }
}

/// The decimal numeral of an unsigned number.
pub fn u64_to_decimal(n: u64) -> (r: String)
    ensures
        r@ == decimal(n as int),
{
    write_numeral(n, 10)
}

/// The decimal numeral of a signed number.
pub fn i64_to_decimal(n: i64) -> (r: String)
    ensures
        r@ == decimal(n as int),
{
    if n < 0 {
        let mut out = String::new();
        out.push('-');
        let m: u64 = (-(n + 1)) as u64 + 1;
        let t = write_numeral(m, 10);
        out.append(t.as_str());
        proof {
            assert(seq!['-'] =~= Seq::<char>::empty().push('-'));
        }
        out
    } else {
        write_numeral(n as u64, 10)
    }
}

/// The value of a decimal digit.
pub open spec fn digit_value(c: char) -> Option<nat> {
    if '0' <= c <= '9' {
        Some((c as u32 - 48) as nat)
    } else {
        None
    }
}

/// The value of a non-empty run of decimal digits.
pub open spec fn digits_value(s: Seq<char>) -> Option<nat>
    decreases s.len(),
{
    if s.len() == 0 {
        None
    } else {
        match digit_value(s.last()) {
            None => None,
            Some(d) => if s.len() == 1 {
                Some(d)
            } else {
                match digits_value(s.drop_last()) {
                    None => None,
                    Some(m) => Some(10 * m + d),
                }
            },
        }
    }
}

/// The integer that an optionally signed decimal numeral denotes.
pub open spec fn parse_int_spec(s: Seq<char>) -> Option<int> {
    if s.len() > 0 && s[0] == '-' {
        match digits_value(s.skip(1)) {
            Some(n) => Some(-(n as int)),
            None => None,
        }
    } else if s.len() > 0 && s[0] == '+' {
        match digits_value(s.skip(1)) {
            Some(n) => Some(n as int),
            None => None,
        }
    } else {
        match digits_value(s) {
            Some(n) => Some(n as int),
            None => None,
        }
    }
}

/// Reads an `i32` from a decimal numeral with an optional sign.
pub open spec fn parse_i32_spec(s: Seq<char>) -> Option<i32> {
    match parse_int_spec(s) {
        Some(n) => if i32::MIN <= n <= i32::MAX {
            Some(n as i32)
        } else {
            None
        },
        None => None,
    }
}

/// Reads a `u32` from a decimal numeral; a plus sign may precede it, a minus
/// sign may not.
pub open spec fn parse_u32_spec(s: Seq<char>) -> Option<u32> {
    if s.len() > 0 && s[0] == '-' {
        None
    } else {
        match parse_int_spec(s) {
            Some(n) => if n <= u32::MAX {
                Some(n as u32)
            } else {
                None
            },
            None => None,
        }
    }
}

proof fn lemma_digits_grow(s: Seq<char>, k: int)
    requires
        0 < k <= s.len(),
    ensures
        digits_value(s) is Some ==> digits_value(s.take(k)) is Some && digits_value(
            s.take(k),
        )->0 <= digits_value(s)->0,
    decreases s.len() - k,
{
    if k == s.len() {
        assert(s.take(k) =~= s);
    } else {
        lemma_digits_grow(s, k + 1);
        assert(s.take(k + 1).drop_last() =~= s.take(k));
    }
}

/// Reads the digits from position `from` on, as far as the value stays below
/// `limit`.
fn read_digits(chars: &Vec<char>, from: usize, limit: u64) -> (r: Option<u64>)
    requires
        from <= chars.len(),
        limit <= 0x1_0000_0000,
    ensures
        match digits_value(chars@.skip(from as int)) {
            Some(n) => if n < limit {
                r is Some && r->0 == n
            } else {
                r is None
            },
            None => r is None,
        },
{
    if from == chars.len() {
        return None;
    }
    let ghost all = chars@.skip(from as int);
    let mut acc: u64 = 0;
    let mut i: usize = from;
    while i < chars.len()
        invariant
            from <= i <= chars.len(),
            from < chars.len(),
            limit <= 0x1_0000_0000,
            all == chars@.skip(from as int),
            i == from ==> acc == 0,
            i > from ==> acc < limit && digits_value(all.take(i - from)) == Some(acc as nat),
        decreases chars.len() - i,
    {
        let c: char = chars[i];
        proof {
            assert(all.take(i + 1 - from).drop_last() =~= all.take(i - from));
            assert(all.take(i + 1 - from).last() == c);
        }
        if !('0' <= c && c <= '9') {
            proof {
                lemma_digits_grow(all, i + 1 - from);
            }
            return None;
        }
        acc = acc * 10 + ((c as u32) as u64 - 48);
        if acc >= limit {
            proof {
                lemma_digits_grow(all, i + 1 - from);
            }
            return None;
        }
        i += 1;
    }
    proof {
        assert(all.take(chars.len() - from) =~= all);
    }
    Some(acc)
}

/// Reads an `i32` from a decimal numeral with an optional sign.
pub fn parse_i32(s: &str) -> (r: Option<i32>)
    ensures
        r == parse_i32_spec(s@),
{
    let chars = to_chars(s);
    proof {
        assert(s@.skip(0) =~= s@);
    }
    if chars.len() > 0 && chars[0] == '-' {
        match read_digits(&chars, 1, 0x8000_0001) {
            Some(n) => Some((-(n as i64)) as i32),
            None => None,
        }
    } else {
        let from: usize = if chars.len() > 0 && chars[0] == '+' { 1 } else { 0 };
        match read_digits(&chars, from, 0x8000_0000) {
            Some(n) => Some(n as i32),
            None => None,
        }
    }
}

/// Reads a `u32` from a decimal numeral with an optional plus sign.
pub fn parse_u32(s: &str) -> (r: Option<u32>)
    ensures
        r == parse_u32_spec(s@),
{
    let chars = to_chars(s);
    proof {
        assert(s@.skip(0) =~= s@);
    }
    if chars.len() > 0 && chars[0] == '-' {
        return None;
    }
    let from: usize = if chars.len() > 0 && chars[0] == '+' { 1 } else { 0 };
    match read_digits(&chars, from, 0x1_0000_0000) {
        Some(n) => Some(n as u32),
        None => None,
    }
}

/// A decimal numeral has the value of the number that it was written from.
pub proof fn lemma_numeral_digits(n: nat)
    ensures
        digits_value(numeral(n, 10)) == Some(n),
        forall|i: int| 0 <= i < numeral(n, 10).len() ==> '0' <= #[trigger] numeral(n, 10)[i] <= '9',
        numeral(n, 10).len() > 0,
    decreases n,
{
    if n < 10 {
        assert(numeral(n, 10) =~= seq![digit_char(n)]);
    } else {
        lemma_numeral_digits(n / 10);
        let before = numeral(n / 10, 10);
        assert(numeral(n, 10).drop_last() =~= before);
        assert(before.len() > 0);
    }
}

/// A decimal numeral reads back as the number that it was written from.
pub proof fn lemma_decimal_reads_back(n: int)
    ensures
        parse_int_spec(decimal(n)) == Some(n),
        decimal(n).len() > 0,
        forall|i: int|
            0 <= i < decimal(n).len() ==> ('0' <= #[trigger] decimal(n)[i] <= '9') || (n < 0
                && decimal(n)[i] == '-'),
{
    if n < 0 {
        lemma_numeral_digits((-n) as nat);
        assert(decimal(n).skip(1) =~= numeral((-n) as nat, 10));
    } else {
        lemma_numeral_digits(n as nat);
    }
}

proof fn lemma_zero_in_front(t: Seq<char>)
    requires
        digits_value(t) is Some,
    ensures
        digits_value(seq!['0'] + t) == digits_value(t),
    decreases t.len(),
{
    let s = seq!['0'] + t;
    assert(s.last() == t.last());
    if t.len() == 1 {
        assert(s.drop_last() =~= seq!['0']);
        assert(digits_value(seq!['0']) == Some(0nat));
    } else {
        lemma_zero_in_front(t.drop_last());
        assert(s.drop_last() =~= seq!['0'] + t.drop_last());
    }
}

/// Zeros in front of digits do not change their value.
pub proof fn lemma_zeros_in_front(t: Seq<char>, k: nat)
    requires
        digits_value(t) is Some,
    ensures
        digits_value(Seq::new(k, |i: int| '0') + t) == digits_value(t),
    decreases k,
{
    let zeros = Seq::new(k, |i: int| '0');
    if k == 0 {
        assert(zeros + t =~= t);
    } else {
        let fewer = Seq::new((k - 1) as nat, |i: int| '0');
        lemma_zeros_in_front(t, (k - 1) as nat);
        lemma_zero_in_front(fewer + t);
        assert(zeros + t =~= seq!['0'] + (fewer + t));
    }
}

/// Joining texts is associative.
pub proof fn lemma_join_regroups(a: Seq<char>, b: Seq<char>, c: Seq<char>)
    ensures
        (a + b) + c == a + (b + c),
{
    assert((a + b) + c =~= a + (b + c));
}

/// A text that is joined of three has the second in its middle.
pub proof fn lemma_middle_part(front: Seq<char>, middle: Seq<char>, end: Seq<char>)
    ensures
        (front + middle + end).subrange(
            front.len() as int,
            (front.len() + middle.len()) as int,
        ) == middle,
        (front + middle + end).len() == front.len() + middle.len() + end.len(),
{
    assert((front + middle + end).subrange(
        front.len() as int,
        (front.len() + middle.len()) as int,
    ) =~= middle);
}

proof fn lemma_trim_start_takes_space(s: Seq<char>)
    ensures
        forall|i: int|
            0 <= i < s.len() - trim_start_spec(s).len() ==> is_space_spec(#[trigger] s[i]),
        trim_start_spec(s).len() > 0 ==> !is_space_spec(trim_start_spec(s)[0]),
    decreases s.len(),
{
    if s.len() > 0 && is_space_spec(s[0]) {
        let rest = s.drop_first();
        lemma_trim_start_takes_space(rest);
        assert forall|i: int| 0 <= i < s.len() - trim_start_spec(s).len() implies is_space_spec(
            #[trigger] s[i],
        ) by {
            if i > 0 {
                assert(rest[i - 1] == s[i]);
            }
        }
    }
}

proof fn lemma_trim_end_takes_space(s: Seq<char>)
    ensures
        forall|i: int| trim_end_spec(s).len() <= i < s.len() ==> is_space_spec(#[trigger] s[i]),
        trim_end_spec(s).len() > 0 ==> !is_space_spec(trim_end_spec(s).last()),
    decreases s.len(),
{
    if s.len() > 0 && is_space_spec(s.last()) {
        let rest = s.drop_last();
        lemma_trim_end_takes_space(rest);
        assert forall|i: int| trim_end_spec(s).len() <= i < s.len() implies is_space_spec(
            #[trigger] s[i],
        ) by {
            if i < rest.len() {
                assert(rest[i] == s[i]);
            }
        }
    }
}

/// Trimming takes away white space and nothing else, and leaves none at either
/// end.
pub proof fn trimming_takes_only_space(s: Seq<char>)
    ensures
        trim_start_spec(s).len() <= s.len(),
        trim_start_spec(s) == s.skip(s.len() - trim_start_spec(s).len()),
        forall|i: int|
            0 <= i < s.len() - trim_start_spec(s).len() ==> is_space_spec(#[trigger] s[i]),
        trim_spec(s).len() <= trim_start_spec(s).len(),
        trim_spec(s) == trim_start_spec(s).take(trim_spec(s).len() as int),
        forall|i: int|
            trim_spec(s).len() <= i < trim_start_spec(s).len() ==> is_space_spec(
                #[trigger] trim_start_spec(s)[i],
            ),
        trim_spec(s).len() > 0 ==> !is_space_spec(trim_spec(s)[0]) && !is_space_spec(
            trim_spec(s).last(),
        ),
{
    lemma_trim_is_part(s);
    lemma_trim_start_takes_space(s);
    lemma_trim_end_takes_space(trim_start_spec(s));
}

/// A digit is written as the figure or the small letter that stands for it.
pub proof fn digits_are_figures_then_letters(d: nat)
    requires
        d < 36,
    ensures
        d < 10 ==> digit_char(d) as int == '0' as int + d,
        d >= 10 ==> digit_char(d) as int == 'a' as int + d - 10,
{
}

/// A capital ASCII letter has the small one that stands at the same place of
/// the alphabet; anything else has itself.
pub proof fn small_letters_match_capitals(c: char)
    ensures
        'A' <= c <= 'Z' ==> ascii_lower_char(c) as int - 'a' as int == c as int - 'A' as int,
        !('A' <= c <= 'Z') ==> ascii_lower_char(c) == c,
{
}

/// Joined texts stand one after the other, the separator between each two.
pub proof fn joined_texts_stand_in_order(list: Seq<Seq<char>>, next: Seq<char>, sep: Seq<char>)
    ensures
        join_spec(Seq::<Seq<char>>::empty(), sep).len() == 0,
        join_spec(seq![next], sep) == next,
        list.len() > 0 ==> join_spec(list.push(next), sep) == join_spec(list, sep) + sep + next,
{
    assert(list.push(next).drop_last() =~= list);
}

proof fn lemma_contains_grows(s: Seq<char>, t: Seq<char>, p: Seq<char>)
    requires
        contains_spec(s, p),
    ensures
        contains_spec(s + t, p),
{
    let i = choose|i: int| 0 <= i <= s.len() && #[trigger] starts_with_spec(s.skip(i), p);
    assert((s + t).skip(i).take(p.len() as int) =~= s.skip(i).take(p.len() as int));
    assert(starts_with_spec((s + t).skip(i), p));
}

/// Every one of the joined texts occurs in the whole.
pub proof fn joined_texts_occur(list: Seq<Seq<char>>, sep: Seq<char>, i: int)
    requires
        0 <= i < list.len(),
    ensures
        contains_spec(join_spec(list, sep), list[i]),
    decreases list.len(),
{
    if list.len() == 1 {
        assert(list[0].skip(0) =~= list[0]);
        assert(list[0].take(list[0].len() as int) =~= list[0]);
        assert(starts_with_spec(list[0].skip(0), list[0]));
    } else {
        let front = join_spec(list.drop_last(), sep);
        if i == list.len() - 1 {
            let whole = front + sep + list[i];
            let n = (front.len() + sep.len()) as int;
            assert(whole.skip(n) =~= list[i]);
            assert(list[i].take(list[i].len() as int) =~= list[i]);
            assert(starts_with_spec(whole.skip(n), list[i]));
        } else {
            assert(list.drop_last()[i] == list[i]);
            joined_texts_occur(list.drop_last(), sep, i);
            lemma_contains_grows(front, sep, list[i]);
            lemma_contains_grows(front + sep, list.last(), list[i]);
        }
    }
}

/// The texts of strings are theirs, one for each, in order.
pub proof fn texts_are_those_of_the_strings(list: Seq<String>, text: String)
    ensures
        texts(list).len() == list.len(),
        forall|i: int| 0 <= i < list.len() ==> #[trigger] texts(list)[i] == list[i]@,
        opt_text(Some(text)) == Some(text@),
        opt_text(None) is None,
{
}

/// The characters that count as white space are those with that property in
/// Unicode.
pub proof fn white_space_is_that_of_unicode(c: char)
    ensures
        is_space_spec(c) <==> (c == '\t' || c == '\n' || c == '\u{b}' || c == '\u{c}' || c == '\r'
            || c == ' ' || c == '\u{85}' || c == '\u{a0}' || c == '\u{1680}' || ('\u{2000}' <= c
            <= '\u{200a}') || c == '\u{2028}' || c == '\u{2029}' || c == '\u{202f}' || c
            == '\u{205f}' || c == '\u{3000}'),
{
}

/// A sign in front of digits makes the number positive or negative; the digits
/// alone are a positive number.
pub proof fn signs_are_read(digits: Seq<char>)
    requires
        digits_value(digits) is Some,
    ensures
        parse_int_spec(seq!['+'] + digits) == Some(digits_value(digits)->0 as int),
        parse_int_spec(seq!['-'] + digits) == Some(-(digits_value(digits)->0 as int)),
        digits[0] != '+' && digits[0] != '-' ==> parse_int_spec(digits) == Some(
            digits_value(digits)->0 as int,
        ),
{
    assert((seq!['+'] + digits).skip(1) =~= digits);
    assert((seq!['-'] + digits).skip(1) =~= digits);
}

/// Digits are read from the left: one more makes the number ten times as large
/// and adds its value.
pub proof fn digits_are_read_from_the_left(digits: Seq<char>, next: char)
    ensures
        '0' <= next <= '9' ==> digits_value(seq![next]) == Some((next as int - '0' as int) as nat),
        digits_value(digits) is Some && '0' <= next <= '9' ==> digits_value(digits.push(next))
            == Some((10 * digits_value(digits)->0 + (next as int - '0' as int)) as nat),
        !('0' <= next <= '9') ==> digits_value(digits.push(next)) is None,
{
    assert(digits.push(next).drop_last() =~= digits);
}

/// A text begins with its front, ends with its end, and a text that begins or
/// ends with another has it there.
pub proof fn fronts_and_ends_are_found(s: Seq<char>, p: Seq<char>)
    ensures
        starts_with_spec(p + s, p),
        ends_with_spec(s + p, p),
        starts_with_spec(s, p) ==> s == p + s.skip(p.len() as int),
        ends_with_spec(s, p) ==> s == s.take(s.len() - p.len()) + p,
        contains_spec(s + p, p),
{
    assert((p + s).take(p.len() as int) =~= p);
    assert((s + p).skip((s + p).len() - p.len()) =~= p);
    if starts_with_spec(s, p) {
        assert(s =~= s.take(p.len() as int) + s.skip(p.len() as int));
    }
    if ends_with_spec(s, p) {
        assert(s =~= s.take(s.len() - p.len()) + s.skip(s.len() - p.len()));
    }
    assert((s + p).skip(s.len() as int) =~= p);
    assert(p.take(p.len() as int) =~= p);
    assert(starts_with_spec((s + p).skip(s.len() as int), p));
}

/// A line that is not ended counts as one that is, and an ended line loses a
/// carriage return at its end.
pub proof fn last_line_needs_no_end(s: Seq<char>, line: Seq<char>)
    requires
        !line.contains('\n'),
    ensures
        line.len() > 0 ==> lines_spec(line) == seq![line],
        lines_spec(Seq::<char>::empty()).len() == 0,
        line.len() > 0 && line.last() != '\r' ==> lines_spec(line.push('\n')) == seq![line],
        lines_spec(line.push('\r').push('\n')) == seq![line],
{
    let none = Seq::<char>::empty();
    assert(split_spec(none, '\n') =~= seq![none]);
    lemma_split_extend(none, line, '\n');
    assert(none + line =~= line);
    let single = split_spec(line, '\n');
    assert(single =~= seq![line]);
    assert(lines_spec(none) =~= Seq::<Seq<char>>::empty());
    if line.len() > 0 {
        assert(lines_spec(line) =~= seq![line]);
    }
    let ended = line.push('\n');
    assert(ended.drop_last() =~= line);
    assert(split_spec(ended, '\n') =~= seq![line, none]);
    if line.len() > 0 && line.last() != '\r' {
        assert(lines_spec(ended) =~= seq![line]);
    }
    let back = line.push('\r');
    assert(back.drop_last() =~= line);
    assert(split_spec(back, '\n') =~= seq![back]);
    let both = back.push('\n');
    assert(both.drop_last() =~= back);
    assert(split_spec(both, '\n') =~= seq![back, none]);
    assert(strip_cr_spec(back) =~= line);
    assert(lines_spec(both) =~= seq![line]);
}

/// A number is read as the machine's where it fits; one that is too large or,
/// where none is allowed, has a minus sign, is not read.
pub proof fn numbers_are_read_where_they_fit(s: Seq<char>)
    ensures
        parse_i32_spec(s) is Some <==> parse_int_spec(s) is Some && -0x8000_0000
            <= parse_int_spec(s)->0 <= 0x7fff_ffff,
        parse_i32_spec(s) is Some ==> parse_i32_spec(s)->0 == parse_int_spec(s)->0,
        parse_u32_spec(s) is Some <==> parse_int_spec(s) is Some && s[0] != '-'
            && parse_int_spec(s)->0 <= 0xffff_ffff,
        parse_u32_spec(s) is Some ==> parse_u32_spec(s)->0 == parse_int_spec(s)->0,
{
}

} // verus!
