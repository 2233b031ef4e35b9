//! Texts as sequences of characters: comparing, searching, cutting and trimming.

use vstd::prelude::*;

verus! {

/// A character counts as white space where it has the Unicode property White_Space: the space,
/// the controls from the tab to the carriage return, and a few characters beyond ASCII.
pub open spec fn white_space(c: char) -> bool {
    ||| c == ' '
    ||| 0x09 <= c as u32 <= 0x0d
    ||| c as u32 == 0x85
    ||| c as u32 == 0xa0
    ||| c as u32 == 0x1680
    ||| 0x2000 <= c as u32 <= 0x200a
    ||| c as u32 == 0x2028
    ||| c as u32 == 0x2029
    ||| c as u32 == 0x202f
    ||| c as u32 == 0x205f
    ||| c as u32 == 0x3000
}

/// `char::is_whitespace`: tells whether the character has the Unicode property White_Space, as
/// the file `PropList.txt` of the Unicode Character Database lists it.
pub assume_specification[ char::is_whitespace ](c: char) -> (b: bool)
    ensures
        b == white_space(c),
;

/// `String::push`: appends one character to the end.
pub assume_specification[ String::push ](s: &mut String, c: char)
    ensures
        final(s)@ == old(s)@.push(c),
;

/// The text without the white space at its beginning.
pub open spec fn without_leading_space(s: Seq<char>) -> Seq<char>
    decreases s.len(),
{
    if s.len() > 0 && white_space(s[0]) {
        without_leading_space(s.drop_first())
    } else {
        s
    }
}

/// The text without the white space at its end.
pub open spec fn without_trailing_space(s: Seq<char>) -> Seq<char>
    decreases s.len(),
{
    if s.len() > 0 && white_space(s.last()) {
        without_trailing_space(s.drop_last())
    } else {
        s
    }
}

/// The text without the white space at either end.
pub open spec fn trimmed(s: Seq<char>) -> Seq<char> {
    without_trailing_space(without_leading_space(s))
}

/// `needle` stands in `hay` at position `at`.
pub open spec fn occurs_at(hay: Seq<char>, needle: Seq<char>, at: int) -> bool {
    0 <= at && at + needle.len() <= hay.len() && hay.subrange(at, at + needle.len()) == needle
}

/// `needle` stands somewhere in `hay`.
pub open spec fn occurs(hay: Seq<char>, needle: Seq<char>) -> bool {
    exists|at: int| #[trigger] occurs_at(hay, needle, at)
}

/// The characters of a text.
pub fn chars_of(s: &str) -> (r: Vec<char>)
    ensures
        r@ == s@,
{
    let mut r: Vec<char> = Vec::new();
    for c in iter: s.chars()
        invariant
            r@ == iter.seq().take(iter.index()),
            iter.seq() == s@,
    {
        r.push(c);
    }
    r
}

/// The text made of the characters from `from` up to, not including, `to`.
pub fn text_of(chars: &Vec<char>, from: usize, to: usize) -> (r: String)
    requires
        from <= to <= chars@.len(),
    ensures
        r@ == chars@.subrange(from as int, to as int),
{
    let mut r = String::new();
    let mut i: usize = from;
    while i < to
        invariant
            from <= i <= to <= chars@.len(),
            r@ == chars@.subrange(from as int, i as int),
        decreases to - i,
    {
        r.push(chars[i]);
        i += 1;
    }
    r
}

/// Whether two texts are the same.
pub fn same_text(a: &str, b: &str) -> (r: bool)
    ensures
        r == (a@ == b@),
{
    a.to_owned() == b.to_owned()
}

/// How many characters stand before the first `c`; all of them where there is none.
pub open spec fn first_index(s: Seq<char>, c: char) -> int
    decreases s.len(),
{
    if s.len() == 0 || s[0] == c {
        0
    } else {
        1 + first_index(s.drop_first(), c)
    }
}

/// The part of a text before the first `c`.
pub open spec fn before(s: Seq<char>, c: char) -> Seq<char> {
    s.take(first_index(s, c))
}

/// The part of a text after the first `c`, where there is one.
pub open spec fn after(s: Seq<char>, c: char) -> Option<Seq<char>> {
    if first_index(s, c) < s.len() {
        Some(s.skip(first_index(s, c) + 1))
    } else {
        None
    }
}

/// The characters of a text that may be absent.
pub open spec fn opt_text(s: Option<String>) -> Option<Seq<char>> {
    match s {
        Some(t) => Some(t@),
        None => None,
    }
}

/// The characters of a borrowed text that may be absent.
pub open spec fn opt_str(s: Option<&str>) -> Option<Seq<char>> {
    match s {
        Some(t) => Some(t@),
        None => None,
    }
}

/// A position is the first of `c` when `c` stands there and nowhere before.
proof fn lemma_first_index(s: Seq<char>, c: char, at: int)
    requires
        0 <= at <= s.len(),
        forall|i: int| 0 <= i < at ==> s[i] != c,
        at < s.len() ==> s[at] == c,
    ensures
        first_index(s, c) == at,
    decreases s.len(),
{
    if at > 0 {
        lemma_first_index(s.drop_first(), c, at - 1);
    }
}

/// The first of `c` is a position of the text or its end.
proof fn lemma_first_index_bounds(s: Seq<char>, c: char)
    ensures
        0 <= first_index(s, c) <= s.len(),
    decreases s.len(),
{
    if s.len() > 0 && s[0] != c {
        lemma_first_index_bounds(s.drop_first(), c);
    }
}

/// Cutting off white space at the beginning, one character after the other.
proof fn lemma_leading_space(s: Seq<char>, at: int)
    requires
        0 <= at <= s.len(),
        forall|i: int| 0 <= i < at ==> white_space(s[i]),
        at < s.len() ==> !white_space(s[at]),
    ensures
        without_leading_space(s) == s.skip(at),
    decreases s.len(),
{
    if at > 0 {
        lemma_leading_space(s.drop_first(), at - 1);
        assert(s.drop_first().skip(at - 1) =~= s.skip(at));
    } else {
        assert(s.skip(0) =~= s);
    }
}

/// Cutting off white space at the end, one character after the other.
proof fn lemma_trailing_space(s: Seq<char>, to: int)
    requires
        0 <= to <= s.len(),
        forall|i: int| to <= i < s.len() ==> white_space(s[i]),
        to > 0 ==> !white_space(s[to - 1]),
    ensures
        without_trailing_space(s) == s.take(to),
    decreases s.len(),
{
    if to < s.len() {
        lemma_trailing_space(s.drop_last(), to);
        assert(s.drop_last().take(to) =~= s.take(to));
    } else {
        assert(s.take(to) =~= s);
    }
}

/// What is left after trimming is the text between two positions: only white space
/// stands outside of them, and none at the two ends of what is left.
proof fn lemma_trimmed_bounds(s: Seq<char>) -> (r: (int, int))
    ensures
        0 <= r.0 <= r.1 <= s.len(),
        trimmed(s) == s.subrange(r.0, r.1),
        r.0 < r.1 ==> !white_space(s[r.0]) && !white_space(s[r.1 - 1]),
    decreases s.len(),
{
    if s.len() > 0 && white_space(s[0]) {
        let r = lemma_trimmed_bounds(s.drop_first());
        assert(s.drop_first().subrange(r.0, r.1) =~= s.subrange(r.0 + 1, r.1 + 1));
        (r.0 + 1, r.1 + 1)
    } else if s.len() > 0 && white_space(s.last()) {
        let r = lemma_trimmed_bounds(s.drop_last());
        assert(s.drop_last().subrange(r.0, r.1) =~= s.subrange(r.0, r.1));
        (r.0, r.1)
    } else {
        assert(s.subrange(0, s.len() as int) =~= s);
        (0, s.len() as int)
    }
}

/// Trimming a trimmed text changes nothing.
pub proof fn law_trimmed_twice(s: Seq<char>)
    ensures
        trimmed(trimmed(s)) == trimmed(s),
{
    let r = lemma_trimmed_bounds(s);
    let t = trimmed(s);
    lemma_leading_space(t, 0);
    assert(t.skip(0) =~= t);
    lemma_trailing_space(t, t.len() as int);
    assert(t.take(t.len() as int) =~= t);
}

/// The two parts around the first `c` make up the text again.
pub proof fn law_before_after(s: Seq<char>, c: char)
    ensures
        match after(s, c) {
            Some(rest) => s == before(s, c).push(c) + rest,
            None => s == before(s, c),
        },
        !before(s, c).contains(c),
    decreases s.len(),
{
    if s.len() > 0 && s[0] != c {
        law_before_after(s.drop_first(), c);
        lemma_first_index_bounds(s.drop_first(), c);
        let d = s.drop_first();
        assert(before(s, c) =~= seq![s[0]] + before(d, c));
        assert forall|i: int| 0 <= i < before(s, c).len() implies before(s, c)[i] != c by {
            if i > 0 {
                assert(before(d, c)[i - 1] != c);
            }
        }
        if first_index(s, c) < s.len() {
            assert(s.skip(first_index(s, c) + 1) =~= d.skip(first_index(d, c) + 1));
            assert(s =~= seq![s[0]] + d);
        } else {
            assert(s =~= seq![s[0]] + d);
        }
    } else if s.len() > 0 {
        assert(s =~= before(s, c).push(c) + s.skip(1));
    } else {
        assert(s =~= before(s, c));
    }
}

/// Whatever white space is put around a text that has none at its ends, trimming gives the text
/// back.
pub proof fn law_trimming_takes_padding_off(a: Seq<char>, text: Seq<char>, b: Seq<char>)
    requires
        forall|i: int| 0 <= i < a.len() ==> white_space(#[trigger] a[i]),
        forall|i: int| 0 <= i < b.len() ==> white_space(#[trigger] b[i]),
        text.len() > 0 ==> !white_space(text[0]) && !white_space(text.last()),
    ensures
        trimmed(a + text + b) == text,
{
    let s = a + text + b;
    if text.len() > 0 {
        let n = a.len() as int;
        assert(s[n] == text[0]);
        lemma_leading_space(s, n);
        let rest = s.skip(n);
        assert forall|i: int| text.len() <= i < rest.len() implies white_space(rest[i]) by {
            assert(rest[i] == b[i - text.len()]);
        }
        assert(rest[text.len() - 1] == text.last());
        lemma_trailing_space(rest, text.len() as int);
        assert(rest.take(text.len() as int) =~= text);
    } else {
        assert forall|i: int| 0 <= i < s.len() implies white_space(s[i]) by {
            if i >= a.len() {
                assert(s[i] == b[i - a.len()]);
            }
        }
        lemma_leading_space(s, s.len() as int);
        assert(s.skip(s.len() as int) =~= text);
        lemma_trailing_space(text, 0);
        assert(text.take(0) =~= text);
    }
}

/// A text stands somewhere in another exactly where the other is made of some text, this text and
/// some text after it.
pub proof fn law_occurs_between(hay: Seq<char>, needle: Seq<char>)
    ensures
        occurs(hay, needle) <==> exists|a: Seq<char>, b: Seq<char>| hay == #[trigger] (a + needle
            + b),
{
    if occurs(hay, needle) {
        let at = choose|at: int| occurs_at(hay, needle, at);
        let a = hay.take(at);
        let b = hay.skip(at + needle.len());
        assert(hay =~= a + needle + b);
    }
    if exists|a: Seq<char>, b: Seq<char>| hay == #[trigger] (a + needle + b) {
        let (a, b) = choose|a: Seq<char>, b: Seq<char>| hay == #[trigger] (a + needle + b);
        let at = a.len() as int;
        assert(hay.subrange(at, at + needle.len()) =~= needle);
        assert(occurs_at(hay, needle, at));
    }
}

/// A text stands at a position of another exactly where so many characters come before it.
pub proof fn law_occurs_at_position(hay: Seq<char>, needle: Seq<char>, at: int)
    ensures
        occurs_at(hay, needle, at) <==> exists|a: Seq<char>, b: Seq<char>|
            hay == #[trigger] (a + needle + b) && a.len() == at,
{
    if occurs_at(hay, needle, at) {
        let a = hay.take(at);
        let b = hay.skip(at + needle.len());
        assert(hay =~= a + needle + b);
    }
    if exists|a: Seq<char>, b: Seq<char>| hay == #[trigger] (a + needle + b) && a.len() == at {
        let (a, b) = choose|a: Seq<char>, b: Seq<char>|
            hay == #[trigger] (a + needle + b) && a.len() == at;
        assert(hay.subrange(at, at + needle.len()) =~= needle);
    }
}

/// Cutting undoes joining: a text without `c`, `c` and any text after it are cut into the two
/// again, and a text without `c` is not cut.
pub proof fn law_cut_undoes_join(head: Seq<char>, c: char, rest: Seq<char>)
    requires
        !head.contains(c),
    ensures
        before(head.push(c) + rest, c) == head,
        after(head.push(c) + rest, c) == Some(rest),
        before(head, c) == head,
        after(head, c) is None,
{
    let s = head.push(c) + rest;
    let n = head.len() as int;
    assert forall|i: int| 0 <= i < n implies head[i] != c by {
        assert(head.contains(head[i]));
    }
    assert forall|i: int| 0 <= i < n implies s[i] != c by {
        assert(s[i] == head[i]);
    }
    lemma_first_index(s, c, n);
    lemma_first_index(head, c, n);
    assert(s.take(n) =~= head);
    assert(s.skip(n + 1) =~= rest);
    assert(head.take(n) =~= head);
}

/// A text that is there is seen as its characters, and one that is absent as nothing.
pub proof fn law_optional_texts(s: String, t: &str)
    ensures
        opt_text(Some(s)) == Some(s@),
        opt_text(None) is None,
        opt_str(Some(t)) == Some(t@),
        opt_str(None) is None,
{
}

/// Whether `needle` stands in `hay` at position `at`.
pub fn stands_at(hay: &Vec<char>, needle: &Vec<char>, at: usize) -> (r: bool)
    ensures
        r == occurs_at(hay@, needle@, at as int),
{
    if at > hay.len() || hay.len() - at < needle.len() {
        return false;
    }
    let ghost part = hay@.subrange(at as int, at + needle@.len());
    let mut i: usize = 0;
    while i < needle.len()
        invariant
            i <= needle@.len(),
            at + needle@.len() <= hay.len(),
            part == hay@.subrange(at as int, at + needle@.len()),
            forall|j: int| 0 <= j < i ==> part[j] == needle@[j],
        decreases needle@.len() - i,
    {
        if hay[at + i] != needle[i] {
            assert(part[i as int] != needle@[i as int]);
            return false;
        }
        i += 1;
    }
    assert(part =~= needle@);
    true
}

/// Whether `needle` stands somewhere in `hay`.
pub fn contains(hay: &str, needle: &str) -> (r: bool)
    ensures
        r == occurs(hay@, needle@),
{
    let h = chars_of(hay);
    let n = chars_of(needle);
    let mut at: usize = 0;
    while at < h.len()
        invariant
            h@ == hay@,
            n@ == needle@,
            at <= h@.len(),
            forall|i: int| 0 <= i < at ==> !occurs_at(hay@, needle@, i),
        decreases h@.len() - at,
    {
        if stands_at(&h, &n, at) {
            return true;
        }
        at += 1;
    }
    stands_at(&h, &n, at)
}

/// The text without the white space at either end.
pub fn trim(s: &str) -> (r: String)
    ensures
        r@ == trimmed(s@),
{
    let chars = chars_of(s);
    let mut from: usize = 0;
    while from < chars.len() && chars[from].is_whitespace()
        invariant
            from <= chars@.len(),
            forall|i: int| 0 <= i < from ==> white_space(chars@[i]),
        decreases chars@.len() - from,
    {
        from += 1;
    }
    let mut to: usize = chars.len();
    while to > from && chars[to - 1].is_whitespace()
        invariant
            from <= to <= chars@.len(),
            forall|i: int| to <= i < chars@.len() ==> white_space(chars@[i]),
        decreases to,
    {
        to -= 1;
    }
    proof {
        lemma_leading_space(s@, from as int);
        let rest = s@.skip(from as int);
        lemma_trailing_space(rest, to - from);
        assert(rest.take(to - from) =~= s@.subrange(from as int, to as int));
    }
    text_of(&chars, from, to)
}

/// Cuts a text at the first `c`: the part before it and, where there is one, the part
/// after it.
pub fn cut(s: &str, c: char) -> (r: (String, Option<String>))
    ensures
        r.0@ == before(s@, c),
        opt_text(r.1) == after(s@, c),
{
    let chars = chars_of(s);
    let mut at: usize = 0;
    while at < chars.len() && chars[at] != c
        invariant
            at <= chars@.len(),
            forall|i: int| 0 <= i < at ==> chars@[i] != c,
        decreases chars@.len() - at,
    {
        at += 1;
    }
    proof {
        lemma_first_index(s@, c, at as int);
        assert(chars@.subrange(0, at as int) =~= s@.take(at as int));
    }
    let head = text_of(&chars, 0, at);
    if at < chars.len() {
        assert(chars@.subrange(at + 1, chars@.len() as int) =~= s@.skip(at + 1));
        (head, Some(text_of(&chars, at + 1, chars.len())))
    } else {
        (head, None)
    }
}

} // verus!
