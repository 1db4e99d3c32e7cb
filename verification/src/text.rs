//! Text as sequences of characters: searching, splitting, trimming and ordering.
use vstd::prelude::*;
use vstd::string::*;
use vstd::utf8::*;

verus! {

/// `String::push` of std: the character becomes the last one of the text.
pub assume_specification[ std::string::String::push ](s: &mut std::string::String, c: char)
    ensures
        final(s)@ == old(s)@.push(c),
;

/// `std::str::from_utf8` of std: the text that the bytes encode, or nothing where they are not
/// UTF-8.
#[verifier::external_body]
fn str_from_utf8(bytes: &[u8]) -> (text: Option<&str>)
    ensures
        text is Some <==> valid_utf8(bytes@),
        text matches Some(t) ==> t@ == decode_utf8(bytes@),
{
    std::str::from_utf8(bytes).ok()
}

/// The text that `bytes` encode, if they are UTF-8.
pub fn utf8_text(bytes: &[u8]) -> (text: Option<&str>)
    ensures
        text is Some <==> valid_utf8(bytes@),
        text matches Some(t) ==> t@ == decode_utf8(bytes@),
{
    str_from_utf8(bytes)
}

/// Do two texts hold the same characters?
pub fn same_text(a: &str, b: &str) -> (same: bool)
    ensures
        same == (a@ == b@),
{
    let left = a.as_bytes();
    let right = b.as_bytes();
    proof {
        encode_utf8_decode_utf8(a@);
        encode_utf8_decode_utf8(b@);
    }
    if left.len() != right.len() {
        return false;
    }
    let mut i: usize = 0;
    while i < left.len()
        invariant
            i <= left@.len(),
            left@ == encode_utf8(a@),
            right@ == encode_utf8(b@),
            left@.len() == right@.len(),
            left@.take(i as int) == right@.take(i as int),
        decreases left@.len() - i,
    {
        if left[i] != right[i] {
            return false;
        }
        assert(left@.take(i + 1) == left@.take(i as int).push(left@[i as int]));
        assert(right@.take(i + 1) == right@.take(i as int).push(right@[i as int]));
        i += 1;
    }
    assert(left@.take(i as int) == left@);
    assert(right@.take(i as int) == right@);
    true
}

/// What an optional text holds.
pub open spec fn optional(text: Option<String>) -> Option<Seq<char>> {
    match text {
        Some(t) => Some(t@),
        None => None,
    }
}

/// Are two optional texts both absent, or both there and the same?
pub fn same_optional(a: &Option<String>, b: &Option<String>) -> (same: bool)
    ensures
        same == (optional(*a) == optional(*b)),
{
    match (a, b) {
        (Some(x), Some(y)) => *x == *y,
        (None, None) => true,
        _ => false,
    }
}

/// An optional text of its own that holds the same.
pub fn copy_optional(text: &Option<String>) -> (copy: Option<String>)
    ensures
        optional(copy) == optional(*text),
{
    match text {
        Some(t) => Some(t.clone()),
        None => None,
    }
}

/// The characters of a text.
pub fn chars_of(text: &str) -> (chars: Vec<char>)
    ensures
        chars@ == text@,
{
    let mut chars: Vec<char> = Vec::new();
    for c in iter: text.chars()
        invariant
            iter.seq() == text@,
            chars@ == text@.take(iter.index() as int),
    {
        chars.push(c);
    }
    assert(text@.take(text@.len() as int) == text@);
    chars
}

/// The characters from `from` up to `to`, as a text.
pub fn text_between(chars: &Vec<char>, from: usize, to: usize) -> (text: String)
    requires
        from <= to <= chars@.len(),
    ensures
        text@ == chars@.subrange(from as int, to as int),
{
    let mut text = String::new();
    let mut i: usize = from;
    while i < to
        invariant
            from <= i <= to <= chars@.len(),
            text@ == chars@.subrange(from as int, i as int),
        decreases to - i,
    {
        text.push(chars[i]);
        i += 1;
        assert(chars@.subrange(from as int, i as int) == chars@.subrange(
            from as int,
            i - 1,
        ).push(chars@[i - 1]));
    }
    text
}

/// Does `needle` stand in `hay` at position `at`?
pub open spec fn occurs_at(hay: Seq<char>, needle: Seq<char>, at: int) -> bool {
    &&& 0 <= at
    &&& at + needle.len() <= hay.len()
    &&& hay.subrange(at, at + needle.len()) == needle
}

/// The first position, from `from` on, at which `needle` stands in `hay`.
pub open spec fn find_from(hay: Seq<char>, needle: Seq<char>, from: int) -> Option<int>
    decreases hay.len() - from + 1,
{
    if from < 0 || from + needle.len() > hay.len() {
        None
    } else if occurs_at(hay, needle, from) {
        Some(from)
    } else {
        find_from(hay, needle, from + 1)
    }
}

/// Does `needle` stand anywhere in `hay`?
pub open spec fn contains(hay: Seq<char>, needle: Seq<char>) -> bool {
    exists|at: int| occurs_at(hay, needle, at)
}

/// `find_from` gives the first occurrence, and nothing only where there is none.
pub proof fn lemma_find_from(hay: Seq<char>, needle: Seq<char>, from: int)
    requires
        0 <= from,
    ensures
        match find_from(hay, needle, from) {
            Some(at) => {
                &&& from <= at
                &&& occurs_at(hay, needle, at)
                &&& forall|j: int| from <= j < at ==> !occurs_at(hay, needle, j)
            },
            None => forall|j: int| from <= j ==> !occurs_at(hay, needle, j),
        },
    decreases hay.len() - from + 1,
{
    if from + needle.len() <= hay.len() && !occurs_at(hay, needle, from) {
        lemma_find_from(hay, needle, from + 1);
    }
}

fn stands_at(hay: &Vec<char>, needle: &Vec<char>, at: usize) -> (found: bool)
    requires
        at + needle@.len() <= hay@.len(),
    ensures
        found == occurs_at(hay@, needle@, at as int),
{
    let size = hay.len();
    let mut i: usize = 0;
    while i < needle.len()
        invariant
            i <= needle@.len(),
            at + needle@.len() <= hay@.len(),
            size == hay@.len(),
            forall|j: int| 0 <= j < i ==> hay@[at + j] == needle@[j],
        decreases needle@.len() - i,
    {
        if hay[at + i] != needle[i] {
            assert(hay@.subrange(at as int, at + needle@.len())[i as int] != needle@[i as int]);
            return false;
        }
        i += 1;
    }
    assert(hay@.subrange(at as int, at + needle@.len()) =~= needle@);
    true
}

/// The first position at which `needle` stands in `hay`.
pub fn find(hay: &Vec<char>, needle: &Vec<char>, from: usize) -> (found: Option<usize>)
    ensures
        match found {
            Some(at) => find_from(hay@, needle@, from as int) == Some(at as int),
            None => find_from(hay@, needle@, from as int) is None,
        },
{
    let mut at: usize = from;
    if needle.len() > hay.len() {
        return None;
    }
    let last: usize = hay.len() - needle.len();
    while at <= last
        invariant
            from <= at <= usize::MAX,
            last == hay@.len() - needle@.len(),
            find_from(hay@, needle@, from as int) == find_from(hay@, needle@, at as int),
        decreases hay@.len() + 1 - at,
    {
        if stands_at(hay, needle, at) {
            return Some(at);
        }
        if at == last {
            assert(find_from(hay@, needle@, at + 1) is None);
            return None;
        }
        at += 1;
    }
    None
}

/// Does `needle` stand anywhere in `hay`?
pub fn contains_text(hay: &str, needle: &str) -> (found: bool)
    ensures
        found == contains(hay@, needle@),
{
    proof {
        lemma_find_from(hay@, needle@, 0);
    }
    find(&chars_of(hay), &chars_of(needle), 0).is_some()
}

/// Does the text begin with `prefix`?
pub fn starts_with(text: &str, prefix: &str) -> (yes: bool)
    ensures
        yes == prefix@.is_prefix_of(text@),
{
    let hay = chars_of(text);
    let needle = chars_of(prefix);
    if needle.len() > hay.len() {
        return false;
    }
    assert(hay@.subrange(0, needle@.len() as int) == hay@.take(needle@.len() as int));
    stands_at(&hay, &needle, 0)
}

/// What stands before and after the first `separator`.
pub open spec fn split_once(text: Seq<char>, separator: Seq<char>) -> Option<
    (Seq<char>, Seq<char>),
> {
    match find_from(text, separator, 0) {
        Some(at) => Some((text.take(at), text.skip(at + separator.len()))),
        None => None,
    }
}

/// What stands before and after the first `separator`.
pub fn split_text_once(text: &str, separator: &str) -> (parts: Option<(String, String)>)
    ensures
        match parts {
            Some((before, after)) => split_once(text@, separator@) == Some((before@, after@)),
            None => split_once(text@, separator@) is None,
        },
{
    let chars = chars_of(text);
    let needle = chars_of(separator);
    proof {
        lemma_find_from(text@, separator@, 0);
    }
    match find(&chars, &needle, 0) {
        Some(at) => {
            let end = chars.len();
            let before = text_between(&chars, 0, at);
            let after = text_between(&chars, at + needle.len(), end);
            assert(before@ =~= text@.take(at as int));
            assert(after@ =~= text@.skip(at + separator@.len()));
            Some((before, after))
        },
        None => None,
    }
}

/// What follows `prefix`, if the text begins with it.
pub open spec fn strip_prefix(text: Seq<char>, prefix: Seq<char>) -> Option<Seq<char>> {
    if prefix.is_prefix_of(text) {
        Some(text.skip(prefix.len() as int))
    } else {
        None
    }
}

/// What follows `prefix`, if the text begins with it.
pub fn text_after_prefix(text: &str, prefix: &str) -> (rest: Option<String>)
    ensures
        match rest {
            Some(r) => strip_prefix(text@, prefix@) == Some(r@),
            None => strip_prefix(text@, prefix@) is None,
        },
{
    if starts_with(text, prefix) {
        let chars = chars_of(text);
        let n = chars_of(prefix).len();
        let rest = text_between(&chars, n, chars.len());
        assert(rest@ =~= text@.skip(prefix@.len() as int));
        Some(rest)
    } else {
        None
    }
}

/// The Unicode property `White_Space`.
pub open spec fn is_white(c: char) -> bool {
    ||| '\u{9}' <= c <= '\u{d}'
    ||| c == ' '
    ||| c == '\u{85}'
    ||| c == '\u{a0}'
    ||| c == '\u{1680}'
    ||| '\u{2000}' <= c <= '\u{200a}'
    ||| c == '\u{2028}'
    ||| c == '\u{2029}'
    ||| c == '\u{202f}'
    ||| c == '\u{205f}'
    ||| c == '\u{3000}'
}

fn white(c: char) -> (yes: bool)
    ensures
        yes == is_white(c),
{
    ('\u{9}' <= c && c <= '\u{d}') || c == ' ' || c == '\u{85}' || c == '\u{a0}' || c == '\u{1680}'
        || ('\u{2000}' <= c && c <= '\u{200a}') || c == '\u{2028}' || c == '\u{2029}' || c
        == '\u{202f}' || c == '\u{205f}' || c == '\u{3000}'
}

/// The text without its leading white space.
pub open spec fn trim_start(text: Seq<char>) -> Seq<char>
    decreases text.len(),
{
    if text.len() > 0 && is_white(text[0]) {
        trim_start(text.skip(1))
    } else {
        text
    }
}

/// The text without its trailing white space.
pub open spec fn trim_end(text: Seq<char>) -> Seq<char>
    decreases text.len(),
{
    if text.len() > 0 && is_white(text.last()) {
        trim_end(text.drop_last())
    } else {
        text
    }
}

/// The text without white space at either end.
pub open spec fn trim(text: Seq<char>) -> Seq<char> {
    trim_end(trim_start(text))
}

/// The text without its leading white space.
pub fn trimmed_start(text: &str) -> (rest: String)
    ensures
        rest@ == trim_start(text@),
{
    let chars = chars_of(text);
    let start = first_not_white(&chars);
    text_between(&chars, start, chars.len())
}

fn first_not_white(chars: &Vec<char>) -> (start: usize)
    ensures
        start <= chars@.len(),
        chars@.subrange(start as int, chars@.len() as int) == trim_start(chars@),
{
    let mut start: usize = 0;
    assert(chars@.skip(0) == chars@);
    while start < chars.len() && white(chars[start])
        invariant
            start <= chars@.len(),
            trim_start(chars@) == trim_start(chars@.skip(start as int)),
        decreases chars@.len() - start,
    {
        assert(chars@.skip(start as int).skip(1) == chars@.skip(start + 1));
        start += 1;
    }
    assert(chars@.subrange(start as int, chars@.len() as int) =~= chars@.skip(start as int));
    start
}

/// The text without white space at either end.
pub fn trimmed(text: &str) -> (rest: String)
    ensures
        rest@ == trim(text@),
{
    let chars = chars_of(text);
    let start = first_not_white(&chars);
    let mut end: usize = chars.len();
    let ghost body = trim_start(text@);
    while end > start && white(chars[end - 1])
        invariant
            start <= end <= chars@.len(),
            trim_end(body) == trim_end(chars@.subrange(start as int, end as int)),
        decreases end,
    {
        assert(chars@.subrange(start as int, end as int).drop_last() == chars@.subrange(
            start as int,
            end - 1,
        ));
        end -= 1;
    }
    text_between(&chars, start, end)
}

/// An ASCII capital becomes its small letter; other characters stay.
pub open spec fn lower_char(c: char) -> char {
    if 'A' <= c <= 'Z' {
        ((c as u8) + 32) as char
    } else {
        c
    }
}

/// The text with its ASCII capitals made small.
pub open spec fn lower(text: Seq<char>) -> Seq<char> {
    text.map_values(|c: char| lower_char(c))
}

/// The text with its ASCII capitals made small.
pub fn lowered(text: &str) -> (small: String)
    ensures
        small@ == lower(text@),
{
    let chars = chars_of(text);
    let mut small = String::new();
    let mut i: usize = 0;
    while i < chars.len()
        invariant
            i <= chars@.len(),
            chars@ == text@,
            small@ == lower(text@.take(i as int)),
        decreases chars@.len() - i,
    {
        let c = chars[i];
        if 'A' <= c && c <= 'Z' {
            small.push(((c as u8) + 32) as char);
        } else {
            small.push(c);
        }
        assert(text@.take(i + 1) == text@.take(i as int).push(c));
        assert(small@ =~= lower(text@.take(i + 1)));
        i += 1;
    }
    assert(text@.take(i as int) == text@);
    small
}

/// A line without the carriage return at its end.
pub open spec fn without_cr(line: Seq<char>) -> Seq<char> {
    if line.len() > 0 && line.last() == '\r' {
        line.drop_last()
    } else {
        line
    }
}

/// The lines of a text: each ends at a line feed, which is not part of it, and neither is one
/// carriage return before that line feed. What follows the last line feed is a line if it is not
/// empty.
pub open spec fn lines(text: Seq<char>) -> Seq<Seq<char>>
    decreases text.len(),
{
    match find_from(text, seq!['\n'], 0) {
        Some(at) => if 0 <= at < text.len() {
            seq![without_cr(text.take(at))] + lines(text.skip(at + 1))
        } else {
            Seq::empty()
        },
        None => if text.len() == 0 {
            Seq::empty()
        } else {
            seq![text]
        },
    }
}

/// The texts of a list, in order.
pub open spec fn texts(list: Seq<String>) -> Seq<Seq<char>> {
    list.map_values(|s: String| s@)
}

/// The lines of a text.
pub fn lines_of(text: &str) -> (result: Vec<String>)
    ensures
        texts(result@) == lines(text@),
{
    let chars = chars_of(text);
    let mut newline: Vec<char> = Vec::new();
    newline.push('\n');
    assert(newline@ == seq!['\n']);
    let mut result: Vec<String> = Vec::new();
    let mut start: usize = 0;
    assert(text@.skip(0) == text@);
    assert(texts(result@) + lines(text@) == lines(text@));
    let size = chars.len();
    loop
        invariant_except_break
            chars@ == text@,
            newline@ == seq!['\n'],
            start <= chars@.len(),
            size == chars@.len(),
            texts(result@) + lines(text@.skip(start as int)) == lines(text@),
        ensures
            texts(result@) == lines(text@),
        decreases chars@.len() - start,
    {
        let ghost rest = text@.skip(start as int);
        let ghost before = texts(result@);
        proof {
            lemma_find_from(text@, seq!['\n'], start as int);
            lemma_find_from(rest, seq!['\n'], 0);
            lemma_find_in_skip(text@, seq!['\n'], start as int);
        }
        match find(&chars, &newline, start) {
            Some(at) => {
                let mut end: usize = at;
                if end > start && chars[end - 1] == '\r' {
                    end -= 1;
                }
                let line = text_between(&chars, start, end);
                assert(rest.take(at - start) =~= chars@.subrange(start as int, at as int));
                assert(line@ =~= without_cr(rest.take(at - start)));
                result.push(line);
                assert(rest.skip(at - start + 1) =~= text@.skip(at + 1));
                assert(texts(result@) =~= before.push(line@));
                assert(texts(result@) + lines(text@.skip(at + 1)) =~= before + (seq![line@] + lines(
                    text@.skip(at + 1),
                )));
                start = at + 1;
            },
            None => {
                if start < chars.len() {
                    let line = text_between(&chars, start, chars.len());
                    assert(line@ =~= rest);
                    result.push(line);
                    assert(texts(result@) =~= before + seq![rest]);
                } else {
                    assert(rest.len() == 0);
                    assert(texts(result@) =~= before + lines(rest));
                }
                break;
            },
        }
    }
    result
}

/// Searching from `start` is searching what follows `start`.
proof fn lemma_find_in_skip(text: Seq<char>, needle: Seq<char>, start: int)
    requires
        0 <= start <= text.len(),
    ensures
        find_from(text.skip(start), needle, 0) == (match find_from(text, needle, start) {
            Some(at) => Some(at - start),
            None => None::<int>,
        }),
{
    let rest = text.skip(start);
    lemma_find_from(text, needle, start);
    lemma_find_from(rest, needle, 0);
    assert forall|j: int| 0 <= j implies occurs_at(rest, needle, j) == occurs_at(
        text,
        needle,
        start + j,
    ) by {
        if j + needle.len() <= rest.len() {
            assert(rest.subrange(j, j + needle.len()) =~= text.subrange(
                start + j,
                start + j + needle.len(),
            ));
        }
    }
    match find_from(text, needle, start) {
        Some(at) => {
            assert(occurs_at(rest, needle, at - start));
        },
        None => {
            match find_from(rest, needle, 0) {
                Some(k) => {
                    assert(occurs_at(text, needle, start + k));
                },
                None => {},
            }
        },
    }
}

/// The texts one after another, with `separator` between neighbours.
pub open spec fn join(list: Seq<Seq<char>>, separator: Seq<char>) -> Seq<char>
    decreases list.len(),
{
    if list.len() == 0 {
        Seq::empty()
    } else if list.len() == 1 {
        list[0]
    } else {
        join(list.drop_last(), separator) + separator + list.last()
    }
}

/// The texts one after another, with `separator` between neighbours.
pub fn joined(list: &Vec<String>, separator: &str) -> (text: String)
    ensures
        text@ == join(texts(list@), separator@),
{
    let mut text = String::new();
    let mut i: usize = 0;
    while i < list.len()
        invariant
            i <= list@.len(),
            text@ == join(texts(list@.take(i as int)), separator@),
        decreases list@.len() - i,
    {
        assert(texts(list@.take(i + 1)).drop_last() =~= texts(list@.take(i as int)));
        if i > 0 {
            text.append(separator);
        }
        text.append(list[i].as_str());
        if i == 0 {
            assert(text@ =~= list@[0]@);
        }
        i += 1;
    }
    assert(list@.take(i as int) == list@);
    text
}

/// The decimal digits of a number.
pub open spec fn decimal(n: nat) -> Seq<char>
    decreases n,
{
    let digit = ((48 + n % 10) as u8) as char;
    if n < 10 {
        seq![digit]
    } else {
        decimal(n / 10).push(digit)
    }
}

/// The decimal digits of a number.
pub fn decimal_text(n: u64) -> (text: String)
    ensures
        text@ == decimal(n as nat),
    decreases n,
{
    let digit = (48u8 + (n % 10) as u8) as char;
    let mut text = if n < 10 {
        String::new()
    } else {
        decimal_text(n / 10)
    };
    text.push(digit);
    assert(n < 10 ==> text@ =~= seq![digit]);
    text
}

/// The order of texts: by the first character in which they differ, and a text stands before
/// those that extend it.
pub open spec fn text_lt(a: Seq<char>, b: Seq<char>) -> bool
    decreases a.len(),
{
    if b.len() == 0 {
        false
    } else if a.len() == 0 {
        true
    } else if a[0] == b[0] {
        text_lt(a.skip(1), b.skip(1))
    } else {
        a[0] < b[0]
    }
}

/// Does `a` stand before `b`?
pub fn text_before(a: &str, b: &str) -> (before: bool)
    ensures
        before == text_lt(a@, b@),
{
    let left = chars_of(a);
    let right = chars_of(b);
    let mut i: usize = 0;
    assert(left@.skip(0) == left@ && right@.skip(0) == right@);
    while i < left.len() && i < right.len() && left[i] == right[i]
        invariant
            i <= left@.len(),
            i <= right@.len(),
            left@ == a@,
            right@ == b@,
            text_lt(a@, b@) == text_lt(left@.skip(i as int), right@.skip(i as int)),
        decreases left@.len() - i,
    {
        assert(left@.skip(i as int).skip(1) == left@.skip(i + 1));
        assert(right@.skip(i as int).skip(1) == right@.skip(i + 1));
        i += 1;
    }
    if i == right.len() {
        false
    } else if i == left.len() {
        true
    } else {
        left[i] < right[i]
    }
}

/// No text stands before itself.
pub proof fn lemma_text_lt_irreflexive(a: Seq<char>)
    ensures
        !text_lt(a, a),
    decreases a.len(),
{
    if a.len() > 0 {
        lemma_text_lt_irreflexive(a.skip(1));
    }
}

/// The order of texts is transitive.
pub proof fn lemma_text_lt_transitive(a: Seq<char>, b: Seq<char>, c: Seq<char>)
    requires
        text_lt(a, b),
        text_lt(b, c),
    ensures
        text_lt(a, c),
    decreases a.len(),
{
    if a.len() > 0 && b.len() > 0 && c.len() > 0 && a[0] == b[0] && b[0] == c[0] {
        lemma_text_lt_transitive(a.skip(1), b.skip(1), c.skip(1));
    }
}

/// Of two texts one stands before the other, or they are the same.
pub proof fn lemma_text_lt_total(a: Seq<char>, b: Seq<char>)
    ensures
        text_lt(a, b) || text_lt(b, a) || a == b,
    decreases a.len(),
{
    if a.len() > 0 && b.len() > 0 && a[0] == b[0] {
        lemma_text_lt_total(a.skip(1), b.skip(1));
        if a.skip(1) == b.skip(1) {
            assert(a =~= seq![a[0]] + a.skip(1));
            assert(b =~= seq![b[0]] + b.skip(1));
        }
    } else if a.len() == 0 && b.len() == 0 {
        assert(a =~= b);
    }
}

/// White space is taken off both ends of a text, and nothing else.
pub proof fn law_trimming_takes_white_space_off(
    before: Seq<char>,
    middle: Seq<char>,
    after: Seq<char>,
)
    requires
        forall|i: int| 0 <= i < before.len() ==> is_white(#[trigger] before[i]),
        forall|i: int| 0 <= i < after.len() ==> is_white(#[trigger] after[i]),
        middle.len() > 0,
        !is_white(middle[0]),
        !is_white(middle.last()),
    ensures
        trim_start(before + middle + after) == middle + after,
        trim(before + middle + after) == middle,
        trim(before + after) == Seq::<char>::empty(),
{
    lemma_trim_start_white(before, middle + after);
    assert(before + (middle + after) =~= before + middle + after);
    lemma_trim_end_white(middle, after);
    lemma_all_white(before + after);
}

proof fn lemma_trim_start_white(before: Seq<char>, rest: Seq<char>)
    requires
        forall|i: int| 0 <= i < before.len() ==> is_white(#[trigger] before[i]),
        rest.len() == 0 || !is_white(rest[0]),
    ensures
        trim_start(before + rest) == rest,
    decreases before.len(),
{
    if before.len() == 0 {
        assert(before + rest =~= rest);
    } else {
        assert((before + rest)[0] == before[0]);
        assert((before + rest).skip(1) =~= before.skip(1) + rest);
        lemma_trim_start_white(before.skip(1), rest);
    }
}

proof fn lemma_trim_end_white(text: Seq<char>, after: Seq<char>)
    requires
        forall|i: int| 0 <= i < after.len() ==> is_white(#[trigger] after[i]),
        text.len() > 0,
        !is_white(text.last()),
    ensures
        trim_end(text + after) == text,
    decreases after.len(),
{
    if after.len() == 0 {
        assert(text + after =~= text);
    } else {
        assert((text + after).last() == after.last());
        assert((text + after).drop_last() =~= text + after.drop_last());
        lemma_trim_end_white(text, after.drop_last());
    }
}

proof fn lemma_all_white(text: Seq<char>)
    requires
        forall|i: int| 0 <= i < text.len() ==> is_white(#[trigger] text[i]),
    ensures
        trim(text) == Seq::<char>::empty(),
{
    let none = Seq::<char>::empty();
    lemma_trim_start_white(text, none);
    assert(text + none =~= text);
}

/// Spaces, tabulators and the ends of lines are white space; characters that can be seen in ASCII
/// are not.
pub proof fn law_white_space_of_ascii(c: char)
    requires
        c <= '\u{7f}',
    ensures
        is_white(c) <==> c == ' ' || c == '\t' || c == '\n' || c == '\r' || c == '\u{b}' || c
            == '\u{c}',
{
}

/// Two texts follow each other as the first characters do in which they differ, and a text comes
/// before those that begin with it.
pub proof fn law_order_goes_by_the_first_difference(
    common: Seq<char>,
    a: char,
    b: char,
    rest: Seq<char>,
    other_rest: Seq<char>,
)
    ensures
        a != b ==> (text_lt(common + seq![a] + rest, common + seq![b] + other_rest) <==> a < b),
        text_lt(common, common + seq![a] + rest),
        !text_lt(common + seq![a] + rest, common),
    decreases common.len(),
{
    let left = common + seq![a] + rest;
    let right = common + seq![b] + other_rest;
    if common.len() == 0 {
        assert(left[0] == a && right[0] == b);
    } else {
        law_order_goes_by_the_first_difference(common.skip(1), a, b, rest, other_rest);
        assert(left.skip(1) =~= common.skip(1) + seq![a] + rest);
        assert(right.skip(1) =~= common.skip(1) + seq![b] + other_rest);
    }
}

/// The number that digits stand for.
pub open spec fn number_in(digits: Seq<char>) -> int
    decreases digits.len(),
{
    if digits.len() == 0 {
        0
    } else {
        10 * number_in(digits.drop_last()) + (digits.last() as u32 - '0' as u32)
    }
}

/// The digits of a number stand for it, and none of them is a needless zero at the front.
pub proof fn law_digits_stand_for_the_number(n: nat)
    ensures
        number_in(decimal(n)) == n,
        decimal(n).len() > 0,
        forall|i: int| 0 <= i < decimal(n).len() ==> '0' <= #[trigger] decimal(n)[i] <= '9',
        n > 0 ==> decimal(n)[0] != '0',
    decreases n,
{
    let digit = ((48 + n % 10) as u8) as char;
    assert(digit as u32 == 48 + n % 10);
    if n < 10 {
        assert(decimal(n) =~= seq![digit]);
        assert(seq![digit].drop_last() =~= Seq::empty());
        assert(number_in(seq![digit].drop_last()) == 0);
    } else {
        law_digits_stand_for_the_number(n / 10);
        assert(decimal(n).drop_last() =~= decimal(n / 10));
        assert(decimal(n)[0] == decimal(n / 10)[0]);
        assert forall|i: int| 0 <= i < decimal(n).len() implies '0' <= #[trigger] decimal(n)[i]
            <= '9' by {
            if i < decimal(n / 10).len() {
                assert(decimal(n)[i] == decimal(n / 10)[i]);
            }
        }
    }
}

/// A text splits at the first separator: the parts and the separator between them make the text,
/// and the separator stands nowhere before. Only a text without the separator does not split.
pub proof fn law_split_parts_make_the_text(text: Seq<char>, separator: Seq<char>)
    ensures
        match split_once(text, separator) {
            Some((before, after)) => {
                &&& before + separator + after == text
                &&& forall|at: int|
                    0 <= at < before.len() ==> !#[trigger] occurs_at(text, separator, at)
            },
            None => !contains(text, separator),
        },
{
    lemma_find_from(text, separator, 0);
    if let Some(at) = find_from(text, separator, 0) {
        let before = text.take(at);
        let after = text.skip(at + separator.len());
        assert(occurs_at(text, separator, at));
        assert(before + separator + after =~= text) by {
            assert(text.subrange(at, at + separator.len()) == separator);
            assert forall|i: int| 0 <= i < text.len() implies (before + separator + after)[i]
                == text[i] by {
                if at <= i < at + separator.len() {
                    assert(text.subrange(at, at + separator.len())[i - at] == text[i]);
                }
            }
        }
    }
}

/// What follows a prefix is what is left when the prefix is taken off; only a text that does not
/// begin with it has nothing to take off.
pub proof fn law_prefix_is_taken_off(prefix: Seq<char>, rest: Seq<char>, text: Seq<char>)
    ensures
        strip_prefix(prefix + rest, prefix) == Some(rest),
        strip_prefix(text, prefix) matches Some(left) ==> text == prefix + left,
        strip_prefix(text, prefix) is None ==> !prefix.is_prefix_of(text),
{
    assert((prefix + rest).take(prefix.len() as int) =~= prefix);
    assert((prefix + rest).skip(prefix.len() as int) =~= rest);
    if prefix.is_prefix_of(text) {
        assert(prefix + text.skip(prefix.len() as int) =~= text);
    }
}

/// The lines of a text: what stands before its first line feed, without one carriage return at its
/// end, and then the lines of what follows. Text without a line feed is one line, and no text is
/// none.
pub proof fn law_lines_end_at_line_feeds(line: Seq<char>, rest: Seq<char>)
    requires
        !line.contains('\n'),
    ensures
        lines(line + seq!['\n'] + rest) == seq![
            if line.len() > 0 && line.last() == '\r' {
                line.drop_last()
            } else {
                line
            },
        ] + lines(rest),
        line.len() > 0 ==> lines(line) == seq![line],
        lines(Seq::empty()) == Seq::<Seq<char>>::empty(),
{
    let feed = seq!['\n'];
    let whole = line + feed + rest;
    let n = line.len() as int;
    lemma_find_from(whole, feed, 0);
    lemma_find_from(line, feed, 0);
    lemma_find_from(Seq::<char>::empty(), feed, 0);
    assert(whole.subrange(n, n + 1) =~= feed);
    assert(occurs_at(whole, feed, n));
    assert forall|i: int| 0 <= i < n implies !occurs_at(whole, feed, i) by {
        if occurs_at(whole, feed, i) {
            assert(whole.subrange(i, i + 1)[0] == whole[i]);
            assert(line[i] == whole[i]);
            assert(line.contains(line[i]));
        }
    }
    assert forall|i: int| 0 <= i implies !occurs_at(line, feed, i) by {
        if occurs_at(line, feed, i) {
            assert(line.subrange(i, i + 1)[0] == line[i]);
            assert(line.contains(line[i]));
        }
    }
    assert(whole.take(n) =~= line);
    assert(whole.skip(n + 1) =~= rest);
}

/// Capital letters of ASCII become the small ones, and all other characters stay at their places.
pub proof fn law_small_letters(text: Seq<char>, i: int)
    requires
        0 <= i < text.len(),
    ensures
        lower(text).len() == text.len(),
        'A' <= text[i] <= 'Z' ==> lower(text)[i] as u32 == text[i] as u32 + 32,
        !('A' <= text[i] <= 'Z') ==> lower(text)[i] == text[i],
{
    let c = text[i];
    if 'A' <= c <= 'Z' {
        assert(c as u32 == (c as u8) as u32);
    }
}

/// Texts are joined one after another with the separator between each two.
pub proof fn law_joining_puts_the_separator_between(
    list: Seq<Seq<char>>,
    text: Seq<char>,
    separator: Seq<char>,
)
    ensures
        join(Seq::empty(), separator) == Seq::<char>::empty(),
        join(seq![text], separator) == text,
        list.len() > 0 ==> join(list.push(text), separator) == join(list, separator) + separator
            + text,
{
    assert(list.push(text).drop_last() =~= list);
}

/// Beyond ASCII, white space is what Unicode counts as such.
pub proof fn law_white_space_beyond_ascii(c: char)
    requires
        c > '\u{7f}',
    ensures
        is_white(c) <==> c == '\u{85}' || c == '\u{a0}' || c == '\u{1680}' || '\u{2000}' <= c
            <= '\u{200a}' || c == '\u{2028}' || c == '\u{2029}' || c == '\u{202f}' || c
            == '\u{205f}' || c == '\u{3000}',
{
}

} // verus!
