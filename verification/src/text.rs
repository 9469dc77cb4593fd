//! Strings as sequences of characters: the primitives that every other module
//! reads and writes text with.

use vstd::prelude::*;

verus! {

/// `String::push` appends one character to the end of the string.
pub assume_specification[ String::push ](s: &mut String, c: char)
    ensures
        final(s)@ == old(s)@.push(c),
;

/// The texts of a list of strings.
pub open spec fn texts(list: Seq<String>) -> Seq<Seq<char>> {
    list.map_values(|s: String| s@)
}

/// The texts of a list of string slices.
pub open spec fn slices(list: Seq<&str>) -> Seq<Seq<char>> {
    list.map_values(|s: &str| s@)
}

/// The text of an optional string.
pub open spec fn opt_text(s: Option<String>) -> Option<Seq<char>> {
    match s {
        Some(s) => Some(s@),
        None => None,
    }
}

/// The text of an optional string, or another one.
pub open spec fn text_or(s: Option<String>, other: Seq<char>) -> Seq<char> {
    match s {
        Some(s) => s@,
        None => other,
    }
}

/// The text of an optional string, or another one.
pub fn str_or<'a>(s: &'a Option<String>, other: &'a str) -> (r: &'a str)
    ensures
        r@ == text_or(*s, other@),
{
    match s {
        Some(s) => s.as_str(),
        None => other,
    }
}

/// Collects the characters of a string.
pub fn chars_of(s: &str) -> (r: Vec<char>)
    ensures
        r@ == s@,
{
    let mut out: Vec<char> = Vec::new();
    for c in it: s.chars()
        invariant
            out@ == s@.take(it.index() as int),
            it.seq() == s@,
    {
        out.push(c);
    }
    assert(s@.take(s@.len() as int) == s@);
    out
}

/// Builds a string out of a range of characters.
pub fn string_of(chars: &Vec<char>, from: usize, to: usize) -> (r: String)
    requires
        from <= to <= chars@.len(),
    ensures
        r@ == chars@.subrange(from as int, to as int),
{
    let mut out = String::new();
    let mut i: usize = from;
    while i < to
        invariant
            from <= i <= to <= chars@.len(),
            out@ == chars@.subrange(from as int, i as int),
        decreases to - i,
    {
        out.push(chars[i]);
        i = i + 1;
    }
    out
}

/// Whether two strings hold the same text.
pub fn same(a: &str, b: &str) -> (r: bool)
    ensures
        r == (a@ == b@),
{
    let x = chars_of(a);
    let y = chars_of(b);
    if x.len() != y.len() {
        return false;
    }
    let mut i: usize = 0;
    while i < x.len()
        invariant
            x@ == a@,
            y@ == b@,
            x@.len() == y@.len(),
            i <= x@.len(),
            forall|j: int| 0 <= j < i ==> x@[j] == y@[j],
        decreases x@.len() - i,
    {
        if x[i] != y[i] {
            return false;
        }
        i = i + 1;
    }
    assert(x@ =~= y@);
    true
}

/// The index of the first `c` in `s`, or the length of `s` where there is none.
pub open spec fn position(s: Seq<char>, c: char) -> int
    decreases s.len(),
{
    if s.len() == 0 || s[0] == c {
        0
    } else {
        1 + position(s.drop_first(), c)
    }
}

/// `position` is the least index at which the character stands.
pub proof fn lemma_position(s: Seq<char>, c: char)
    ensures
        0 <= position(s, c) <= s.len(),
        forall|j: int| 0 <= j < position(s, c) ==> s[j] != c,
        position(s, c) < s.len() ==> s[position(s, c)] == c,
        s.contains(c) <==> position(s, c) < s.len(),
    decreases s.len(),
{
    if s.len() == 0 || s[0] == c {
    } else {
        lemma_position(s.drop_first(), c);
        assert forall|j: int| 0 <= j < position(s, c) implies s[j] != c by {
            if j > 0 {
                assert(s.drop_first()[j - 1] == s[j]);
            }
        }
        if position(s, c) == s.len() {
            assert forall|j: int| 0 <= j < s.len() implies s[j] != c by {
                if j > 0 {
                    assert(s.drop_first()[j - 1] == s[j]);
                }
            }
        }
    }
}

/// An index that holds the first `c` is the position of `c`.
pub proof fn lemma_position_is(s: Seq<char>, c: char, i: int)
    requires
        0 <= i <= s.len(),
        forall|j: int| 0 <= j < i ==> s[j] != c,
        i < s.len() ==> s[i] == c,
    ensures
        position(s, c) == i,
{
    lemma_position(s, c);
    let p = position(s, c);
    if p < i {
        assert(s[p] != c);
    }
    if i < p {
        assert(s[i] != c);
    }
}

/// Finds the first `c`, counted in characters.
pub fn find(s: &str, c: char) -> (r: Option<usize>)
    ensures
        r matches Some(i) ==> i == position(s@, c) && i < s@.len(),
        r is None ==> position(s@, c) == s@.len(),
        r is Some <==> s@.contains(c),
{
    let chars = chars_of(s);
    let mut i: usize = 0;
    while i < chars.len()
        invariant
            chars@ == s@,
            i <= chars@.len(),
            forall|j: int| 0 <= j < i ==> chars@[j] != c,
        decreases chars@.len() - i,
    {
        if chars[i] == c {
            proof {
                lemma_position_is(s@, c, i as int);
                lemma_position(s@, c);
            }
            return Some(i);
        }
        i = i + 1;
    }
    proof {
        lemma_position_is(s@, c, i as int);
        lemma_position(s@, c);
    }
    None
}

/// Splits a string at the first separator.
pub fn split_once<'a>(s: &'a str, c: char) -> (r: Option<(&'a str, &'a str)>)
    ensures
        r is Some <==> s@.contains(c),
        r matches Some((before, after)) ==> before@ == s@.take(position(s@, c)) && after@
            == s@.skip(position(s@, c) + 1),
{
    match find(s, c) {
        Some(i) => {
            let n = s.unicode_len();
            let before = s.substring_char(0, i);
            let after = s.substring_char(i + 1, n);
            assert(before@ =~= s@.take(i as int));
            assert(after@ =~= s@.skip(i + 1));
            Some((before, after))
        },
        None => None,
    }
}

/// The pieces of `s` between occurrences of `c`, at most `n` of them: the last
/// piece keeps whatever separators are left.
pub open spec fn split_at_most(s: Seq<char>, n: nat, c: char) -> Seq<Seq<char>>
    decreases n,
{
    if n == 0 {
        Seq::empty()
    } else if n == 1 || !s.contains(c) {
        seq![s]
    } else {
        seq![s.take(position(s, c))] + split_at_most(
            s.skip(position(s, c) + 1),
            (n - 1) as nat,
            c,
        )
    }
}

/// Splits a string at the first separators, into at most `n` pieces.
pub fn splitn<'a>(s: &'a str, n: usize, c: char) -> (r: Vec<&'a str>)
    requires
        n > 0,
    ensures
        slices(r@) == split_at_most(s@, n as nat, c),
        1 <= r@.len() <= n,
{
    let mut out: Vec<&'a str> = Vec::new();
    let mut rest: &'a str = s;
    let mut left: usize = n;
    assert(slices(out@) + split_at_most(s@, n as nat, c) =~= split_at_most(s@, n as nat, c));
    while left > 1
        invariant_except_break
            slices(out@) + split_at_most(rest@, left as nat, c) == split_at_most(s@, n as nat, c),
            1 <= left,
            left + out@.len() == n,
        ensures
            slices(out@) + seq![rest@] == split_at_most(s@, n as nat, c),
            out@.len() < n,
        decreases left,
    {
        match find(rest, c) {
            Some(i) => {
                let len = rest.unicode_len();
                let head = rest.substring_char(0, i);
                let tail = rest.substring_char(i + 1, len);
                assert(head@ == rest@.take(position(rest@, c)));
                assert(tail@ == rest@.skip(position(rest@, c) + 1));
                let ghost before = out@;
                out.push(head);
                assert(slices(out@) =~= slices(before).push(head@));
                assert(slices(out@) + split_at_most(tail@, (left - 1) as nat, c) =~= slices(before)
                    + split_at_most(rest@, left as nat, c));
                rest = tail;
                left = left - 1;
            },
            None => {
                break;
            },
        }
    }
    let ghost before = out@;
    out.push(rest);
    assert(slices(out@) =~= slices(before) + seq![rest@]);
    out
}

/// All the pieces of `s` between occurrences of `c`.
pub open spec fn split_all(s: Seq<char>, c: char) -> Seq<Seq<char>>
    decreases s.len(),
    via split_all_decreases
{
    if !s.contains(c) {
        seq![s]
    } else {
        seq![s.take(position(s, c))] + split_all(s.skip(position(s, c) + 1), c)
    }
}

#[via_fn]
proof fn split_all_decreases(s: Seq<char>, c: char) {
    lemma_position(s, c);
}

/// Splits a string at every separator.
pub fn split<'a>(s: &'a str, c: char) -> (r: Vec<&'a str>)
    ensures
        slices(r@) == split_all(s@, c),
        r@.len() >= 1,
{
    let mut out: Vec<&'a str> = Vec::new();
    let mut rest: &'a str = s;
    assert(slices(out@) + split_all(s@, c) =~= split_all(s@, c));
    loop
        invariant_except_break
            slices(out@) + split_all(rest@, c) == split_all(s@, c),
        ensures
            slices(out@) + seq![rest@] == split_all(s@, c),
        decreases rest@.len(),
    {
        match find(rest, c) {
            Some(i) => {
                let len = rest.unicode_len();
                let head = rest.substring_char(0, i);
                let tail = rest.substring_char(i + 1, len);
                assert(head@ == rest@.take(position(rest@, c)));
                assert(tail@ == rest@.skip(position(rest@, c) + 1));
                let ghost before = out@;
                out.push(head);
                assert(slices(out@) =~= slices(before).push(head@));
                assert(slices(out@) + split_all(tail@, c) =~= slices(before) + split_all(rest@, c));
                rest = tail;
            },
            None => {
                break;
            },
        }
    }
    let ghost before = out@;
    out.push(rest);
    assert(slices(out@) =~= slices(before) + seq![rest@]);
    out
}

/// What follows the last `c` in `s`, or all of `s` where there is none.
pub open spec fn after_last(s: Seq<char>, c: char) -> Seq<char>
    decreases s.len(),
{
    if s.len() == 0 || s.last() == c {
        Seq::empty()
    } else {
        after_last(s.drop_last(), c).push(s.last())
    }
}

/// Takes the piece behind the last separator.
pub fn last_piece<'a>(s: &'a str, c: char) -> (r: &'a str)
    ensures
        r@ == after_last(s@, c),
{
    let chars = chars_of(s);
    let mut i: usize = chars.len();
    assert(s@.subrange(i as int, s@.len() as int) =~= Seq::empty());
    assert(s@.take(i as int) =~= s@);
    assert(after_last(s@.take(i as int), c) + s@.subrange(i as int, s@.len() as int)
        =~= after_last(s@, c));
    while i > 0
        invariant_except_break
            chars@ == s@,
            i <= s@.len(),
            after_last(s@.take(i as int), c) + s@.subrange(i as int, s@.len() as int) == after_last(
                s@,
                c,
            ),
        ensures
            i <= s@.len(),
            chars@ == s@,
            s@.subrange(i as int, s@.len() as int) == after_last(s@, c),
        decreases i,
    {
        let ghost t = s@.take(i as int);
        assert(t.last() == s@[i - 1]);
        assert(t.drop_last() =~= s@.take(i - 1));
        if chars[i - 1] == c {
            assert(after_last(t, c) + s@.subrange(i as int, s@.len() as int) =~= s@.subrange(
                i as int,
                s@.len() as int,
            ));
            break;
        }
        assert(after_last(t, c) + s@.subrange(i as int, s@.len() as int) =~= after_last(
            s@.take(i - 1),
            c,
        ) + s@.subrange(i - 1, s@.len() as int));
        i = i - 1;
        assert(i == 0 ==> after_last(s@.take(i as int), c) + s@.subrange(
            i as int,
            s@.len() as int,
        ) =~= s@.subrange(i as int, s@.len() as int));
    }
    assert(i == 0 ==> after_last(s@.take(0), c) =~= Seq::empty());
    s.substring_char(i, chars.len())
}

/// Whether `s` begins with `prefix`.
pub fn starts_with(s: &str, prefix: &str) -> (r: bool)
    ensures
        r == prefix@.is_prefix_of(s@),
{
    let n = prefix.unicode_len();
    let len = s.unicode_len();
    if n > len {
        return false;
    }
    let head = s.substring_char(0, n);
    same(head, prefix)
}

/// Whether `s` ends with `suffix`.
pub fn ends_with(s: &str, suffix: &str) -> (r: bool)
    ensures
        r == suffix@.is_suffix_of(s@),
{
    let n = suffix.unicode_len();
    let len = s.unicode_len();
    if n > len {
        return false;
    }
    let tail = s.substring_char(len - n, len);
    same(tail, suffix)
}

/// Whether `needle` stands somewhere in `s`.
pub open spec fn occurs(s: Seq<char>, needle: Seq<char>) -> bool {
    exists|i: int|
        0 <= i <= s.len() - needle.len() && #[trigger] s.subrange(i, i + needle.len()) == needle
}

/// Whether `needle` stands somewhere in `s`.
pub fn contains(s: &str, needle: &str) -> (r: bool)
    ensures
        r == occurs(s@, needle@),
{
    let n = needle.unicode_len();
    let len = s.unicode_len();
    if n > len {
        return false;
    }
    let mut i: usize = 0;
    loop
        invariant
            n == needle@.len(),
            len == s@.len(),
            n <= len,
            i <= len - n,
            forall|j: int| 0 <= j < i ==> #[trigger] s@.subrange(j, j + n) != needle@,
        decreases len - i,
    {
        let piece = s.substring_char(i, i + n);
        if same(piece, needle) {
            return true;
        }
        if i == len - n {
            return false;
        }
        i = i + 1;
    }
}

/// The characters with the Unicode property `White_Space`.
pub open spec fn is_white_space(c: char) -> bool {
    ||| '\u{9}' <= c <= '\u{d}'
    ||| c == '\u{20}'
    ||| c == '\u{85}'
    ||| c == '\u{a0}'
    ||| c == '\u{1680}'
    ||| '\u{2000}' <= c <= '\u{200a}'
    ||| c == '\u{2028}'
    ||| c == '\u{2029}'
    ||| c == '\u{202f}'
    ||| c == '\u{205f}'
    ||| c == '\u{3000}'
}

/// Whether a character is white space.
pub fn white_space(c: char) -> (r: bool)
    ensures
        r == is_white_space(c),
{
    ('\u{9}' <= c && c <= '\u{d}') || c == '\u{20}' || c == '\u{85}' || c == '\u{a0}' || c
        == '\u{1680}' || ('\u{2000}' <= c && c <= '\u{200a}') || c == '\u{2028}' || c == '\u{2029}'
        || c == '\u{202f}' || c == '\u{205f}' || c == '\u{3000}'
}

/// `s` without the white space in front.
pub open spec fn trim_front(s: Seq<char>) -> Seq<char>
    decreases s.len(),
{
    if s.len() > 0 && is_white_space(s[0]) {
        trim_front(s.drop_first())
    } else {
        s
    }
}

/// `s` without the white space at the end.
pub open spec fn trim_back(s: Seq<char>) -> Seq<char>
    decreases s.len(),
{
    if s.len() > 0 && is_white_space(s.last()) {
        trim_back(s.drop_last())
    } else {
        s
    }
}

/// `s` without the white space at its two ends.
pub open spec fn trimmed(s: Seq<char>) -> Seq<char> {
    trim_back(trim_front(s))
}

/// Cuts the white space off both ends.
pub fn trim<'a>(s: &'a str) -> (r: &'a str)
    ensures
        r@ == trimmed(s@),
{
    let chars = chars_of(s);
    let len = chars.len();
    let mut from: usize = 0;
    assert(s@.skip(0) =~= s@);
    while from < len && white_space(chars[from])
        invariant
            chars@ == s@,
            len == s@.len(),
            from <= len,
            trim_front(s@) == trim_front(s@.skip(from as int)),
        decreases len - from,
    {
        assert(s@.skip(from as int).drop_first() =~= s@.skip(from + 1));
        from = from + 1;
    }
    assert(trim_front(s@) == s@.skip(from as int)) by {
        if from < len {
            assert(s@.skip(from as int)[0] == s@[from as int]);
        }
    }
    let mut to: usize = len;
    assert(s@.subrange(from as int, to as int) =~= s@.skip(from as int));
    while to > from && white_space(chars[to - 1])
        invariant
            chars@ == s@,
            len == s@.len(),
            from <= to <= len,
            trimmed(s@) == trim_back(s@.subrange(from as int, to as int)),
        decreases to,
    {
        assert(s@.subrange(from as int, to as int).drop_last() =~= s@.subrange(
            from as int,
            to - 1,
        ));
        to = to - 1;
    }
    assert(trimmed(s@) == s@.subrange(from as int, to as int)) by {
        if from < to {
            assert(s@.subrange(from as int, to as int).last() == s@[to - 1]);
        }
    }
    s.substring_char(from, to)
}

/// The number of characters in front of the first white space.
pub open spec fn word_length(s: Seq<char>) -> int
    decreases s.len(),
{
    if s.len() == 0 || is_white_space(s[0]) {
        0
    } else {
        1 + word_length(s.drop_first())
    }
}

/// A word is no longer than the text it stands in.
pub proof fn lemma_word_length(s: Seq<char>)
    ensures
        0 <= word_length(s) <= s.len(),
        s.len() > 0 && !is_white_space(s[0]) ==> word_length(s) > 0,
    decreases s.len(),
{
    if s.len() > 0 && !is_white_space(s[0]) {
        lemma_word_length(s.drop_first());
    }
}

/// The words of `s`: its maximal runs of characters that are no white space.
pub open spec fn words(s: Seq<char>) -> Seq<Seq<char>>
    decreases s.len(),
    via words_decreases
{
    if s.len() == 0 {
        Seq::empty()
    } else if is_white_space(s[0]) {
        words(s.drop_first())
    } else {
        seq![s.take(word_length(s))] + words(s.skip(word_length(s)))
    }
}

#[via_fn]
proof fn words_decreases(s: Seq<char>) {
    lemma_word_length(s);
}

/// Splits a string into its words.
pub fn split_whitespace<'a>(s: &'a str) -> (r: Vec<&'a str>)
    ensures
        slices(r@) == words(s@),
{
    let chars = chars_of(s);
    let len = chars.len();
    let mut out: Vec<&'a str> = Vec::new();
    let mut i: usize = 0;
    assert(s@.skip(0) =~= s@);
    assert(slices(out@) + words(s@) =~= words(s@));
    while i < len
        invariant
            chars@ == s@,
            len == s@.len(),
            i <= len,
            slices(out@) + words(s@.skip(i as int)) == words(s@),
        decreases len - i,
    {
        let ghost rest = s@.skip(i as int);
        assert(rest[0] == s@[i as int]);
        if white_space(chars[i]) {
            assert(rest.drop_first() =~= s@.skip(i + 1));
            i = i + 1;
        } else {
            let mut j: usize = i;
            while j < len && !white_space(chars[j])
                invariant
                    chars@ == s@,
                    len == s@.len(),
                    i <= j <= len,
                    word_length(s@.skip(i as int)) == (j - i) + word_length(s@.skip(j as int)),
                decreases len - j,
            {
                assert(s@.skip(j as int)[0] == s@[j as int]);
                assert(s@.skip(j as int).drop_first() =~= s@.skip(j + 1));
                j = j + 1;
            }
            proof {
                if j < len {
                    assert(s@.skip(j as int)[0] == s@[j as int]);
                }
                lemma_word_length(rest);
                assert(word_length(rest) == j - i);
                assert(rest.take(j - i) =~= s@.subrange(i as int, j as int));
                assert(rest.skip(j - i) =~= s@.skip(j as int));
            }
            let word = s.substring_char(i, j);
            let ghost before = out@;
            out.push(word);
            assert(slices(out@) =~= slices(before).push(word@));
            assert(slices(out@) + words(s@.skip(j as int)) =~= slices(before) + words(rest));
            i = j;
        }
    }
    assert(s@.skip(i as int) =~= Seq::empty());
    assert(slices(out@) + words(s@.skip(i as int)) =~= slices(out@));
    out
}

/// The pieces of a list, in order, with a separator between them.
pub open spec fn join(parts: Seq<Seq<char>>, sep: Seq<char>) -> Seq<char>
    decreases parts.len(),
{
    if parts.len() == 0 {
        Seq::empty()
    } else if parts.len() == 1 {
        parts[0]
    } else {
        join(parts.drop_last(), sep) + sep + parts.last()
    }
}

/// Joins the strings of a list with a separator.
pub fn join_all(parts: &Vec<String>, sep: &str) -> (r: String)
    ensures
        r@ == join(texts(parts@), sep@),
{
    let ghost all = texts(parts@);
    let mut out = String::new();
    let mut i: usize = 0;
    while i < parts.len()
        invariant
            i <= parts@.len(),
            all == texts(parts@),
            out@ == join(all.take(i as int), sep@),
        decreases parts@.len() - i,
    {
        if i > 0 {
            out.append(sep);
        }
        out.append(parts[i].as_str());
        proof {
            assert(all.take(i + 1).drop_last() =~= all.take(i as int));
            assert(all.take(i + 1).last() == parts@[i as int]@);
            assert(all.take(0) =~= Seq::empty());
            if i == 0 {
                assert(out@ =~= parts@[0]@);
            }
        }
        i = i + 1;
    }
    assert(all.take(all.len() as int) =~= all);
    out
}

/// Copies a list of strings.
pub fn copy_all(list: &Vec<String>) -> (r: Vec<String>)
    ensures
        texts(r@) == texts(list@),
{
    let mut out: Vec<String> = Vec::new();
    let mut i: usize = 0;
    while i < list.len()
        invariant
            i <= list@.len(),
            texts(out@) == texts(list@).take(i as int),
        decreases list@.len() - i,
    {
        let ghost before = texts(out@);
        out.push(list[i].clone());
        assert(texts(out@) =~= before.push(list@[i as int]@));
        assert(texts(list@).take(i + 1) =~= texts(list@).take(i as int).push(list@[i as int]@));
        i = i + 1;
    }
    assert(texts(list@).take(list@.len() as int) =~= texts(list@));
    out
}

/// Copies an optional string.
pub fn copy_opt(s: &Option<String>) -> (r: Option<String>)
    ensures
        opt_text(r) == opt_text(*s),
{
    match s {
        Some(s) => Some(s.clone()),
        None => None,
    }
}

/// A character with an ASCII capital made small.
pub open spec fn ascii_small(c: char) -> char {
    if 'A' <= c <= 'Z' {
        ((c as u8) + 32) as char
    } else {
        c
    }
}

/// Makes the ASCII capitals of a string small.
pub fn ascii_lowercase(s: &str) -> (r: String)
    ensures
        r@ == s@.map_values(|c: char| ascii_small(c)),
{
    let chars = chars_of(s);
    let ghost want = s@.map_values(|c: char| ascii_small(c));
    let mut out = String::new();
    let mut i: usize = 0;
    assert(want.take(0) =~= Seq::empty());
    while i < chars.len()
        invariant
            chars@ == s@,
            i <= chars@.len(),
            want == s@.map_values(|c: char| ascii_small(c)),
            out@ == want.take(i as int),
        decreases chars@.len() - i,
    {
        let c = chars[i];
        if 'A' <= c && c <= 'Z' {
            let n = c as u8;
            out.push((n + 32) as char);
        } else {
            out.push(c);
        }
        assert(want.take(i + 1) =~= want.take(i as int).push(want[i as int]));
        i = i + 1;
    }
    assert(want.take(want.len() as int) =~= want);
    out
}

/// A number of spaces.
pub open spec fn spaces(n: int) -> Seq<char> {
    Seq::new(
        if n > 0 {
            n as nat
        } else {
            0
        },
        |i: int| ' ',
    )
}

/// A text followed by spaces up to a width.
pub open spec fn padded(s: Seq<char>, width: int) -> Seq<char> {
    s + spaces(width - s.len())
}

/// Writes a text followed by spaces up to a width.
pub fn push_padded(out: &mut String, s: &str, width: usize)
    ensures
        final(out)@ == old(out)@ + padded(s@, width as int),
{
    let ghost start = out@;
    out.append(s);
    let n = s.unicode_len();
    let mut i: usize = n;
    assert(out@ =~= start + s@ + spaces(0));
    while i < width
        invariant
            n == s@.len(),
            n <= i,
            i <= width || i == n,
            out@ == start + s@ + spaces(i - n),
        decreases width - i,
    {
        out.push(' ');
        assert(out@ =~= start + s@ + spaces(i + 1 - n));
        i = i + 1;
    }
    assert(spaces(i - n) =~= spaces(width - s@.len()));
    assert(out@ =~= start + padded(s@, width as int));
}

/// A text in lower case.
pub uninterp spec fn lowercase(s: Seq<char>) -> Seq<char>;

/// `str::to_lowercase` gives a text in lower case. It is a function of the text,
/// which [`lowercase`] names; how characters are mapped is not stated.
#[verifier::external_body]
pub(crate) fn to_lowercase(s: &str) -> (r: String)
    ensures
        r@ == lowercase(s@),
{
    s.to_lowercase()
}

/// What follows the last separator holds no separator, and stands behind one, or is all
/// there is.
pub proof fn lemma_after_last(s: Seq<char>, c: char)
    ensures
        !after_last(s, c).contains(c),
        after_last(s, c).len() <= s.len(),
        s == s.take(s.len() - after_last(s, c).len()) + after_last(s, c),
        after_last(s, c).len() < s.len() ==> s[s.len() - after_last(s, c).len() - 1] == c,
    decreases s.len(),
{
    if s.len() == 0 || s.last() == c {
        assert(s =~= s.take(s.len() as int) + Seq::<char>::empty());
    } else {
        let front = s.drop_last();
        lemma_after_last(front, c);
        let a = after_last(front, c);
        let b = after_last(s, c);
        assert forall|i: int| 0 <= i < b.len() implies b[i] != c by {
            if i < a.len() {
                assert(b[i] == a[i]);
                assert(a.contains(a[i]));
            }
        }
        assert(s =~= front.push(s.last()));
        assert(s =~= s.take(s.len() - b.len()) + b);
    }
}

/// Pieces that are joined with a separator stand one after the other with it between
/// them.
pub proof fn lemma_join_grows(parts: Seq<Seq<char>>, last: Seq<char>, sep: Seq<char>)
    ensures
        join(Seq::empty(), sep) == Seq::<char>::empty(),
        join(seq![last], sep) == last,
        parts.len() > 0 ==> join(parts.push(last), sep) == join(parts, sep) + sep + last,
{
    assert(parts.push(last).drop_last() =~= parts);
}

proof fn lemma_join_front(first: Seq<char>, parts: Seq<Seq<char>>, sep: Seq<char>)
    requires
        parts.len() > 0,
    ensures
        join(seq![first] + parts, sep) == first + sep + join(parts, sep),
    decreases parts.len(),
{
    let all = seq![first] + parts;
    if parts.len() == 1 {
        assert(all.drop_last() =~= seq![first]);
        assert(all.last() == parts[0]);
        assert(join(seq![first], sep) == first);
        assert(join(parts, sep) == parts[0]);
        assert(join(all, sep) =~= first + sep + parts[0]);
    } else {
        assert(all.drop_last() =~= seq![first] + parts.drop_last());
        lemma_join_front(first, parts.drop_last(), sep);
        assert(join(all, sep) =~= first + sep + join(parts, sep));
    }
}

/// The pieces between separators hold none, and joined again they are what was split.
pub proof fn lemma_split_all(s: Seq<char>, c: char)
    ensures
        split_all(s, c).len() > 0,
        forall|i: int| 0 <= i < split_all(s, c).len() ==> !(#[trigger] split_all(s, c)[i]).contains(c),
        join(split_all(s, c), seq![c]) == s,
    decreases s.len(),
{
    if s.contains(c) {
        lemma_position(s, c);
        let p = position(s, c);
        let first = s.take(p);
        let rest = s.skip(p + 1);
        lemma_split_all(rest, c);
        let more = split_all(rest, c);
        assert forall|i: int| 0 <= i < first.len() implies first[i] != c by {
            assert(first[i] == s[i]);
        }
        lemma_join_front(first, more, seq![c]);
        assert(s =~= first + seq![c] + rest);
        assert forall|i: int| 0 <= i < split_all(s, c).len() implies !(
        #[trigger] split_all(s, c)[i]).contains(c) by {
            if i > 0 {
                assert(split_all(s, c)[i] == more[i - 1]);
            }
        }
    }
}

/// Of the pieces at the first separators there are no more than asked for; all but the
/// last hold no separator, nor does the last where there are fewer; and joined again
/// they are what was split.
pub proof fn lemma_split_at_most(s: Seq<char>, n: nat, c: char)
    requires
        n > 0,
    ensures
        1 <= split_at_most(s, n, c).len() <= n,
        forall|i: int|
            0 <= i < split_at_most(s, n, c).len() - 1 ==> !(#[trigger] split_at_most(
                s,
                n,
                c,
            )[i]).contains(c),
        split_at_most(s, n, c).len() < n ==> !split_at_most(s, n, c).last().contains(c),
        join(split_at_most(s, n, c), seq![c]) == s,
    decreases n,
{
    if n > 1 && s.contains(c) {
        lemma_position(s, c);
        let p = position(s, c);
        let first = s.take(p);
        let rest = s.skip(p + 1);
        lemma_split_at_most(rest, (n - 1) as nat, c);
        let more = split_at_most(rest, (n - 1) as nat, c);
        let all = split_at_most(s, n, c);
        assert forall|i: int| 0 <= i < first.len() implies first[i] != c by {
            assert(first[i] == s[i]);
        }
        lemma_join_front(first, more, seq![c]);
        assert(s =~= first + seq![c] + rest);
        assert(all.last() == more.last());
        assert forall|i: int| 0 <= i < all.len() - 1 implies !(#[trigger] all[i]).contains(c) by {
            if i > 0 {
                assert(all[i] == more[i - 1]);
            }
        }
    }
}

/// Text without a separator before it is the first piece, and the rest is split on.
pub proof fn lemma_first_piece(first: Seq<char>, rest: Seq<char>, n: nat, c: char)
    requires
        !first.contains(c),
        n > 0,
    ensures
        split_at_most(first, n, c) == seq![first],
        n > 1 ==> split_at_most(first + seq![c] + rest, n, c) == seq![first] + split_at_most(
            rest,
            (n - 1) as nat,
            c,
        ),
        n == 1 ==> split_at_most(first + seq![c] + rest, n, c) == seq![first + seq![c] + rest],
        split_all(first, c) == seq![first],
        split_all(first + seq![c] + rest, c) == seq![first] + split_all(rest, c),
{
    let s = first + seq![c] + rest;
    let k = first.len() as int;
    assert(s[k] == c);
    assert(s.contains(c));
    assert forall|j: int| 0 <= j < k implies s[j] != c by {
        assert(s[j] == first[j]);
        assert(first.contains(first[j]));
    }
    lemma_position_is(s, c, k);
    assert(s.take(k) =~= first);
    assert(s.skip(k + 1) =~= rest);
}

proof fn lemma_trim_front(s: Seq<char>)
    ensures
        trim_front(s).len() <= s.len(),
        s == s.take(s.len() - trim_front(s).len()) + trim_front(s),
        forall|i: int| 0 <= i < s.len() - trim_front(s).len() ==> is_white_space(#[trigger] s[i]),
        trim_front(s).len() > 0 ==> !is_white_space(trim_front(s)[0]),
    decreases s.len(),
{
    if s.len() > 0 && is_white_space(s[0]) {
        let rest = s.drop_first();
        lemma_trim_front(rest);
        let t = trim_front(s);
        assert forall|i: int| 0 <= i < s.len() - t.len() implies is_white_space(#[trigger] s[i]) by {
            if i > 0 {
                assert(rest[i - 1] == s[i]);
            }
        }
        assert(s =~= seq![s[0]] + rest);
        assert(s =~= s.take(s.len() - t.len()) + t);
    } else {
        assert(s =~= s.take(0) + s);
    }
}

proof fn lemma_trim_back(s: Seq<char>)
    ensures
        trim_back(s).len() <= s.len(),
        s == trim_back(s) + s.skip(trim_back(s).len() as int),
        forall|i: int| trim_back(s).len() <= i < s.len() ==> is_white_space(#[trigger] s[i]),
        trim_back(s).len() > 0 ==> !is_white_space(trim_back(s).last()),
    decreases s.len(),
{
    if s.len() > 0 && is_white_space(s.last()) {
        let rest = s.drop_last();
        lemma_trim_back(rest);
        let t = trim_back(s);
        assert forall|i: int| t.len() <= i < s.len() implies is_white_space(#[trigger] s[i]) by {
            if i < rest.len() {
                assert(rest[i] == s[i]);
            }
        }
        assert(s =~= rest.push(s.last()));
        assert(s =~= t + s.skip(t.len() as int));
    } else {
        assert(s =~= s + s.skip(s.len() as int));
    }
}

/// Cutting white space off both ends leaves a text that neither begins nor ends with any,
/// and cuts off nothing else.
pub proof fn lemma_trimmed(s: Seq<char>) -> (r: (Seq<char>, Seq<char>))
    ensures
        s == r.0 + trimmed(s) + r.1,
        forall|i: int| 0 <= i < r.0.len() ==> is_white_space(#[trigger] r.0[i]),
        forall|i: int| 0 <= i < r.1.len() ==> is_white_space(#[trigger] r.1[i]),
        trimmed(s).len() > 0 ==> !is_white_space(trimmed(s)[0]) && !is_white_space(
            trimmed(s).last(),
        ),
{
    lemma_trim_front(s);
    let t = trim_front(s);
    lemma_trim_back(t);
    let u = trim_back(t);
    let a = s.take(s.len() - t.len());
    let b = t.skip(u.len() as int);
    assert(s =~= a + u + b);
    if u.len() > 0 {
        assert(u[0] == t[0]);
    }
    assert forall|i: int| 0 <= i < b.len() implies is_white_space(#[trigger] b[i]) by {
        assert(b[i] == t[u.len() + i]);
    }
    (a, b)
}

proof fn lemma_word_end(w: Seq<char>, rest: Seq<char>)
    requires
        forall|i: int| 0 <= i < w.len() ==> !is_white_space(#[trigger] w[i]),
        rest.len() > 0 ==> is_white_space(rest[0]),
    ensures
        word_length(w + rest) == w.len(),
    decreases w.len(),
{
    let s = w + rest;
    if w.len() > 0 {
        assert(s[0] == w[0]);
        assert(s.drop_first() =~= w.drop_first() + rest);
        let v = w.drop_first();
        assert forall|i: int| 0 <= i < v.len() implies !is_white_space(#[trigger] v[i]) by {
            assert(v[i] == w[i + 1]);
        }
        lemma_word_end(v, rest);
    } else {
        assert(s =~= rest);
    }
}

/// The words of a text: white space in front does not count, and a word ends at the next
/// white space, or at the end.
pub proof fn lemma_words(white: char, w: Seq<char>, rest: Seq<char>)
    requires
        is_white_space(white),
        w.len() > 0,
        forall|i: int| 0 <= i < w.len() ==> !is_white_space(#[trigger] w[i]),
    ensures
        words(Seq::empty()) == Seq::<Seq<char>>::empty(),
        words(seq![white] + rest) == words(rest),
        words(w) == seq![w],
        words(w + seq![white] + rest) == seq![w] + words(rest),
{
    assert((seq![white] + rest).drop_first() =~= rest);
    lemma_word_end(w, Seq::empty());
    assert(w + Seq::<char>::empty() =~= w);
    assert(w.take(w.len() as int) =~= w);
    assert(w.skip(w.len() as int) =~= Seq::empty());
    assert(!is_white_space(w[0]));
    assert(words(Seq::<char>::empty()) =~= Seq::empty());
    assert(words(w) == seq![w] + words(Seq::<char>::empty()));
    assert(words(w) =~= seq![w]);
    let tail = seq![white] + rest;
    let s = w + seq![white] + rest;
    assert(s =~= w + tail);
    lemma_word_end(w, tail);
    assert(s[0] == w[0]);
    assert(s.take(w.len() as int) =~= w);
    assert(s.skip(w.len() as int) =~= tail);
    assert(words(tail) == words(rest));
    assert(words(s) == seq![w] + words(tail));
}

/// A padded text begins with the text, and spaces fill it up to the width.
pub proof fn lemma_padded(s: Seq<char>, width: int)
    ensures
        s.is_prefix_of(padded(s, width)),
        padded(s, width).len() == if s.len() < width {
            width
        } else {
            s.len() as int
        },
        forall|i: int| s.len() <= i < padded(s, width).len() ==> #[trigger] padded(s, width)[i] == ' ',
{
    assert(padded(s, width).take(s.len() as int) =~= s);
}

/// Capital letters of ASCII become the small ones, and nothing else changes.
pub proof fn lemma_ascii_small()
    ensures
        forall|c: char|
            'A' <= c <= 'Z' ==> 'a' <= #[trigger] ascii_small(c) <= 'z' && ascii_small(c) as int
                - 'a' as int == c as int - 'A' as int,
        forall|c: char| !('A' <= c <= 'Z') ==> #[trigger] ascii_small(c) == c,
{
}

/// Of the ASCII characters, white space is the space, the tab and the four that end or feed
/// a line or a page; none that is printed is.
pub proof fn lemma_white_space(c: char)
    ensures
        c <= '\u{7f}' ==> (is_white_space(c) <==> c == ' ' || c == '\t' || c == '\n' || c
            == '\u{b}' || c == '\u{c}' || c == '\r'),
        '!' <= c <= '~' ==> !is_white_space(c),
{
}

/// A text that begins and ends with something else than white space is left as it is, and
/// white space in front of it or behind it is cut off.
pub proof fn lemma_trimmed_of_bare(s: Seq<char>, white: char)
    requires
        s.len() > 0,
        !is_white_space(s[0]),
        !is_white_space(s.last()),
        is_white_space(white),
    ensures
        trimmed(s) == s,
        trimmed(seq![white] + s) == s,
        trimmed(s.push(white)) == s,
{
    assert(trim_front(s) == s);
    assert(trim_back(s) == s);
    assert((seq![white] + s).drop_first() =~= s);
    assert(trim_front(seq![white] + s) == trim_front(s));
    assert(s.push(white)[0] == s[0]);
    assert(s.push(white).drop_last() =~= s);
    assert(trim_back(s.push(white)) == trim_back(s));
}

/// A text stands in itself with anything around it.
pub proof fn lemma_occurs(before: Seq<char>, needle: Seq<char>, after: Seq<char>)
    ensures
        occurs(before + needle + after, needle),
{
    let s = before + needle + after;
    let i = before.len() as int;
    assert(s.subrange(i, i + needle.len()) =~= needle);
}

/// A text that does not stand at any place does not stand in another.
pub proof fn lemma_occurs_nowhere(s: Seq<char>, needle: Seq<char>)
    requires
        forall|before: Seq<char>, after: Seq<char>| s != #[trigger] (before + needle + after),
    ensures
        !occurs(s, needle),
{
    if occurs(s, needle) {
        let i = choose|i: int|
            0 <= i <= s.len() - needle.len() && #[trigger] s.subrange(i, i + needle.len())
                == needle;
        let before = s.take(i);
        let after = s.skip(i + needle.len());
        assert(s =~= before + needle + after);
    }
}

/// A text that is there is taken as it is, and another one in place of one that is not; a
/// list of strings says what each of them says.
pub proof fn lemma_texts_that_are_there(s: String, other: Seq<char>, list: Seq<String>, i: int)
    requires
        0 <= i < list.len(),
    ensures
        text_or(Some(s), other) == s@,
        text_or(None, other) == other,
        opt_text(Some(s)) == Some(s@),
        opt_text(None) is None,
        texts(list).len() == list.len(),
        texts(list)[i] == list[i]@,
{
}

} // verus!
