//! Characters, strings and byte offsets.
//!
//! A text is a sequence of characters. Offsets into it are byte offsets of its UTF-8 form, as
//! everywhere in the editor; a character takes one to four bytes.

use vstd::prelude::*;

verus! {

/// `String::push` appends one character.
pub assume_specification[ std::string::String::push ](s: &mut std::string::String, c: char)
    ensures
        final(s)@ == old(s)@.push(c),
;

/// `String::pop` takes the last character off, if there is one.
pub assume_specification[ std::string::String::pop ](s: &mut std::string::String) -> (r: Option<char>)
    ensures
        old(s)@.len() == 0 ==> r is None && final(s)@ == old(s)@,
        old(s)@.len() > 0 ==> r == Some(old(s)@.last()) && final(s)@ == old(s)@.drop_last(),
;

/// The contents of a list of strings.
pub open spec fn strings(v: Seq<String>) -> Seq<Seq<char>> {
    v.map_values(|s: String| s@)
}

/// The contents of a list of texts.
pub open spec fn texts(v: Seq<Vec<char>>) -> Seq<Seq<char>> {
    v.map_values(|t: Vec<char>| t@)
}

/// Whether `c` has Unicode's `White_Space` property.
pub open spec fn is_white(c: char) -> bool {
    ||| '\u{9}' <= c <= '\u{d}'
    ||| c == ' ' || c == '\u{85}' || c == '\u{a0}' || c == '\u{1680}'
    ||| '\u{2000}' <= c <= '\u{200a}'
    ||| c == '\u{2028}' || c == '\u{2029}' || c == '\u{202f}' || c == '\u{205f}'
    ||| c == '\u{3000}'
}

/// Whether `c` has Unicode's `White_Space` property.
pub fn white(c: char) -> (r: bool)
    ensures
        r == is_white(c),
{
    ('\u{9}' <= c && c <= '\u{d}') || c == ' ' || c == '\u{85}' || c == '\u{a0}' || c
        == '\u{1680}' || ('\u{2000}' <= c && c <= '\u{200a}') || c == '\u{2028}' || c == '\u{2029}'
        || c == '\u{202f}' || c == '\u{205f}' || c == '\u{3000}'
}

/// The characters of `s`.
pub fn chars_of(s: &str) -> (r: Vec<char>)
    ensures
        r@ == s@,
{
    let mut r: Vec<char> = Vec::new();
    for c in it: s.chars()
        invariant
            r@ == it.seq().take(it.index() as int),
            it.seq() == s@,
    {
        r.push(c);
        assert(r@ =~= it.seq().take(it.index() as int + 1));
    }
    assert(s@.take(s@.len() as int) =~= s@);
    r
}

/// The string of `chars`.
pub fn string_of(chars: &[char]) -> (r: String)
    ensures
        r@ == chars@,
{
    let mut r = String::new();
    let mut i: usize = 0;
    while i < chars.len()
        invariant
            i <= chars@.len(),
            r@ == chars@.take(i as int),
        decreases chars@.len() - i,
    {
        r.push(chars[i]);
        assert(r@ =~= chars@.take(i + 1));
        i += 1;
    }
    assert(chars@.take(i as int) =~= chars@);
    r
}

/// Whether two strings hold the same characters.
pub fn same_text(a: &str, b: &str) -> (r: bool)
    ensures
        r == (a@ == b@),
{
    a.to_owned() == b.to_owned()
}

/// `c` with an upper-case ASCII letter made lower-case.
pub open spec fn ascii_lower(c: char) -> char {
    if 'A' <= c <= 'Z' {
        ((c as u32) + 32) as char
    } else {
        c
    }
}

/// `s` with its upper-case ASCII letters made lower-case.
pub open spec fn ascii_lower_all(s: Seq<char>) -> Seq<char> {
    s.map_values(|c: char| ascii_lower(c))
}

/// `c` with an upper-case ASCII letter made lower-case.
pub fn to_ascii_lower(c: char) -> (r: char)
    ensures
        r == ascii_lower(c),
{
    if 'A' <= c && c <= 'Z' {
        ((c as u8) + 32) as char
    } else {
        c
    }
}

/// How many of the first characters of `s` are white space.
pub open spec fn leading_white(s: Seq<char>) -> nat
    decreases s.len(),
{
    if s.len() > 0 && is_white(s[0]) {
        1 + leading_white(s.drop_first())
    } else {
        0
    }
}

/// How many of the last characters of `s` are white space.
pub open spec fn trailing_white(s: Seq<char>) -> nat
    decreases s.len(),
{
    if s.len() > 0 && is_white(s.last()) {
        1 + trailing_white(s.drop_last())
    } else {
        0
    }
}

/// `s` without the white space at its start.
pub open spec fn trim_start(s: Seq<char>) -> Seq<char> {
    s.skip(leading_white(s) as int)
}

/// `s` without the white space at its end.
pub open spec fn trim_end(s: Seq<char>) -> Seq<char> {
    s.take(s.len() - trailing_white(s))
}

/// `s` without the white space around it.
pub open spec fn trim(s: Seq<char>) -> Seq<char> {
    trim_end(trim_start(s))
}

/// A text that neither starts nor ends with white space is its own trimmed form.
pub proof fn lemma_trim_id(s: Seq<char>)
    requires
        s.len() > 0 ==> !is_white(s[0]) && !is_white(s.last()),
    ensures
        trim(s) == s,
{
    assert(s.skip(0) =~= s);
    assert(s.take(s.len() as int) =~= s);
}

proof fn lemma_leading_white(s: Seq<char>, n: nat)
    requires
        n <= s.len(),
        forall|i: int| 0 <= i < n ==> is_white(#[trigger] s[i]),
        n < s.len() ==> !is_white(s[n as int]),
    ensures
        leading_white(s) == n,
    decreases n,
{
    if n > 0 {
        assert(is_white(s[0]));
        lemma_leading_white(s.drop_first(), (n - 1) as nat);
    }
}

proof fn lemma_trailing_white(s: Seq<char>, n: nat)
    requires
        n <= s.len(),
        forall|i: int| s.len() - n <= i < s.len() ==> is_white(#[trigger] s[i]),
        n < s.len() ==> !is_white(s[s.len() - n - 1]),
    ensures
        trailing_white(s) == n,
    decreases n,
{
    if n > 0 {
        assert(is_white(s[s.len() - 1]));
        lemma_trailing_white(s.drop_last(), (n - 1) as nat);
    }
}

/// White space at the start is part of the text.
pub proof fn lemma_leading_bound(s: Seq<char>)
    ensures
        leading_white(s) <= s.len(),
    decreases s.len(),
{
    if s.len() > 0 && is_white(s[0]) {
        lemma_leading_bound(s.drop_first());
    }
}

/// The bounds of `s` without the white space around it.
pub fn trim_bounds(s: &[char]) -> (r: (usize, usize))
    ensures
        r.0 <= r.1 <= s@.len(),
        trim(s@) == s@.subrange(r.0 as int, r.1 as int),
        trim_start(s@) == s@.skip(r.0 as int),
        leading_white(s@) == r.0,
{
    let mut start: usize = 0;
    while start < s.len() && white(s[start])
        invariant
            start <= s@.len(),
            forall|i: int| 0 <= i < start ==> is_white(#[trigger] s@[i]),
        decreases s@.len() - start,
    {
        start += 1;
    }
    proof {
        lemma_leading_white(s@, start as nat);
    }
    let ghost rest = s@.skip(start as int);
    let mut end: usize = s.len();
    while end > start && white(s[end - 1])
        invariant
            start <= end <= s@.len(),
            rest == s@.skip(start as int),
            forall|i: int| end <= i < s@.len() ==> is_white(#[trigger] s@[i]),
        decreases end,
    {
        end -= 1;
    }
    proof {
        assert forall|i: int| end - start <= i < rest.len() implies is_white(
            #[trigger] rest[i],
        ) by {
            assert(is_white(s@[i + start]));
        }
        lemma_trailing_white(rest, (s@.len() - end) as nat);
        assert(trim(s@) =~= s@.subrange(start as int, end as int));
    }
    (start, end)
}

/// A copy of the characters from `from` up to `to`.
pub fn slice_of(s: &[char], from: usize, to: usize) -> (r: Vec<char>)
    requires
        from <= to <= s@.len(),
    ensures
        r@ == s@.subrange(from as int, to as int),
{
    let mut r: Vec<char> = Vec::new();
    let mut i: usize = from;
    while i < to
        invariant
            from <= i <= to <= s@.len(),
            r@ == s@.subrange(from as int, i as int),
        decreases to - i,
    {
        r.push(s[i]);
        assert(r@ =~= s@.subrange(from as int, i + 1));
        i += 1;
    }
    r
}

/// `s` without the white space around it.
pub fn trimmed(s: &[char]) -> (r: Vec<char>)
    ensures
        r@ == trim(s@),
{
    let (from, to) = trim_bounds(s);
    slice_of(s, from, to)
}

/// `s` with its upper-case ASCII letters made lower-case.
pub fn to_ascii_lower_all(s: &[char]) -> (r: Vec<char>)
    ensures
        r@ == ascii_lower_all(s@),
{
    let mut r: Vec<char> = Vec::new();
    let mut i: usize = 0;
    while i < s.len()
        invariant
            i <= s@.len(),
            r@ == ascii_lower_all(s@.take(i as int)),
        decreases s@.len() - i,
    {
        r.push(to_ascii_lower(s[i]));
        assert(r@ =~= ascii_lower_all(s@.take(i + 1)));
        i += 1;
    }
    assert(s@.take(i as int) =~= s@);
    r
}

/// How many bytes the UTF-8 form of `c` takes.
pub open spec fn utf8_len(c: char) -> nat {
    if c <= '\u{7f}' {
        1
    } else if c <= '\u{7ff}' {
        2
    } else if c <= '\u{ffff}' {
        3
    } else {
        4
    }
}

/// How many bytes the UTF-8 form of `c` takes.
pub fn char_bytes(c: char) -> (r: usize)
    ensures
        r == utf8_len(c),
        1 <= r <= 4,
{
    if c <= '\u{7f}' {
        1
    } else if c <= '\u{7ff}' {
        2
    } else if c <= '\u{ffff}' {
        3
    } else {
        4
    }
}

/// How many bytes the UTF-8 form of `t` takes.
pub open spec fn byte_len(t: Seq<char>) -> nat
    decreases t.len(),
{
    if t.len() == 0 {
        0
    } else {
        byte_len(t.drop_last()) + utf8_len(t.last())
    }
}

/// The byte offset at which the character with index `i` starts.
pub open spec fn offset(t: Seq<char>, i: int) -> nat {
    byte_len(t.take(i))
}

/// How many characters of `t` end at or before the byte offset `b`.
pub open spec fn index_at(t: Seq<char>, b: nat) -> int
    decreases t.len(),
{
    if t.len() == 0 || byte_len(t) <= b {
        t.len() as int
    } else {
        index_at(t.drop_last(), b)
    }
}

/// Whether a character starts, or the text ends, at the byte offset `b`.
pub open spec fn is_boundary(t: Seq<char>, b: nat) -> bool {
    offset(t, index_at(t, b)) == b
}

/// The largest boundary at or before the byte offset `b`.
pub open spec fn snap(t: Seq<char>, b: nat) -> nat {
    offset(t, index_at(t, b))
}

/// The byte length of a concatenation is the sum of the byte lengths.
pub proof fn lemma_byte_len_concat(a: Seq<char>, b: Seq<char>)
    ensures
        byte_len(a + b) == byte_len(a) + byte_len(b),
    decreases b.len(),
{
    if b.len() == 0 {
        assert(a + b =~= a);
    } else {
        assert((a + b).drop_last() =~= a + b.drop_last());
        lemma_byte_len_concat(a, b.drop_last());
    }
}

/// The next character starts where this one ends.
pub proof fn lemma_offset_step(t: Seq<char>, i: int)
    requires
        0 <= i < t.len(),
    ensures
        offset(t, i + 1) == offset(t, i) + utf8_len(t[i]),
{
    assert(t.take(i + 1).drop_last() =~= t.take(i));
}

/// Offsets grow with the index.
pub proof fn lemma_offset_mono(t: Seq<char>, i: int, j: int)
    requires
        0 <= i <= j <= t.len(),
    ensures
        offset(t, i) <= offset(t, j),
        i < j ==> offset(t, i) < offset(t, j),
        offset(t, j) <= byte_len(t),
        offset(t, t.len() as int) == byte_len(t),
        offset(t, 0) == 0,
    decreases t.len() - i,
{
    assert(t.take(t.len() as int) =~= t);
    assert(t.take(0) =~= Seq::<char>::empty());
    if i < t.len() {
        lemma_offset_step(t, i);
        if i < j {
            lemma_offset_mono(t, i + 1, j);
        } else {
            lemma_offset_mono(t, i + 1, t.len() as int);
        }
    }
}

/// A text has at least as many bytes as characters and as many characters as line breaks.
pub proof fn lemma_bytes_bound(t: Seq<char>)
    ensures
        newlines(t) <= t.len() <= byte_len(t),
    decreases t.len(),
{
    if t.len() > 0 {
        lemma_bytes_bound(t.drop_last());
    }
}

/// The index of a byte offset is settled by the boundaries around it.
pub proof fn lemma_index_at(t: Seq<char>, b: nat, i: int)
    requires
        0 <= i <= t.len(),
        offset(t, i) <= b,
        i < t.len() ==> b < offset(t, i + 1),
    ensures
        index_at(t, b) == i,
    decreases t.len(),
{
    assert(t.take(t.len() as int) =~= t);
    if t.len() > 0 {
        if i == t.len() {
        } else {
            lemma_offset_mono(t, i + 1, t.len() as int);
            let u = t.drop_last();
            assert(u.take(i) =~= t.take(i));
            if i < u.len() {
                assert(u.take(i + 1) =~= t.take(i + 1));
            }
            lemma_index_at(u, b, i);
        }
    }
}

/// The index of the offset of a character is the index of the character, and the index of any
/// offset is that of a boundary at or before it.
pub proof fn lemma_index_of_offset(t: Seq<char>, i: int)
    requires
        0 <= i <= t.len(),
    ensures
        index_at(t, offset(t, i)) == i,
        is_boundary(t, offset(t, i)),
{
    if i < t.len() {
        lemma_offset_step(t, i);
    }
    lemma_index_at(t, offset(t, i), i);
}

/// A later byte offset lies in no earlier character.
pub proof fn lemma_index_mono(t: Seq<char>, a: nat, b: nat)
    requires
        a <= b,
    ensures
        index_at(t, a) <= index_at(t, b),
    decreases t.len(),
{
    if t.len() > 0 && byte_len(t) > a {
        lemma_index_mono(t.drop_last(), a, b);
        lemma_index_bounds(t.drop_last(), a);
    }
}

/// Bounds on the index of a byte offset.
pub proof fn lemma_index_bounds(t: Seq<char>, b: nat)
    ensures
        0 <= index_at(t, b) <= t.len(),
        offset(t, index_at(t, b)) <= b,
        snap(t, b) <= byte_len(t),
        is_boundary(t, snap(t, b)),
        index_at(t, b) < t.len() ==> b < offset(t, index_at(t, b) + 1),
    decreases t.len(),
{
    assert(t.take(t.len() as int) =~= t);
    if t.len() > 0 && byte_len(t) > b {
        let u = t.drop_last();
        lemma_index_bounds(u, b);
        let i = index_at(u, b);
        assert(u.take(i) =~= t.take(i));
        if i < u.len() {
            assert(u.take(i + 1) =~= t.take(i + 1));
        } else {
            assert(t.take(i + 1) =~= t);
        }
        lemma_offset_mono(t, i, t.len() as int);
        lemma_index_of_offset(t, i);
    } else {
        lemma_index_of_offset(t, t.len() as int);
    }
}

/// How many characters of `t` end at or before the byte offset `b`.
pub fn find_index(t: &[char], b: usize) -> (r: usize)
    ensures
        r == index_at(t@, b as nat),
        r <= t@.len(),
{
    let mut i: usize = 0;
    let mut at: usize = 0;
    proof {
        lemma_offset_mono(t@, 0, 0);
    }
    while i < t.len()
        invariant
            i <= t@.len(),
            at == offset(t@, i as int),
            at <= b,
        decreases t@.len() - i,
    {
        let n = char_bytes(t[i]);
        proof {
            lemma_offset_step(t@, i as int);
        }
        if n > b - at {
            proof {
                lemma_index_at(t@, b as nat, i as int);
            }
            return i;
        }
        at = at + n;
        i += 1;
    }
    proof {
        lemma_index_at(t@, b as nat, i as int);
    }
    i
}

/// The byte offset of the character with index `i`.
pub fn find_offset(t: &[char], i: usize) -> (r: usize)
    requires
        i <= t@.len(),
        byte_len(t@) <= usize::MAX,
    ensures
        r == offset(t@, i as int),
{
    let mut k: usize = 0;
    let mut at: usize = 0;
    proof {
        lemma_offset_mono(t@, 0, 0);
    }
    while k < i
        invariant
            k <= i <= t@.len(),
            at == offset(t@, k as int),
            byte_len(t@) <= usize::MAX,
        decreases i - k,
    {
        proof {
            lemma_offset_step(t@, k as int);
            lemma_offset_mono(t@, k + 1, t@.len() as int);
        }
        at = at + char_bytes(t[k]);
        k += 1;
    }
    at
}

/// The byte length of `t`, if it can be counted.
pub fn count_bytes(t: &[char]) -> (r: Option<usize>)
    ensures
        match r {
            Some(n) => n == byte_len(t@),
            None => byte_len(t@) > usize::MAX,
        },
{
    let mut k: usize = 0;
    let mut at: usize = 0;
    proof {
        lemma_offset_mono(t@, 0, 0);
    }
    while k < t.len()
        invariant
            k <= t@.len(),
            at == offset(t@, k as int),
        decreases t@.len() - k,
    {
        let n = char_bytes(t[k]);
        proof {
            lemma_offset_step(t@, k as int);
            lemma_offset_mono(t@, k + 1, t@.len() as int);
        }
        if n > usize::MAX - at {
            return None;
        }
        at = at + n;
        k += 1;
    }
    proof {
        lemma_offset_mono(t@, k as int, k as int);
    }
    Some(at)
}

/// How many line breaks `t` holds.
pub open spec fn newlines(t: Seq<char>) -> nat
    decreases t.len(),
{
    if t.len() == 0 {
        0
    } else {
        newlines(t.drop_last()) + if t.last() == '\n' {
            1nat
        } else {
            0
        }
    }
}

/// The row of the character with index `i`: the line breaks before it.
pub open spec fn row_at(t: Seq<char>, i: int) -> nat {
    newlines(t.take(i))
}

/// The index of the first character of the line that holds the index `i`.
pub open spec fn line_start(t: Seq<char>, i: int) -> int
    decreases i,
{
    if i <= 0 || t[i - 1] == '\n' {
        i
    } else {
        line_start(t, i - 1)
    }
}

/// The index of the line break, or of the end of the text, that ends the line of index `i`.
pub open spec fn line_end(t: Seq<char>, i: int) -> int
    decreases t.len() - i,
{
    if i >= t.len() || t[i] == '\n' {
        i
    } else {
        line_end(t, i + 1)
    }
}

/// The index at which the line numbered `row` starts, for rows that the text has.
pub open spec fn row_start(t: Seq<char>, row: nat) -> int
    decreases t.len(),
{
    if row == 0 || t.len() == 0 {
        0
    } else if t.last() == '\n' && newlines(t) == row {
        t.len() as int
    } else {
        row_start(t.drop_last(), row)
    }
}

/// The line numbered `row`, without its line break.
pub open spec fn line_of(t: Seq<char>, row: nat) -> Seq<char> {
    t.subrange(row_start(t, row), line_end(t, row_start(t, row)))
}

/// One more character means one more line break, or none.
pub proof fn lemma_row_step(t: Seq<char>, i: int)
    requires
        0 <= i < t.len(),
    ensures
        row_at(t, i + 1) == row_at(t, i) + if t[i] == '\n' {
            1nat
        } else {
            0
        },
{
    assert(t.take(i + 1).drop_last() =~= t.take(i));
}

/// Rows grow with the index.
pub proof fn lemma_row_mono(t: Seq<char>, i: int, j: int)
    requires
        0 <= i <= j <= t.len(),
    ensures
        row_at(t, i) <= row_at(t, j) <= newlines(t),
        row_at(t, j) <= j,
        row_at(t, 0) == 0,
        row_at(t, t.len() as int) == newlines(t),
    decreases j,
{
    assert(t.take(t.len() as int) =~= t);
    if i < j {
        lemma_row_step(t, j - 1);
        lemma_row_mono(t, i, j - 1);
    } else if j > 0 {
        lemma_row_step(t, j - 1);
        lemma_row_mono(t, j - 1, j - 1);
    }
    lemma_row_le(t, j);
}

proof fn lemma_row_le(t: Seq<char>, j: int)
    requires
        0 <= j <= t.len(),
    ensures
        row_at(t, j) <= newlines(t),
    decreases t.len() - j,
{
    assert(t.take(t.len() as int) =~= t);
    if j < t.len() {
        lemma_row_step(t, j);
        lemma_row_le(t, j + 1);
    }
}

/// Where a line starts is settled by its row and by the line break before it.
pub proof fn lemma_row_start(t: Seq<char>, row: nat, i: int)
    requires
        0 <= i <= t.len(),
        row_at(t, i) == row,
        i > 0 ==> t[i - 1] == '\n',
    ensures
        row_start(t, row) == i,
    decreases t.len(),
{
    assert(t.take(t.len() as int) =~= t);
    if row == 0 {
        if i > 0 {
            lemma_row_step(t, i - 1);
        }
    } else {
        assert(i > 0);
        if i < t.len() {
            let u = t.drop_last();
            if t.last() == '\n' && newlines(t) == row {
                lemma_row_mono(t, i, t.len() - 1);
                lemma_row_step(t, t.len() - 1);
            }
            assert(u.take(i) =~= t.take(i));
            lemma_row_start(u, row, i);
        }
    }
}

/// The start of a line is where its row starts, and lies in that row.
pub proof fn lemma_line_start(t: Seq<char>, i: int)
    requires
        0 <= i <= t.len(),
    ensures
        0 <= line_start(t, i) <= i,
        row_at(t, line_start(t, i)) == row_at(t, i),
        line_start(t, i) == row_start(t, row_at(t, i)),
        forall|k: int| line_start(t, i) <= k < i ==> t[k] != '\n',
    decreases i,
{
    if i > 0 && t[i - 1] != '\n' {
        lemma_line_start(t, i - 1);
        lemma_row_step(t, i - 1);
    } else {
        lemma_row_start(t, row_at(t, i), i);
    }
}

/// The end of a line lies in its row.
pub proof fn lemma_line_end(t: Seq<char>, i: int)
    requires
        0 <= i <= t.len(),
    ensures
        i <= line_end(t, i) <= t.len(),
        row_at(t, line_end(t, i)) == row_at(t, i),
        line_end(t, i) < t.len() ==> t[line_end(t, i)] == '\n',
        forall|k: int| i <= k < line_end(t, i) ==> t[k] != '\n',
    decreases t.len() - i,
{
    if i < t.len() && t[i] != '\n' {
        lemma_line_end(t, i + 1);
        lemma_row_step(t, i);
    }
}

/// Every row of a text starts somewhere in it.
pub proof fn lemma_row_start_bounds(t: Seq<char>, row: nat)
    requires
        row <= newlines(t),
    ensures
        0 <= row_start(t, row) <= t.len(),
        row_at(t, row_start(t, row)) == row,
        row_start(t, row) > 0 ==> t[row_start(t, row) - 1] == '\n',
    decreases t.len(),
{
    assert(t.take(t.len() as int) =~= t);
    assert(t.take(0) =~= Seq::<char>::empty());
    if row > 0 && t.len() > 0 && !(t.last() == '\n' && newlines(t) == row) {
        let u = t.drop_last();
        lemma_row_start_bounds(u, row);
        let i = row_start(u, row);
        assert(u.take(i) =~= t.take(i));
    }
}

/// The row of the character with index `i`.
pub fn find_row(t: &[char], i: usize) -> (r: usize)
    requires
        i <= t@.len(),
    ensures
        r == row_at(t@, i as int),
        r <= i,
{
    let mut k: usize = 0;
    let mut row: usize = 0;
    proof {
        lemma_row_mono(t@, 0, 0);
    }
    while k < i
        invariant
            k <= i <= t@.len(),
            row == row_at(t@, k as int),
            row <= k,
        decreases i - k,
    {
        proof {
            lemma_row_step(t@, k as int);
        }
        if t[k] == '\n' {
            row += 1;
        }
        k += 1;
    }
    row
}

/// The index of the first character of the line of index `i`.
pub fn find_line_start(t: &[char], i: usize) -> (r: usize)
    requires
        i <= t@.len(),
    ensures
        r == line_start(t@, i as int),
        r <= i,
{
    let mut k: usize = i;
    while k > 0 && t[k - 1] != '\n'
        invariant
            k <= i <= t@.len(),
            line_start(t@, k as int) == line_start(t@, i as int),
        decreases k,
    {
        k -= 1;
    }
    k
}

/// The index of the end of the line of index `i`.
pub fn find_line_end(t: &[char], i: usize) -> (r: usize)
    requires
        i <= t@.len(),
    ensures
        r == line_end(t@, i as int),
        i <= r <= t@.len(),
{
    let mut k: usize = i;
    while k < t.len() && t[k] != '\n'
        invariant
            i <= k <= t@.len(),
            line_end(t@, k as int) == line_end(t@, i as int),
        decreases t@.len() - k,
    {
        k += 1;
    }
    k
}

/// The index at which the line numbered `row` starts.
pub fn find_row_start(t: &[char], row: usize) -> (r: usize)
    requires
        row <= newlines(t@),
    ensures
        r == row_start(t@, row as nat),
        r <= t@.len(),
{
    let mut k: usize = 0;
    let mut left: usize = row;
    proof {
        lemma_row_mono(t@, 0, 0);
        assert(t@.take(t@.len() as int) =~= t@);
    }
    while left > 0 && k < t.len()
        invariant
            k <= t@.len(),
            left <= row,
            row_at(t@, k as int) == row - left,
            k > 0 && left == 0 ==> t@[k - 1] == '\n',
        decreases t@.len() - k,
    {
        proof {
            lemma_row_step(t@, k as int);
        }
        if t[k] == '\n' {
            left -= 1;
        }
        k += 1;
    }
    proof {
        if left > 0 {
            assert(t@.take(k as int) =~= t@);
        }
        lemma_row_start(t@, row as nat, k as int);
    }
    k
}

/// How many line breaks `t` holds.
pub fn count_newlines(t: &[char]) -> (r: usize)
    ensures
        r == newlines(t@),
        r <= t@.len(),
{
    let r = find_row(t, t.len());
    assert(t@.take(t@.len() as int) =~= t@);
    r
}

/// `t` with the characters from index `i` up to `j` replaced by `ins`.
pub open spec fn splice(t: Seq<char>, i: int, j: int, ins: Seq<char>) -> Seq<char> {
    t.take(i) + ins + t.skip(j)
}

/// The byte length after a replacement.
pub proof fn lemma_splice_bytes(t: Seq<char>, i: int, j: int, ins: Seq<char>)
    requires
        0 <= i <= j <= t.len(),
    ensures
        byte_len(splice(t, i, j, ins)) == byte_len(t) - (offset(t, j) - offset(t, i)) + byte_len(
            ins,
        ),
        offset(splice(t, i, j, ins), i + ins.len()) == offset(t, i) + byte_len(ins),
{
    lemma_byte_len_concat(t.take(i), ins);
    lemma_byte_len_concat(t.take(i) + ins, t.skip(j));
    lemma_byte_len_concat(t.take(j), t.skip(j));
    assert(t.take(j) + t.skip(j) =~= t);
    assert(splice(t, i, j, ins).take(i + ins.len()) =~= t.take(i) + ins);
}

/// `t` with the characters from index `i` up to `j` replaced by `ins`.
pub fn spliced(t: &[char], i: usize, j: usize, ins: &[char]) -> (r: Vec<char>)
    requires
        i <= j <= t@.len(),
    ensures
        r@ == splice(t@, i as int, j as int, ins@),
{
    let mut r = slice_of(t, 0, i);
    let mut middle = slice_of(ins, 0, ins.len());
    let mut tail = slice_of(t, j, t.len());
    r.append(&mut middle);
    r.append(&mut tail);
    assert(r@ =~= splice(t@, i as int, j as int, ins@));
    r
}

/// The decimal digit for a number below ten.
pub open spec fn digit(n: nat) -> char {
    if n == 0 {
        '0'
    } else if n == 1 {
        '1'
    } else if n == 2 {
        '2'
    } else if n == 3 {
        '3'
    } else if n == 4 {
        '4'
    } else if n == 5 {
        '5'
    } else if n == 6 {
        '6'
    } else if n == 7 {
        '7'
    } else if n == 8 {
        '8'
    } else {
        '9'
    }
}

/// `n` in decimal.
pub open spec fn decimal(n: nat) -> Seq<char>
    decreases n,
{
    if n < 10 {
        seq![digit(n)]
    } else {
        decimal(n / 10).push(digit(n % 10))
    }
}

fn digit_of(n: u8) -> (r: char)
    requires
        n < 10,
    ensures
        r == digit(n as nat),
{
    match n {
        0 => '0',
        1 => '1',
        2 => '2',
        3 => '3',
        4 => '4',
        5 => '5',
        6 => '6',
        7 => '7',
        8 => '8',
        _ => '9',
    }
}

/// `n` in decimal.
pub fn decimal_of(n: u128) -> (r: String)
    ensures
        r@ == decimal(n as nat),
    decreases n,
{
    if n < 10 {
        let mut r = String::new();
        r.push(digit_of(n as u8));
        assert(r@ =~= seq![digit(n as nat)]);
        r
    } else {
        let mut r = decimal_of(n / 10);
        r.push(digit_of((n % 10) as u8));
        r
    }
}

/// The byte length of `t`, or the largest number that can be counted.
pub fn counted_bytes(t: &str) -> (r: usize)
    ensures
        r == if byte_len(t@) <= usize::MAX {
            byte_len(t@)
        } else {
            usize::MAX as nat
        },
{
    let chars = chars_of(t);
    match count_bytes(chars.as_slice()) {
        Some(n) => n,
        None => usize::MAX,
    }
}

/// `c` repeated `n` times.
pub open spec fn repeat(c: char, n: nat) -> Seq<char> {
    Seq::new(n, |i: int| c)
}

/// `c` repeated `n` times.
pub fn repeated(c: char, n: usize) -> (r: String)
    ensures
        r@ == repeat(c, n as nat),
{
    let mut r = String::new();
    let mut i: usize = 0;
    assert(r@ =~= repeat(c, 0));
    while i < n
        invariant
            i <= n,
            r@ == repeat(c, i as nat),
        decreases n - i,
    {
        r.push(c);
        assert(r@ =~= repeat(c, i as nat + 1));
        i += 1;
    }
    r
}

/// A line without the carriage return that belonged to its line ending.
pub open spec fn without_return(t: Seq<char>) -> Seq<char> {
    if t.len() > 0 && t.last() == '\r' {
        t.drop_last()
    } else {
        t
    }
}

/// The lines of `t`, each ended by `\n` or `\r\n`; the last line ending is optional.
pub open spec fn lines(t: Seq<char>) -> Seq<Seq<char>>
    decreases t.len(),
{
    if t.len() == 0 {
        Seq::empty()
    } else {
        let end = line_end(t, 0);
        if 0 <= end < t.len() {
            seq![without_return(t.take(end))] + lines(t.skip(end + 1))
        } else {
            seq![t]
        }
    }
}

/// The end of a line is found in the rest of the text just as in the text.
pub proof fn lemma_line_end_skip(t: Seq<char>, at: int, i: int)
    requires
        0 <= at <= i <= t.len(),
    ensures
        line_end(t.skip(at), i - at) == line_end(t, i) - at,
    decreases t.len() - i,
{
    if i < t.len() && t[i] != '\n' {
        lemma_line_end_skip(t, at, i + 1);
    }
}

/// The lines of `t`.
pub fn lines_of(t: &[char]) -> (r: Vec<Vec<char>>)
    ensures
        texts(r@) == lines(t@),
{
    let mut r: Vec<Vec<char>> = Vec::new();
    let mut at: usize = 0;
    assert(t@.skip(0) =~= t@);
    assert(texts(r@) =~= Seq::empty());
    assert(texts(r@) + lines(t@) =~= lines(t@));
    while at < t.len()
        invariant
            at <= t@.len(),
            texts(r@) + lines(t@.skip(at as int)) == lines(t@),
        decreases t@.len() - at,
    {
        let ghost rest = t@.skip(at as int);
        let ghost before = r@;
        let end = find_line_end(t, at);
        proof {
            lemma_line_end_skip(t@, at as int, at as int);
            lemma_line_end(t@, at as int);
        }
        if end < t.len() {
            let stop: usize = if end > at && t[end - 1] == '\r' {
                end - 1
            } else {
                end
            };
            let line = slice_of(t, at, stop);
            proof {
                let full = rest.take(end - at);
                assert(full =~= t@.subrange(at as int, end as int));
                if end > at {
                    assert(full.last() == t@[end - 1]);
                }
                assert(line@ =~= without_return(full));
                assert(rest.skip(end - at + 1) =~= t@.skip(end + 1));
            }
            r.push(line);
            assert(texts(r@) =~= texts(before).push(line@));
            assert(texts(r@) + lines(t@.skip(end + 1)) =~= texts(before) + (seq![line@] + lines(
                t@.skip(end + 1),
            )));
            at = end + 1;
        } else {
            let line = slice_of(t, at, t.len());
            assert(line@ =~= rest);
            r.push(line);
            assert(texts(r@) =~= texts(before).push(line@));
            at = t.len();
            assert(t@.skip(at as int).len() == 0);
            assert(texts(r@) + lines(t@.skip(at as int)) =~= texts(before) + seq![rest]);
        }
    }
    assert(t@.skip(at as int).len() == 0);
    assert(texts(r@) + lines(t@.skip(at as int)) =~= texts(r@));
    r
}

/// `t` with blanks behind it up to a width of `n` characters.
pub open spec fn padded(t: Seq<char>, n: nat) -> Seq<char> {
    if t.len() < n {
        t + repeat(' ', (n - t.len()) as nat)
    } else {
        t
    }
}

/// `t` with blanks behind it up to a width of `n` characters.
pub fn pad(t: &str, n: usize) -> (r: String)
    ensures
        r@ == padded(t@, n as nat),
{
    let len = t.unicode_len();
    let mut r = t.to_owned();
    if len < n {
        r.append(repeated(' ', n - len).as_str());
    }
    r
}

/// The index of the first `c` of `t` from `i` on, or the length.
pub open spec fn find_char(t: Seq<char>, c: char, i: int) -> int
    decreases t.len() - i,
{
    if i >= t.len() || t[i] == c {
        i
    } else {
        find_char(t, c, i + 1)
    }
}

/// The index of the first `c` of `t` from `i` on, or the length.
pub fn find_char_from(t: &[char], c: char, i: usize) -> (r: usize)
    requires
        i <= t@.len(),
    ensures
        r == find_char(t@, c, i as int),
        i <= r <= t@.len(),
        r < t@.len() ==> t@[r as int] == c,
        forall|k: int| i <= k < r ==> t@[k] != c,
{
    let mut k: usize = i;
    while k < t.len() && t[k] != c
        invariant
            i <= k <= t@.len(),
            find_char(t@, c, k as int) == find_char(t@, c, i as int),
            forall|j: int| i <= j < k ==> t@[j] != c,
        decreases t@.len() - k,
    {
        k += 1;
    }
    k
}

/// The parts of `t` from the index `i` on that the separators `c` leave; one more than there are
/// separators.
pub open spec fn split(t: Seq<char>, c: char, i: int) -> Seq<Seq<char>>
    decreases t.len() - i,
{
    let end = find_char(t, c, i);
    if i < 0 || end < i || end >= t.len() {
        seq![t.skip(i)]
    } else {
        seq![t.subrange(i, end)] + split(t, c, end + 1)
    }
}

/// The parts of `t` between the separators `c`.
pub fn split_at_char(t: &[char], c: char) -> (r: Vec<Vec<char>>)
    ensures
        texts(r@) == split(t@, c, 0),
{
    let mut r: Vec<Vec<char>> = Vec::new();
    let mut at: usize = 0;
    assert(texts(r@) + split(t@, c, 0) =~= split(t@, c, 0));
    loop
        invariant
            at <= t@.len(),
            texts(r@) + split(t@, c, at as int) == split(t@, c, 0),
        decreases t@.len() - at,
    {
        let end = find_char_from(t, c, at);
        let ghost before = texts(r@);
        if end < t.len() {
            let part = slice_of(t, at, end);
            r.push(part);
            assert(texts(r@) =~= before.push(part@));
            assert(texts(r@) + split(t@, c, end + 1) =~= before + (seq![part@] + split(
                t@,
                c,
                end + 1,
            )));
            at = end + 1;
        } else {
            let part = slice_of(t, at, t.len());
            assert(part@ =~= t@.skip(at as int));
            r.push(part);
            assert(texts(r@) =~= before + seq![t@.skip(at as int)]);
            return r;
        }
    }
}

/// Whether `t` starts with `prefix`.
pub open spec fn starts_with(t: Seq<char>, prefix: Seq<char>) -> bool {
    prefix.len() <= t.len() && t.take(prefix.len() as int) == prefix
}

/// Whether `t` starts with `prefix`.
pub fn has_prefix(t: &[char], prefix: &str) -> (r: bool)
    ensures
        r == starts_with(t@, prefix@),
{
    let p = chars_of(prefix);
    if p.len() > t.len() {
        return false;
    }
    let mut i: usize = 0;
    while i < p.len()
        invariant
            i <= p@.len() <= t@.len(),
            p@ == prefix@,
            forall|k: int| 0 <= k < i ==> t@[k] == #[trigger] p@[k],
        decreases p@.len() - i,
    {
        if t[i] != p[i] {
            assert(t@.take(p@.len() as int)[i as int] != p@[i as int]);
            return false;
        }
        i += 1;
    }
    assert(t@.take(p@.len() as int) =~= p@);
    true
}

/// Whether the characters of `t` are those of `s`.
pub fn chars_are(t: &[char], s: &str) -> (r: bool)
    ensures
        r == (t@ == s@),
{
    let r = has_prefix(t, s) && t.len() == s.unicode_len();
    proof {
        if r {
            assert(t@.take(t@.len() as int) =~= t@);
        } else if t@ == s@ {
            assert(t@.take(s@.len() as int) =~= s@);
        }
    }
    r
}

/// How many characters of `t` from its start on are no white space.
pub open spec fn word_len(t: Seq<char>) -> nat
    decreases t.len(),
{
    if t.len() > 0 && !is_white(t[0]) {
        1 + word_len(t.drop_first())
    } else {
        0
    }
}

/// The words of `t`: the runs of characters between white space.
pub open spec fn words(t: Seq<char>) -> Seq<Seq<char>>
    decreases t.len(),
{
    if t.len() == 0 {
        Seq::empty()
    } else if is_white(t[0]) {
        words(t.drop_first())
    } else {
        let n = word_len(t) as int;
        if 0 < n <= t.len() {
            seq![t.take(n)] + words(t.skip(n))
        } else {
            Seq::empty()
        }
    }
}

/// A word is part of the text.
pub proof fn lemma_word_len(t: Seq<char>, n: int)
    requires
        0 <= n <= t.len(),
        forall|k: int| 0 <= k < n ==> !is_white(#[trigger] t[k]),
        n < t.len() ==> is_white(t[n]),
    ensures
        word_len(t) == n,
    decreases n,
{
    if n > 0 {
        assert(!is_white(t[0]));
        lemma_word_len(t.drop_first(), n - 1);
    }
}

/// Texts put together with a blank between each two.
pub open spec fn spaced(ws: Seq<Seq<char>>) -> Seq<char>
    decreases ws.len(),
{
    if ws.len() == 0 {
        Seq::empty()
    } else if ws.len() == 1 {
        ws[0]
    } else {
        spaced(ws.drop_last()).push(' ') + ws.last()
    }
}

/// The words of `t`.
pub fn words_of(t: &[char]) -> (r: Vec<Vec<char>>)
    ensures
        texts(r@) == words(t@),
{
    let mut r: Vec<Vec<char>> = Vec::new();
    let mut i: usize = 0;
    assert(t@.skip(0) =~= t@);
    assert(texts(r@) + words(t@) =~= words(t@));
    while i < t.len()
        invariant
            i <= t@.len(),
            texts(r@) + words(t@.skip(i as int)) == words(t@),
        decreases t@.len() - i,
    {
        let ghost rest = t@.skip(i as int);
        if white(t[i]) {
            assert(rest.drop_first() =~= t@.skip(i + 1));
            i += 1;
        } else {
            let mut end: usize = i + 1;
            while end < t.len() && !white(t[end])
                invariant
                    i < end <= t@.len(),
                    forall|k: int| i <= k < end ==> !is_white(#[trigger] t@[k]),
                decreases t@.len() - end,
            {
                end += 1;
            }
            proof {
                assert forall|k: int| 0 <= k < end - i implies !is_white(#[trigger] rest[k]) by {
                    assert(!is_white(t@[i + k]));
                }
                lemma_word_len(rest, end - i);
                assert(rest.take(end - i) =~= t@.subrange(i as int, end as int));
                assert(rest.skip(end - i) =~= t@.skip(end as int));
            }
            let word = slice_of(t, i, end);
            let ghost before = texts(r@);
            r.push(word);
            assert(texts(r@) =~= before.push(word@));
            assert(texts(r@) + words(t@.skip(end as int)) =~= before + (seq![word@] + words(
                t@.skip(end as int),
            )));
            i = end;
        }
    }
    assert(t@.skip(i as int).len() == 0);
    assert(texts(r@) + words(t@.skip(i as int)) =~= texts(r@));
    r
}

/// The words of `t` on one line, with a blank between each two.
pub fn squeezed(t: &[char]) -> (r: String)
    ensures
        r@ == spaced(words(t@)),
{
    let ws = words_of(t);
    let ghost all = texts(ws@);
    let mut r = String::new();
    let mut i: usize = 0;
    assert(spaced(all.take(0)) =~= r@);
    while i < ws.len()
        invariant
            i <= ws@.len(),
            all == texts(ws@),
            r@ == spaced(all.take(i as int)),
        decreases ws@.len() - i,
    {
        let ghost next = all.take(i + 1);
        assert(next.drop_last() =~= all.take(i as int));
        assert(next.last() == ws@[i as int]@);
        if i > 0 {
            r.push(' ');
        } else {
            assert(next =~= seq![ws@[i as int]@]);
        }
        r.append(string_of(ws[i].as_slice()).as_str());
        assert(r@ =~= spaced(next));
        i += 1;
    }
    assert(all.take(i as int) =~= all);
    r
}

/// The value of a decimal digit, or ten for any other character.
pub open spec fn digit_value(c: char) -> nat {
    if '0' <= c <= '9' {
        ((c as u32) - ('0' as u32)) as nat
    } else {
        10
    }
}

/// Whether `t` is made of decimal digits.
pub open spec fn all_digits(t: Seq<char>) -> bool {
    forall|i: int| 0 <= i < t.len() ==> digit_value(#[trigger] t[i]) < 10
}

/// The number that decimal digits make.
pub open spec fn digits_number(t: Seq<char>) -> nat
    decreases t.len(),
{
    if t.len() == 0 {
        0
    } else {
        10 * digits_number(t.drop_last()) + digit_value(t.last())
    }
}

/// The number that `t` writes in decimal, with a plus sign before it or not, if it does and the
/// number is at most `max`.
pub open spec fn parse_number(t: Seq<char>, max: nat) -> Option<nat> {
    let digits = if t.len() > 0 && t[0] == '+' {
        t.drop_first()
    } else {
        t
    };
    if digits.len() > 0 && all_digits(digits) && digits_number(digits) <= max {
        Some(digits_number(digits))
    } else {
        None
    }
}

proof fn lemma_digits_grow(t: Seq<char>, n: int)
    requires
        0 <= n <= t.len(),
    ensures
        digits_number(t.take(n)) <= digits_number(t),
    decreases t.len() - n,
{
    if n < t.len() {
        lemma_digits_grow(t, n + 1);
        assert(t.take(n + 1).drop_last() =~= t.take(n));
    } else {
        assert(t.take(n) =~= t);
    }
}

/// The number that `t` writes in decimal, if it does and a `u32` holds it.
pub fn parse_u32(t: &[char]) -> (r: Option<u32>)
    ensures
        match r {
            Some(n) => parse_number(t@, u32::MAX as nat) == Some(n as nat),
            None => parse_number(t@, u32::MAX as nat) is None,
        },
{
    let from: usize = if t.len() > 0 && t[0] == '+' {
        1
    } else {
        0
    };
    let ghost digits = t@.skip(from as int);
    proof {
        if from == 1 {
            assert(digits =~= t@.drop_first());
        } else {
            assert(digits =~= t@);
        }
    }
    if t.len() == from {
        return None;
    }
    let mut n: u64 = 0;
    let mut i: usize = from;
    assert(digits.take(0) =~= Seq::empty());
    while i < t.len()
        invariant
            from <= i <= t@.len(),
            from < t@.len(),
            digits == t@.skip(from as int),
            parse_number(t@, u32::MAX as nat) == if digits.len() > 0 && all_digits(digits)
                && digits_number(digits) <= u32::MAX {
                Some(digits_number(digits))
            } else {
                None
            },
            n == digits_number(digits.take(i - from)),
            n <= u32::MAX,
            forall|k: int| 0 <= k < i - from ==> digit_value(#[trigger] digits[k]) < 10,
        decreases t@.len() - i,
    {
        let c = t[i];
        assert(digits[i - from] == c);
        if c < '0' || c > '9' {
            assert(digit_value(digits[i - from]) == 10);
            return None;
        }
        let d: u64 = (c as u8 - '0' as u8) as u64;
        assert(digits.take(i + 1 - from).drop_last() =~= digits.take(i - from));
        n = n * 10 + d;
        if n > u32::MAX as u64 {
            proof {
                lemma_digits_grow(digits, i + 1 - from);
            }
            return None;
        }
        i += 1;
    }
    assert(digits.take(i - from) =~= digits);
    Some(n as u32)
}

/// One more line at the end of a text that ends in a line break, or is empty, is one more line.
pub proof fn law_one_more_line(before: Seq<char>, line: Seq<char>)
    requires
        before.len() == 0 || before.last() == '\n',
        !line.contains('\n'),
        line.len() > 0 ==> line.last() != '\r',
    ensures
        lines(before + line.push('\n')) == lines(before).push(line),
        line.len() > 0 ==> lines(before + line) == lines(before).push(line),
    decreases before.len(),
{
    if before.len() == 0 {
        assert(before + line.push('\n') =~= line.push('\n'));
        assert(before + line =~= line);
        assert(lines(before) == Seq::<Seq<char>>::empty());
        assert forall|k: int| 0 <= k < line.len() implies #[trigger] line[k] != '\n' by {
            assert(line.contains(line[k]));
        }
        let t = line.push('\n');
        assert(t[line.len() as int] == '\n');
        assert forall|k: int| 0 <= k < line.len() implies #[trigger] t[k] != '\n' by {
            assert(t[k] == line[k]);
        }
        lemma_ends_at(t, 0, line.len() as int);
        assert(t.take(line.len() as int) =~= line);
        assert(t.skip(line.len() + 1int) =~= Seq::empty());
        assert(lines(t.skip(line.len() + 1int)) == Seq::<Seq<char>>::empty());
        assert(lines(t) =~= lines(before).push(line));
        if line.len() > 0 {
            lemma_ends_at(line, 0, line.len() as int);
            assert(lines(line) =~= lines(before).push(line));
        }
    } else {
        lemma_line_end(before, 0);
        let e = line_end(before, 0);
        assert(e < before.len()) by {
            assert(before[before.len() - 1] == '\n');
        }
        let rest = before.skip(e + 1);
        assert(rest.len() > 0 ==> rest.last() == before.last());
        law_one_more_line(rest, line);
        assert(lines(before) == seq![without_return(before.take(e))] + lines(rest));
        lemma_more_behind(before, line.push('\n'), rest, e);
        if line.len() > 0 {
            lemma_more_behind(before, line, rest, e);
        }
        assert(seq![without_return(before.take(e))] + lines(rest).push(line) =~= lines(before).push(
            line,
        ));
    }
}

proof fn lemma_ends_at(t: Seq<char>, i: int, e: int)
    requires
        0 <= i <= e <= t.len(),
        forall|k: int| i <= k < e ==> #[trigger] t[k] != '\n',
        e < t.len() ==> t[e] == '\n',
    ensures
        line_end(t, i) == e,
{
    lemma_line_end(t, i);
}

proof fn lemma_more_behind(before: Seq<char>, more: Seq<char>, rest: Seq<char>, e: int)
    requires
        0 <= e < before.len(),
        e == line_end(before, 0),
        rest == before.skip(e + 1),
        more.len() > 0,
    ensures
        lines(before + more) == seq![without_return(before.take(e))] + lines(rest + more),
{
    let t = before + more;
    lemma_line_end(before, 0);
    assert(t[e] == before[e]);
    assert forall|k: int| 0 <= k < e implies #[trigger] t[k] != '\n' by {
        assert(t[k] == before[k]);
    }
    lemma_ends_at(t, 0, e);
    assert(t.take(e) =~= before.take(e));
    assert(t.skip(e + 1) =~= rest + more);
}

/// A carriage return before a line break does not belong to the line.
pub proof fn law_carriage_return_goes(before: Seq<char>, line: Seq<char>)
    requires
        before.len() == 0,
        !line.contains('\n'),
    ensures
        lines(before + line + seq!['\r', '\n']) == seq![line],
{
    let t = before + line + seq!['\r', '\n'];
    let n = line.len() as int;
    assert forall|k: int| 0 <= k < n + 1 implies #[trigger] t[k] != '\n' by {
        if k < n {
            assert(t[k] == line[k]);
            assert(line.contains(line[k]));
        }
    }
    lemma_ends_at(t, 0, n + 1);
    assert(t.take(n + 1).drop_last() =~= line);
    assert(t.skip(n + 2) =~= Seq::empty());
    assert(lines(t.skip(n + 2)) == Seq::<Seq<char>>::empty());
    assert(lines(t) =~= seq![line]);
}

/// Trimming takes white space away from both ends, all of it and nothing else.
pub proof fn law_trim_takes_white_space(s: Seq<char>)
    ensures
        trim(s).len() > 0 ==> !is_white(trim(s)[0]) && !is_white(trim(s).last()),
        exists|i: int, j: int|
            {
                &&& 0 <= i <= j <= s.len()
                &&& trim(s) == #[trigger] s.subrange(i, j)
                &&& forall|k: int| 0 <= k < i || j <= k < s.len() ==> is_white(#[trigger] s[k])
            },
{
    let i = leading_white(s) as int;
    lemma_leading_is_white(s);
    let t = trim_start(s);
    lemma_trailing_is_white(t);
    let j = s.len() - trailing_white(t);
    assert(trim(s) =~= s.subrange(i, j));
    assert forall|k: int| 0 <= k < i || j <= k < s.len() implies is_white(#[trigger] s[k]) by {
        if k >= j {
            assert(s[k] == t[k - i]);
        }
    }
}

proof fn lemma_leading_is_white(s: Seq<char>)
    ensures
        leading_white(s) <= s.len(),
        forall|k: int| 0 <= k < leading_white(s) ==> is_white(#[trigger] s[k]),
        leading_white(s) < s.len() ==> !is_white(s[leading_white(s) as int]),
    decreases s.len(),
{
    if s.len() > 0 && is_white(s[0]) {
        let rest = s.drop_first();
        lemma_leading_is_white(rest);
        assert forall|k: int| 0 <= k < leading_white(s) implies is_white(#[trigger] s[k]) by {
            if k > 0 {
                assert(s[k] == rest[k - 1]);
            }
        }
    }
}

proof fn lemma_trailing_is_white(s: Seq<char>)
    ensures
        trailing_white(s) <= s.len(),
        forall|k: int| s.len() - trailing_white(s) <= k < s.len() ==> is_white(#[trigger] s[k]),
        trailing_white(s) < s.len() ==> !is_white(s[s.len() - trailing_white(s) - 1]),
    decreases s.len(),
{
    if s.len() > 0 && is_white(s.last()) {
        let rest = s.drop_last();
        lemma_trailing_is_white(rest);
        assert forall|k: int| s.len() - trailing_white(s) <= k < s.len() implies is_white(
            #[trigger] s[k],
        ) by {
            if k < s.len() - 1 {
                assert(s[k] == rest[k]);
            }
        }
    }
}

/// A number in decimal is read back as that number; a larger one than is asked for is not.
pub proof fn law_decimal_is_read_back(n: nat, max: nat)
    ensures
        parse_number(decimal(n), max) == if n <= max {
            Some(n)
        } else {
            None::<nat>
        },
        all_digits(decimal(n)),
        n > 0 ==> decimal(n)[0] != '0',
        decimal(n).len() > 0,
{
    lemma_decimal(n);
}

proof fn lemma_decimal(n: nat)
    ensures
        decimal(n).len() > 0,
        all_digits(decimal(n)),
        digits_number(decimal(n)) == n,
        n > 0 ==> decimal(n)[0] != '0',
        decimal(n)[0] != '+',
    decreases n,
{
    if n < 10 {
        let s = decimal(n);
        assert(s.drop_last() =~= Seq::<char>::empty());
        assert(digits_number(s.drop_last()) == 0);
    } else {
        lemma_decimal(n / 10);
        let s = decimal(n);
        let head = decimal(n / 10);
        assert(s.drop_last() =~= head);
        assert(s[0] == head[0]);
        assert forall|i: int| 0 <= i < s.len() implies digit_value(#[trigger] s[i]) < 10 by {
            if i < head.len() {
                assert(s[i] == head[i]);
                assert(digit_value(head[i]) < 10);
            }
        }
    }
}

/// The parts between separators hold none, and put together with them they are the text.
pub proof fn law_split_loses_nothing(t: Seq<char>, c: char, i: int)
    requires
        0 <= i <= t.len(),
    ensures
        joined(split(t, c, i), c) == t.skip(i),
        forall|k: int| 0 <= k < split(t, c, i).len() ==> !(#[trigger] split(t, c, i)[k]).contains(c),
        split(t, c, i).len() > 0,
    decreases t.len() - i,
{
    lemma_find_char(t, c, i);
    let end = find_char(t, c, i);
    let all = split(t, c, i);
    if end < t.len() {
        law_split_loses_nothing(t, c, end + 1);
        let rest = split(t, c, end + 1);
        let first = t.subrange(i, end);
        assert(all.drop_first() =~= rest);
        assert(all[0] == first);
        assert(first + seq![c] + t.skip(end + 1) =~= t.skip(i));
        assert forall|k: int| 0 <= k < all.len() implies !(#[trigger] all[k]).contains(c) by {
            if k > 0 {
                assert(all[k] == rest[k - 1]);
            } else if first.contains(c) {
                let j = choose|j: int| 0 <= j < first.len() && first[j] == c;
                assert(t[i + j] == c);
            }
        }
    } else {
        assert(all =~= seq![t.skip(i)]);
        if t.skip(i).contains(c) {
            let j = choose|j: int| 0 <= j < t.skip(i).len() && t.skip(i)[j] == c;
            assert(t[i + j] == c);
        }
    }
}

/// Texts put together with a separator between each two.
pub open spec fn joined(parts: Seq<Seq<char>>, c: char) -> Seq<char>
    decreases parts.len(),
{
    if parts.len() == 0 {
        Seq::empty()
    } else if parts.len() == 1 {
        parts[0]
    } else {
        parts[0] + seq![c] + joined(parts.drop_first(), c)
    }
}

proof fn lemma_find_char(t: Seq<char>, c: char, i: int)
    requires
        0 <= i <= t.len(),
    ensures
        i <= find_char(t, c, i) <= t.len(),
        find_char(t, c, i) < t.len() ==> t[find_char(t, c, i)] == c,
        forall|k: int| i <= k < find_char(t, c, i) ==> #[trigger] t[k] != c,
    decreases t.len() - i,
{
    if i < t.len() && t[i] != c {
        lemma_find_char(t, c, i + 1);
    }
}

/// Where a character is found is the first place that has it.
pub proof fn law_find_char_is_first(t: Seq<char>, c: char, i: int)
    requires
        0 <= i <= t.len(),
    ensures
        i <= find_char(t, c, i) <= t.len(),
        find_char(t, c, i) < t.len() ==> t[find_char(t, c, i)] == c,
        forall|k: int| i <= k < find_char(t, c, i) ==> #[trigger] t[k] != c,
{
    lemma_find_char(t, c, i);
}

/// Letters of ASCII are the same in either case, and no other character is changed.
pub proof fn law_ascii_case(c: char)
    ensures
        'A' <= c <= 'Z' ==> ascii_lower(c) as u32 == c as u32 + 32,
        !('A' <= c <= 'Z') ==> ascii_lower(c) == c,
        ascii_lower(ascii_lower(c)) == ascii_lower(c),
{
}

/// Words hold no white space, and what is left out between them is white space alone: put together
/// they are the text without it.
pub proof fn law_words_hold_the_text(t: Seq<char>)
    ensures
        forall|k: int|
            0 <= k < words(t).len() ==> (#[trigger] words(t)[k]).len() > 0 && forall|j: int|
                0 <= j < words(t)[k].len() ==> !is_white(#[trigger] words(t)[k][j]),
        words(t).flatten() == t.filter(|c: char| !is_white(c)),
    decreases t.len(),
{
    let f = |c: char| !is_white(c);
    if t.len() > 0 {
        if is_white(t[0]) {
            let rest = t.drop_first();
            law_words_hold_the_text(rest);
            assert(seq![t[0]] + rest =~= t);
            lemma_filter_add(seq![t[0]], rest, f);
            lemma_filter_none(seq![t[0]], f);
            assert(Seq::<char>::empty() + rest.filter(f) =~= rest.filter(f));
        } else {
            lemma_word_prefix(t);
            let n = word_len(t) as int;
            let rest = t.skip(n);
            law_words_hold_the_text(rest);
            let all = words(t);
            assert(all =~= seq![t.take(n)] + words(rest));
            assert(all.drop_first() =~= words(rest));
            assert forall|k: int| 0 <= k < all.len() implies (#[trigger] all[k]).len() > 0
                && forall|j: int| 0 <= j < all[k].len() ==> !is_white(#[trigger] all[k][j]) by {
                if k > 0 {
                    assert(all[k] == words(rest)[k - 1]);
                } else {
                    assert forall|j: int| 0 <= j < all[0].len() implies !is_white(
                        #[trigger] all[0][j],
                    ) by {
                        assert(all[0][j] == t[j]);
                    }
                }
            }
            assert(t.take(n) + rest =~= t);
            lemma_filter_add(t.take(n), rest, f);
            lemma_filter_all(t.take(n), f);
            assert(all.flatten() == all[0] + all.drop_first().flatten());
        }
    } else {
        assert(t.filter(f) =~= Seq::empty()) by {
            reveal(Seq::filter);
        }
        assert(words(t).flatten() =~= Seq::empty());
    }
}

proof fn lemma_word_prefix(t: Seq<char>)
    ensures
        word_len(t) <= t.len(),
        forall|k: int| 0 <= k < word_len(t) ==> !is_white(#[trigger] t[k]),
        t.len() > 0 && !is_white(t[0]) ==> word_len(t) > 0,
    decreases t.len(),
{
    if t.len() > 0 && !is_white(t[0]) {
        let rest = t.drop_first();
        lemma_word_prefix(rest);
        assert forall|k: int| 0 <= k < word_len(t) implies !is_white(#[trigger] t[k]) by {
            if k > 0 {
                assert(t[k] == rest[k - 1]);
            }
        }
    }
}

proof fn lemma_filter_add(a: Seq<char>, b: Seq<char>, f: spec_fn(char) -> bool)
    ensures
        (a + b).filter(f) == a.filter(f) + b.filter(f),
    decreases b.len(),
{
    reveal(Seq::filter);
    if b.len() == 0 {
        assert(a + b =~= a);
        assert(a.filter(f) + b.filter(f) =~= a.filter(f));
    } else {
        assert((a + b).drop_last() =~= a + b.drop_last());
        lemma_filter_add(a, b.drop_last(), f);
        if f(b.last()) {
            assert(a.filter(f) + b.drop_last().filter(f).push(b.last()) =~= (a.filter(f)
                + b.drop_last().filter(f)).push(b.last()));
        }
    }
}

proof fn lemma_filter_all(a: Seq<char>, f: spec_fn(char) -> bool)
    requires
        forall|k: int| 0 <= k < a.len() ==> f(#[trigger] a[k]),
    ensures
        a.filter(f) == a,
    decreases a.len(),
{
    reveal(Seq::filter);
    if a.len() > 0 {
        lemma_filter_all(a.drop_last(), f);
        assert(f(a[a.len() - 1]));
        assert(a.drop_last().push(a.last()) =~= a);
    } else {
        assert(a.filter(f) =~= a);
    }
}

proof fn lemma_filter_none(a: Seq<char>, f: spec_fn(char) -> bool)
    requires
        forall|k: int| 0 <= k < a.len() ==> !f(#[trigger] a[k]),
    ensures
        a.filter(f) == Seq::<char>::empty(),
    decreases a.len(),
{
    reveal(Seq::filter);
    if a.len() > 0 {
        lemma_filter_none(a.drop_last(), f);
        assert(!f(a[a.len() - 1]));
    }
}

} // verus!
