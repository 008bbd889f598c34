//! Text primitives over sequences of characters.
//!
//! Every function here is stated over the characters of its arguments. The
//! specification functions are named after what a text is (`trimmed`,
//! `lines`, `words`), the executable ones after what they do.

use vstd::prelude::*;
use vstd::string::*;

verus! {

/// `String::push` appends one character at the end.
pub assume_specification[ String::push ](s: &mut String, c: char)
    ensures
        final(s)@ == old(s)@.push(c),
;

// ---------------------------------------------------------------------------
// Characters
// ---------------------------------------------------------------------------

/// The characters with the Unicode property `White_Space`.
pub open spec fn whitespace(c: char) -> bool {
    let n = c as u32;
    ||| 9 <= n <= 13
    ||| n == 0x20
    ||| n == 0x85
    ||| n == 0xA0
    ||| n == 0x1680
    ||| 0x2000 <= n <= 0x200A
    ||| n == 0x2028
    ||| n == 0x2029
    ||| n == 0x202F
    ||| n == 0x205F
    ||| n == 0x3000
}

pub fn is_whitespace(c: char) -> (r: bool)
    ensures
        r == whitespace(c),
{
    let n: u32 = c as u32;
    (9 <= n && n <= 13) || n == 0x20 || n == 0x85 || n == 0xA0 || n == 0x1680 || (0x2000 <= n && n
        <= 0x200A) || n == 0x2028 || n == 0x2029 || n == 0x202F || n == 0x205F || n == 0x3000
}

/// The characters of the Unicode category `Cc`.
pub open spec fn control(c: char) -> bool {
    let n = c as u32;
    n < 0x20 || 0x7F <= n <= 0x9F
}

pub fn is_control(c: char) -> (r: bool)
    ensures
        r == control(c),
{
    let n: u32 = c as u32;
    n < 0x20 || (0x7F <= n && n <= 0x9F)
}

pub open spec fn ascii_digit(c: char) -> bool {
    '0' <= c <= '9'
}

pub open spec fn ascii_alphabetic(c: char) -> bool {
    'a' <= c <= 'z' || 'A' <= c <= 'Z'
}

pub open spec fn ascii_alphanumeric(c: char) -> bool {
    ascii_alphabetic(c) || ascii_digit(c)
}

pub fn is_ascii_digit(c: char) -> (r: bool)
    ensures
        r == ascii_digit(c),
{
    '0' <= c && c <= '9'
}

pub fn is_ascii_alphabetic(c: char) -> (r: bool)
    ensures
        r == ascii_alphabetic(c),
{
    ('a' <= c && c <= 'z') || ('A' <= c && c <= 'Z')
}

pub fn is_ascii_alphanumeric(c: char) -> (r: bool)
    ensures
        r == ascii_alphanumeric(c),
{
    is_ascii_alphabetic(c) || is_ascii_digit(c)
}

/// ASCII capitals become small letters, every other character stays.
pub open spec fn lowered_char(c: char) -> char {
    if 'A' <= c <= 'Z' {
        (c as u32 + 32) as char
    } else {
        c
    }
}

pub fn lower_char(c: char) -> (r: char)
    ensures
        r == lowered_char(c),
{
    if 'A' <= c && c <= 'Z' {
        let n: u8 = c as u8;
        (n + 32) as char
    } else {
        c
    }
}

// ---------------------------------------------------------------------------
// Whole texts
// ---------------------------------------------------------------------------

/// The characters of each text in `parts`.
pub open spec fn views(parts: Seq<String>) -> Seq<Seq<char>> {
    parts.map_values(|t: String| t@)
}

/// The characters of `s`.
pub fn chars_of(s: &str) -> (r: Vec<char>)
    ensures
        r@ == s@,
{
    let mut r: Vec<char> = Vec::new();
    for c in it: s.chars()
        invariant
            r@ == s@.take(it.index() as int),
            it.seq() == s@,
    {
        assert(s@.take(it.index() as int).push(c) =~= s@.take(it.index() + 1));
        r.push(c);
    }
    assert(s@.take(s@.len() as int) =~= s@);
    r
}

/// The text made of the characters `v[from..to]`.
pub fn text_of(v: &Vec<char>, from: usize, to: usize) -> (r: String)
    requires
        from <= to <= v@.len(),
    ensures
        r@ == v@.subrange(from as int, to as int),
{
    let mut r = String::new();
    let mut i: usize = from;
    while i < to
        invariant
            from <= i <= to <= v@.len(),
            r@ == v@.subrange(from as int, i as int),
        decreases to - i,
    {
        assert(v@.subrange(from as int, i as int).push(v@[i as int]) =~= v@.subrange(
            from as int,
            i + 1,
        ));
        r.push(v[i]);
        i = i + 1;
    }
    r
}

/// Whether two texts hold the same characters.
pub fn same(a: &str, b: &str) -> (r: bool)
    ensures
        r == (a@ == b@),
{
    let x = a.as_bytes();
    let y = b.as_bytes();
    proof {
        vstd::utf8::encode_utf8_decode_utf8(a@);
        vstd::utf8::encode_utf8_decode_utf8(b@);
    }
    if x.len() != y.len() {
        return false;
    }
    let mut i: usize = 0;
    while i < x.len()
        invariant
            i <= x@.len(),
            x@.len() == y@.len(),
            x@ == a.spec_bytes(),
            y@ == b.spec_bytes(),
            forall|j: int| 0 <= j < i ==> x@[j] == y@[j],
        decreases x@.len() - i,
    {
        if x[i] != y[i] {
            return false;
        }
        i = i + 1;
    }
    assert(x@ =~= y@);
    true
}

/// One text after the other.
pub fn concat2(a: &str, b: &str) -> (r: String)
    ensures
        r@ == a@ + b@,
{
    let mut r = a.to_owned();
    r.append(b);
    r
}

pub fn concat3(a: &str, b: &str, c: &str) -> (r: String)
    ensures
        r@ == a@ + b@ + c@,
{
    let mut r = a.to_owned();
    r.append(b);
    r.append(c);
    r
}

/// A copy of a list of texts.
pub fn clone_texts(v: &Vec<String>) -> (r: Vec<String>)
    ensures
        views(r@) == views(v@),
{
    let mut r: Vec<String> = Vec::new();
    let mut i: usize = 0;
    while i < v.len()
        invariant
            i <= v@.len(),
            r@.len() == i,
            forall|j: int| 0 <= j < i ==> r@[j]@ == v@[j]@,
        decreases v@.len() - i,
    {
        r.push(v[i].clone());
        i = i + 1;
    }
    assert(views(r@) =~= views(v@));
    r
}

/// Where `needle` stands in `v`, if it does.
pub fn position(v: &Vec<String>, needle: &str) -> (r: Option<usize>)
    ensures
        r matches Some(i) ==> i < v@.len() && v@[i as int]@ == needle@,
        r is None ==> !views(v@).contains(needle@),
        r is Some ==> views(v@).contains(needle@),
{
    let mut i: usize = 0;
    while i < v.len()
        invariant
            i <= v@.len(),
            forall|j: int| 0 <= j < i ==> v@[j]@ != needle@,
        decreases v@.len() - i,
    {
        if same(v[i].as_str(), needle) {
            assert(views(v@)[i as int] == needle@);
            return Some(i);
        }
        i = i + 1;
    }
    None
}

// ---------------------------------------------------------------------------
// Trimming
// ---------------------------------------------------------------------------

/// `s` without its leading white space.
pub open spec fn trimmed_start(s: Seq<char>) -> Seq<char>
    decreases s.len(),
{
    if s.len() > 0 && whitespace(s[0]) {
        trimmed_start(s.skip(1))
    } else {
        s
    }
}

/// `s` without its trailing white space.
pub open spec fn trimmed_end(s: Seq<char>) -> Seq<char>
    decreases s.len(),
{
    if s.len() > 0 && whitespace(s.last()) {
        trimmed_end(s.drop_last())
    } else {
        s
    }
}

/// `s` without the white space at both ends.
pub open spec fn trimmed(s: Seq<char>) -> Seq<char> {
    trimmed_end(trimmed_start(s))
}

/// `s` without the copies of `c` at its end.
pub open spec fn trimmed_end_of(s: Seq<char>, c: char) -> Seq<char>
    decreases s.len(),
{
    if s.len() > 0 && s.last() == c {
        trimmed_end_of(s.drop_last(), c)
    } else {
        s
    }
}

pub proof fn lemma_trimmed_start(s: Seq<char>)
    ensures
        trimmed_start(s).len() <= s.len(),
        trimmed_start(s) == s.skip(s.len() - trimmed_start(s).len()),
        trimmed_start(s).len() > 0 ==> !whitespace(trimmed_start(s)[0]),
        forall|i: int| 0 <= i < s.len() - trimmed_start(s).len() ==> whitespace(#[trigger] s[i]),
    decreases s.len(),
{
    if s.len() > 0 && whitespace(s[0]) {
        let t = s.skip(1);
        lemma_trimmed_start(t);
        let n = trimmed_start(t).len();
        assert(t.skip(t.len() - n) =~= s.skip(s.len() - n));
        assert forall|i: int| 0 <= i < s.len() - n implies whitespace(#[trigger] s[i]) by {
            if i > 0 {
                assert(t[i - 1] == s[i]);
            }
        }
    } else {
        assert(s.skip(0) =~= s);
    }
}

pub proof fn lemma_trimmed_end(s: Seq<char>)
    ensures
        trimmed_end(s).len() <= s.len(),
        trimmed_end(s) == s.take(trimmed_end(s).len() as int),
        trimmed_end(s).len() > 0 ==> !whitespace(trimmed_end(s).last()),
        forall|i: int| trimmed_end(s).len() <= i < s.len() ==> whitespace(#[trigger] s[i]),
    decreases s.len(),
{
    if s.len() > 0 && whitespace(s.last()) {
        let t = s.drop_last();
        lemma_trimmed_end(t);
        let n = trimmed_end(t).len() as int;
        assert(t.take(n) =~= s.take(n));
        assert forall|i: int| n <= i < s.len() implies whitespace(#[trigger] s[i]) by {
            if i < s.len() - 1 {
                assert(t[i] == s[i]);
            }
        }
    } else {
        assert(s.take(s.len() as int) =~= s);
    }
}

/// A text with no white space at either end is its own trim.
pub proof fn lemma_trimmed_fixed(s: Seq<char>)
    requires
        s.len() > 0 ==> !whitespace(s[0]) && !whitespace(s.last()),
    ensures
        trimmed(s) == s,
{
}

fn leading_whitespace(v: &Vec<char>) -> (n: usize)
    ensures
        n <= v@.len(),
        trimmed_start(v@) == v@.skip(n as int),
{
    let mut n: usize = 0;
    assert(v@.skip(0) =~= v@);
    while n < v.len() && is_whitespace(v[n])
        invariant
            n <= v@.len(),
            trimmed_start(v@) == trimmed_start(v@.skip(n as int)),
        decreases v@.len() - n,
    {
        assert(v@.skip(n as int).skip(1) =~= v@.skip(n + 1));
        n = n + 1;
    }
    n
}

pub fn trim_start<'a>(s: &'a str) -> (r: &'a str)
    ensures
        r@ == trimmed_start(s@),
{
    let v = chars_of(s);
    let n: usize = leading_whitespace(&v);
    s.substring_char(n, v.len())
}

pub fn trim<'a>(s: &'a str) -> (r: &'a str)
    ensures
        r@ == trimmed(s@),
{
    let v = chars_of(s);
    let from: usize = leading_whitespace(&v);
    let mut to: usize = v.len();
    assert(v@.subrange(from as int, to as int) =~= v@.skip(from as int));
    while to > from && is_whitespace(v[to - 1])
        invariant
            from <= to <= v@.len(),
            trimmed_end(v@.skip(from as int)) == trimmed_end(v@.subrange(from as int, to as int)),
        decreases to,
    {
        let ghost t = v@.subrange(from as int, to as int);
        assert(t.last() == v@[to - 1]);
        assert(t.drop_last() =~= v@.subrange(from as int, to - 1));
        to = to - 1;
    }
    proof {
        let t = v@.subrange(from as int, to as int);
        if to > from {
            assert(t.last() == v@[to - 1]);
        }
    }
    s.substring_char(from, to)
}

/// Whether `s` holds nothing but white space.
pub fn is_blank(s: &str) -> (r: bool)
    ensures
        r == (trimmed(s@).len() == 0),
{
    let t = trim(s);
    t.is_empty()
}

pub fn trim_end_of<'a>(s: &'a str, c: char) -> (r: &'a str)
    ensures
        r@ == trimmed_end_of(s@, c),
{
    let v = chars_of(s);
    let mut to: usize = v.len();
    assert(v@.take(to as int) =~= v@);
    while to > 0 && v[to - 1] == c
        invariant
            to <= v@.len(),
            trimmed_end_of(v@, c) == trimmed_end_of(v@.take(to as int), c),
        decreases to,
    {
        assert(v@.take(to as int).last() == v@[to - 1]);
        assert(v@.take(to as int).drop_last() =~= v@.take(to - 1));
        to = to - 1;
    }
    proof {
        if to > 0 {
            assert(v@.take(to as int).last() == v@[to - 1]);
        }
    }
    s.substring_char(0, to)
}

// ---------------------------------------------------------------------------
// Searching and splitting
// ---------------------------------------------------------------------------

/// The number of characters before the first `c`; all of them where there is
/// none.
pub open spec fn first_of(s: Seq<char>, c: char) -> nat
    decreases s.len(),
{
    if s.len() == 0 || s[0] == c {
        0
    } else {
        1 + first_of(s.skip(1), c)
    }
}

pub proof fn lemma_first_of(s: Seq<char>, c: char)
    ensures
        first_of(s, c) <= s.len(),
        first_of(s, c) < s.len() ==> s[first_of(s, c) as int] == c,
        forall|i: int| 0 <= i < first_of(s, c) ==> #[trigger] s[i] != c,
    decreases s.len(),
{
    if s.len() > 0 && s[0] != c {
        let t = s.skip(1);
        lemma_first_of(t, c);
        assert forall|i: int| 0 <= i < first_of(s, c) implies #[trigger] s[i] != c by {
            if i > 0 {
                assert(t[i - 1] == s[i]);
            }
        }
    }
}

/// The first `c` stands at `n` exactly where `n` holds it and nothing before
/// does.
pub proof fn lemma_first_of_at(s: Seq<char>, c: char, n: int)
    requires
        0 <= n < s.len(),
        s[n] == c,
        forall|i: int| 0 <= i < n ==> #[trigger] s[i] != c,
    ensures
        first_of(s, c) == n,
{
    lemma_first_of(s, c);
    if first_of(s, c) < n {
        assert(s[first_of(s, c) as int] == c);
    }
    if first_of(s, c) > n {
        assert(s[n] != c);
    }
}

/// The index of the first `c` of `v` at or after `from`, or the length.
pub fn find_from(v: &Vec<char>, from: usize, c: char) -> (r: usize)
    requires
        from <= v@.len(),
    ensures
        from <= r <= v@.len(),
        r == from + first_of(v@.skip(from as int), c),
{
    let mut i: usize = from;
    while i < v.len() && v[i] != c
        invariant
            from <= i <= v@.len(),
            first_of(v@.skip(from as int), c) == (i - from) + first_of(v@.skip(i as int), c),
        decreases v@.len() - i,
    {
        assert(v@.skip(i as int).skip(1) =~= v@.skip(i + 1));
        i = i + 1;
    }
    i
}

/// The text before and the text after the first `c`, where there is one.
pub open spec fn split_at_first(s: Seq<char>, c: char) -> Option<(Seq<char>, Seq<char>)> {
    let i = first_of(s, c) as int;
    if i < s.len() {
        Some((s.take(i), s.skip(i + 1)))
    } else {
        None
    }
}

pub fn split_once<'a>(s: &'a str, c: char) -> (r: Option<(&'a str, &'a str)>)
    ensures
        match r {
            Some((a, b)) => split_at_first(s@, c) == Some((a@, b@)),
            None => split_at_first(s@, c) is None,
        },
{
    let v = chars_of(s);
    assert(v@.skip(0) =~= v@);
    let i: usize = find_from(&v, 0, c);
    if i < v.len() {
        let a = s.substring_char(0, i);
        let b = s.substring_char(i + 1, v.len());
        assert(a@ =~= s@.take(i as int));
        assert(b@ =~= s@.skip(i + 1));
        Some((a, b))
    } else {
        None
    }
}

/// Whether `p` stands in `v` at index `at`.
fn stands_at(v: &Vec<char>, at: usize, p: &Vec<char>) -> (r: bool)
    ensures
        r == (at + p@.len() <= v@.len() && v@.subrange(at as int, at + p@.len()) == p@),
{
    let n: usize = v.len();
    if at > n || p.len() > n - at {
        return false;
    }
    let mut i: usize = 0;
    while i < p.len()
        invariant
            i <= p@.len(),
            n == v@.len(),
            at + p@.len() <= n,
            forall|j: int| 0 <= j < i ==> v@[at + j] == p@[j],
        decreases p@.len() - i,
    {
        if v[at + i] != p[i] {
            assert(v@.subrange(at as int, at + p@.len())[i as int] == v@[at + i]);
            return false;
        }
        i = i + 1;
    }
    assert(v@.subrange(at as int, at + p@.len()) =~= p@);
    true
}

pub fn starts_with(s: &str, p: &str) -> (r: bool)
    ensures
        r == p@.is_prefix_of(s@),
{
    let v = chars_of(s);
    let q = chars_of(p);
    stands_at(&v, 0, &q)
}

/// `s` without the prefix `p`, where it has that prefix.
pub fn strip_prefix<'a>(s: &'a str, p: &str) -> (r: Option<&'a str>)
    ensures
        match r {
            Some(rest) => p@.is_prefix_of(s@) && rest@ == s@.skip(p@.len() as int),
            None => !p@.is_prefix_of(s@),
        },
{
    let v = chars_of(s);
    let q = chars_of(p);
    if stands_at(&v, 0, &q) {
        let rest = s.substring_char(q.len(), v.len());
        assert(rest@ =~= s@.skip(p@.len() as int));
        Some(rest)
    } else {
        None
    }
}

/// Whether `p` stands in `s` at index `i`.
pub open spec fn occurs_at(s: Seq<char>, p: Seq<char>, i: int) -> bool {
    0 <= i && i + p.len() <= s.len() && s.subrange(i, i + p.len()) == p
}

/// Whether `p` stands somewhere in `s`.
pub open spec fn contains(s: Seq<char>, p: Seq<char>) -> bool {
    exists|i: int| occurs_at(s, p, i)
}

/// The index of the first `p` in `v` at or after `from`.
pub fn find_text(v: &Vec<char>, from: usize, p: &Vec<char>) -> (r: Option<usize>)
    requires
        from <= v@.len(),
    ensures
        match r {
            Some(i) => from <= i && occurs_at(v@, p@, i as int) && forall|j: int|
                from <= j < i ==> !occurs_at(v@, p@, j),
            None => forall|j: int| from <= j ==> !occurs_at(v@, p@, j),
        },
{
    let mut i: usize = from;
    while i < v.len()
        invariant
            from <= i <= v@.len(),
            forall|j: int| from <= j < i ==> !occurs_at(v@, p@, j),
        decreases v@.len() - i,
    {
        if stands_at(v, i, p) {
            return Some(i);
        }
        i = i + 1;
    }
    if p.len() == 0 {
        assert(v@.subrange(i as int, i as int) =~= p@);
        return Some(i);
    }
    None
}

pub fn has(s: &str, p: &str) -> (r: bool)
    ensures
        r == contains(s@, p@),
{
    let v = chars_of(s);
    let q = chars_of(p);
    match find_text(&v, 0, &q) {
        Some(_) => true,
        None => {
            assert(forall|j: int| !occurs_at(s@, p@, j));
            false
        },
    }
}

/// The index of the first `p` in `s`.
pub open spec fn find(s: Seq<char>, p: Seq<char>) -> Option<nat>
    decreases s.len(),
{
    if p.is_prefix_of(s) {
        Some(0)
    } else if s.len() == 0 {
        None
    } else {
        match find(s.skip(1), p) {
            Some(i) => Some(i + 1),
            None => None,
        }
    }
}

pub proof fn lemma_find(s: Seq<char>, p: Seq<char>)
    ensures
        match find(s, p) {
            Some(i) => occurs_at(s, p, i as int) && forall|j: int| j < i ==> !occurs_at(s, p, j),
            None => !contains(s, p),
        },
    decreases s.len(),
{
    if p.is_prefix_of(s) {
        assert(s.subrange(0, p.len() as int) =~= p);
    } else {
        assert(!occurs_at(s, p, 0)) by {
            if occurs_at(s, p, 0) {
                assert(s.subrange(0, p.len() as int) == p);
            }
        }
        if s.len() > 0 {
            let t = s.skip(1);
            lemma_find(t, p);
            assert forall|j: int| j > 0 implies occurs_at(s, p, j) == occurs_at(t, p, j - 1) by {
                if j + p.len() <= s.len() {
                    assert(s.subrange(j, j + p.len()) =~= t.subrange(j - 1, j - 1 + p.len()));
                }
            }
            match find(t, p) {
                Some(i) => {
                    assert(occurs_at(s, p, i as int + 1));
                    assert forall|j: int| j < i + 1 implies !occurs_at(s, p, j) by {
                        if j > 0 {
                            assert(!occurs_at(t, p, j - 1));
                        }
                    }
                },
                None => {
                    assert forall|j: int| !occurs_at(s, p, j) by {
                        if j > 0 {
                            assert(!occurs_at(t, p, j - 1));
                        }
                    }
                },
            }
        }
    }
}

/// The first `p` stands where it stands and does not stand before.
pub proof fn lemma_find_at(s: Seq<char>, p: Seq<char>, i: int)
    requires
        occurs_at(s, p, i),
        forall|j: int| 0 <= j < i ==> !occurs_at(s, p, j),
    ensures
        find(s, p) == Some(i as nat),
{
    lemma_find(s, p);
}

/// What stands in a part stands in the whole.
pub proof fn lemma_contains_part(s: Seq<char>, from: int, to: int, p: Seq<char>)
    requires
        0 <= from <= to <= s.len(),
        contains(s.subrange(from, to), p),
    ensures
        contains(s, p),
{
    let t = s.subrange(from, to);
    let i = choose|i: int| occurs_at(t, p, i);
    assert(s.subrange(from + i, from + i + p.len()) =~= t.subrange(i, i + p.len()));
    assert(occurs_at(s, p, from + i));
}

/// A line without the carriage return at its end, if it has one.
pub open spec fn without_cr(line: Seq<char>) -> Seq<char> {
    if line.len() > 0 && line.last() == '\r' {
        line.drop_last()
    } else {
        line
    }
}

/// The lines of `s`. A line ends in `\n` or `\r\n`, which is no part of it;
/// after the last line there need be no ending.
pub open spec fn lines(s: Seq<char>) -> Seq<Seq<char>>
    decreases s.len(),
{
    if s.len() == 0 {
        Seq::empty()
    } else {
        let i = first_of(s, '\n') as int;
        if i >= s.len() {
            seq![s]
        } else {
            seq![without_cr(s.take(i))] + lines(s.skip(i + 1))
        }
    }
}

pub fn split_lines(s: &str) -> (r: Vec<String>)
    ensures
        views(r@) == lines(s@),
{
    let v = chars_of(s);
    let mut out: Vec<String> = Vec::new();
    let mut from: usize = 0;
    assert(v@.skip(0) =~= v@);
    assert(views(out@) + lines(v@) =~= lines(v@));
    while from < v.len()
        invariant
            from <= v@.len(),
            views(out@) + lines(v@.skip(from as int)) == lines(v@),
        decreases v@.len() - from,
    {
        let ghost rest = v@.skip(from as int);
        let ghost before = out@;
        let i: usize = find_from(&v, from, '\n');
        if i < v.len() {
            let to: usize = if i > from && v[i - 1] == '\r' {
                i - 1
            } else {
                i
            };
            let line = text_of(&v, from, to);
            proof {
                assert(rest.take(i - from) =~= v@.subrange(from as int, i as int));
                if i > from {
                    assert(rest.take(i - from).last() == v@[i - 1]);
                }
                assert(line@ =~= without_cr(rest.take(i - from)));
                assert(rest.skip(i - from + 1) =~= v@.skip(i + 1));
            }
            out.push(line);
            assert(views(out@) =~= views(before) + seq![line@]);
            assert(views(out@) + lines(v@.skip(i + 1)) =~= views(before) + lines(rest));
            from = i + 1;
        } else {
            let line = text_of(&v, from, i);
            assert(line@ =~= rest);
            out.push(line);
            assert(views(out@) =~= views(before) + seq![line@]);
            from = i;
            assert(v@.skip(from as int).len() == 0);
            assert(views(out@) + lines(v@.skip(from as int)) =~= views(before) + lines(rest));
        }
    }
    assert(v@.skip(from as int).len() == 0);
    assert(views(out@) + lines(v@.skip(from as int)) =~= views(out@));
    out
}

/// Behind a line ending, the lines go on by themselves.
pub proof fn lemma_lines_concat(a: Seq<char>, b: Seq<char>)
    requires
        a.len() > 0,
        a.last() == '\n',
    ensures
        lines(a + b) == lines(a) + lines(b),
    decreases a.len(),
{
    lemma_first_of(a, '\n');
    let i = first_of(a, '\n') as int;
    if i >= a.len() {
        assert(a[a.len() - 1] != '\n');
    }
    assert forall|j: int| 0 <= j < i implies #[trigger] (a + b)[j] != '\n' by {
        assert((a + b)[j] == a[j]);
    }
    lemma_first_of_at(a + b, '\n', i);
    assert((a + b).take(i) =~= a.take(i));
    let rest = a.skip(i + 1);
    assert((a + b).skip(i + 1) =~= rest + b);
    if rest.len() > 0 {
        lemma_lines_concat(rest, b);
        assert(seq![without_cr(a.take(i))] + (lines(rest) + lines(b)) =~= (seq![
            without_cr(a.take(i)),
        ] + lines(rest)) + lines(b));
    } else {
        assert(rest + b =~= b);
        assert(lines(rest) =~= Seq::<Seq<char>>::empty());
        assert(seq![without_cr(a.take(i))] + lines(b) =~= (seq![without_cr(a.take(i))] + lines(
            rest,
        )) + lines(b));
    }
}

/// A single line ending is one empty line.
pub proof fn lemma_lines_ending(cr: bool)
    ensures
        lines(
            if cr {
                seq!['\r', '\n']
            } else {
                seq!['\n']
            },
        ) == seq![Seq::<char>::empty()],
{
    let s = if cr {
        seq!['\r', '\n']
    } else {
        seq!['\n']
    };
    let i: int = if cr {
        1
    } else {
        0
    };
    lemma_first_of_at(s, '\n', i);
    assert(s.skip(i + 1) =~= Seq::<char>::empty());
    assert(without_cr(s.take(i)) =~= Seq::<char>::empty());
    assert(lines(Seq::<char>::empty()) == Seq::<Seq<char>>::empty());
    assert(lines(s) =~= seq![Seq::<char>::empty()]);
}

/// Whether a text ends in `\r\n` or in `\n` makes no difference to its lines,
/// unless a carriage return stands before the ending.
pub proof fn lemma_lines_crlf(f: Seq<char>)
    requires
        f.len() > 0 ==> f.last() != '\r',
    ensures
        lines(f + seq!['\r', '\n']) == lines(f + seq!['\n']),
    decreases f.len(),
{
    let a = f + seq!['\r', '\n'];
    let b = f + seq!['\n'];
    lemma_first_of(f, '\n');
    let i = first_of(f, '\n') as int;
    if i < f.len() {
        assert forall|j: int| 0 <= j < i implies #[trigger] a[j] != '\n' by {
            assert(a[j] == f[j]);
        }
        assert forall|j: int| 0 <= j < i implies #[trigger] b[j] != '\n' by {
            assert(b[j] == f[j]);
        }
        lemma_first_of_at(a, '\n', i);
        lemma_first_of_at(b, '\n', i);
        assert(a.take(i) =~= f.take(i));
        assert(b.take(i) =~= f.take(i));
        let g = f.skip(i + 1);
        assert(a.skip(i + 1) =~= g + seq!['\r', '\n']);
        assert(b.skip(i + 1) =~= g + seq!['\n']);
        if g.len() > 0 {
            assert(g.last() == f.last());
        }
        lemma_lines_crlf(g);
    } else {
        assert forall|j: int| 0 <= j < i + 1 implies #[trigger] a[j] != '\n' by {
            if j < i {
                assert(a[j] == f[j]);
            }
        }
        assert forall|j: int| 0 <= j < i implies #[trigger] b[j] != '\n' by {
            assert(b[j] == f[j]);
        }
        lemma_first_of_at(a, '\n', i + 1);
        lemma_first_of_at(b, '\n', i);
        assert(a.take(i + 1).last() == '\r');
        assert(without_cr(a.take(i + 1)) =~= f);
        assert(b.take(i) =~= f);
        assert(a.skip(i + 2).len() == 0);
        assert(b.skip(i + 1).len() == 0);
        assert(lines(a.skip(i + 2)) =~= lines(b.skip(i + 1)));
    }
}

pub open spec fn blank(s: Seq<char>) -> bool {
    forall|i: int| 0 <= i < s.len() ==> whitespace(#[trigger] s[i])
}

/// A text whose trim is empty holds white space only.
pub proof fn lemma_blank(s: Seq<char>)
    requires
        trimmed(s).len() == 0,
    ensures
        blank(s),
{
    lemma_trimmed_start(s);
    lemma_trimmed_end(trimmed_start(s));
    let t = trimmed_start(s);
    if t.len() > 0 {
        assert(whitespace(t[0]));
    }
}

/// No line holds the character that ends one.
pub proof fn lemma_lines_hold_no_newline(s: Seq<char>)
    ensures
        forall|k: int, j: int|
            0 <= k < lines(s).len() && 0 <= j < lines(s)[k].len() ==> #[trigger] lines(s)[k][j]
                != '\n',
    decreases s.len(),
{
    if s.len() > 0 {
        lemma_first_of(s, '\n');
        let i = first_of(s, '\n') as int;
        if i < s.len() {
            let rest = s.skip(i + 1);
            lemma_lines_hold_no_newline(rest);
            let first = without_cr(s.take(i));
            assert forall|k: int, j: int|
                0 <= k < lines(s).len() && 0 <= j < lines(s)[k].len() implies #[trigger] lines(
                s,
            )[k][j] != '\n' by {
                if k > 0 {
                    assert(lines(s)[k] == lines(rest)[k - 1]);
                } else {
                    assert(lines(s)[k] == first);
                    assert(first[j] == s[j]);
                }
            }
        }
    }
}

/// A text that does not begin with `c` is not all of it.
pub proof fn lemma_trimmed_end_of_keeps(s: Seq<char>, c: char)
    requires
        s.len() > 0,
        s[0] != c,
    ensures
        trimmed_end_of(s, c).len() > 0,
    decreases s.len(),
{
    if s.last() == c {
        lemma_trimmed_end_of_keeps(s.drop_last(), c);
    }
}

/// Nothing is left of white space alone.
pub proof fn lemma_blank_trimmed(s: Seq<char>)
    requires
        forall|i: int| 0 <= i < s.len() ==> whitespace(#[trigger] s[i]),
    ensures
        trimmed(s).len() == 0,
{
    lemma_trimmed_start(s);
    if trimmed_start(s).len() > 0 {
        assert(trimmed_start(s)[0] == s[s.len() - trimmed_start(s).len()]);
    }
}

/// What is left of `s` is its front up to the copies of `c` at its end.
pub proof fn lemma_trimmed_end_of(s: Seq<char>, c: char)
    ensures
        trimmed_end_of(s, c).len() <= s.len(),
        trimmed_end_of(s, c) == s.take(trimmed_end_of(s, c).len() as int),
        trimmed_end_of(s, c).len() > 0 ==> trimmed_end_of(s, c).last() != c,
        forall|i: int| trimmed_end_of(s, c).len() <= i < s.len() ==> #[trigger] s[i] == c,
    decreases s.len(),
{
    if s.len() > 0 && s.last() == c {
        lemma_trimmed_end_of(s.drop_last(), c);
        let n = trimmed_end_of(s, c).len() as int;
        assert(s.drop_last().take(n) =~= s.take(n));
        assert forall|i: int| n <= i < s.len() implies #[trigger] s[i] == c by {
            if i < s.len() - 1 {
                assert(s.drop_last()[i] == s[i]);
            }
        }
    } else {
        assert(s.take(s.len() as int) =~= s);
    }
}

/// Trimming takes the white space around a text away, and nothing else.
pub proof fn lemma_trimmed_parts(before: Seq<char>, s: Seq<char>, after: Seq<char>)
    requires
        forall|i: int| 0 <= i < before.len() ==> whitespace(#[trigger] before[i]),
        forall|i: int| 0 <= i < after.len() ==> whitespace(#[trigger] after[i]),
        s.len() > 0,
        !whitespace(s[0]),
        !whitespace(s.last()),
    ensures
        trimmed(before + s + after) == s,
    decreases before.len() + after.len(),
{
    let whole = before + s + after;
    if before.len() > 0 {
        assert(whole[0] == before[0]);
        assert(whole.skip(1) =~= before.skip(1) + s + after);
        assert forall|i: int| 0 <= i < before.skip(1).len() implies whitespace(
            #[trigger] before.skip(1)[i],
        ) by {
            assert(before.skip(1)[i] == before[i + 1]);
        }
        lemma_trimmed_parts(before.skip(1), s, after);
    } else {
        assert(whole[0] == s[0]);
        assert(trimmed_start(whole) == whole);
        if after.len() > 0 {
            assert(whole.last() == after.last());
            assert(whitespace(after[after.len() - 1]));
            assert(whole.drop_last() =~= before + s + after.drop_last());
            assert(whole.drop_last()[0] == s[0]);
            assert(trimmed_start(whole.drop_last()) == whole.drop_last());
            lemma_trimmed_parts(before, s, after.drop_last());
        } else {
            assert(whole =~= s);
        }
    }
}

/// The lines of a blank text are blank.
pub proof fn lemma_lines_blank(s: Seq<char>)
    requires
        blank(s),
    ensures
        forall|k: int| 0 <= k < lines(s).len() ==> blank(#[trigger] lines(s)[k]),
    decreases s.len(),
{
    if s.len() > 0 {
        lemma_first_of(s, '\n');
        let i = first_of(s, '\n') as int;
        if i < s.len() {
            let rest = s.skip(i + 1);
            assert(blank(rest)) by {
                assert forall|j: int| 0 <= j < rest.len() implies whitespace(#[trigger] rest[j]) by {
                    assert(rest[j] == s[j + i + 1]);
                }
            }
            lemma_lines_blank(rest);
            let first = without_cr(s.take(i));
            assert(blank(first)) by {
                assert forall|j: int| 0 <= j < first.len() implies whitespace(
                    #[trigger] first[j],
                ) by {
                    assert(first[j] == s[j]);
                }
            }
            assert forall|k: int| 0 <= k < lines(s).len() implies blank(#[trigger] lines(s)[k]) by {
                if k > 0 {
                    assert(lines(s)[k] == lines(rest)[k - 1]);
                }
            }
        }
    }
}

/// The number of characters before the first white space.
pub open spec fn word_len(s: Seq<char>) -> nat
    decreases s.len(),
{
    if s.len() == 0 || whitespace(s[0]) {
        0
    } else {
        1 + word_len(s.skip(1))
    }
}

pub proof fn lemma_word_len(s: Seq<char>)
    ensures
        word_len(s) <= s.len(),
        word_len(s) < s.len() ==> whitespace(s[word_len(s) as int]),
        forall|i: int| 0 <= i < word_len(s) ==> !whitespace(#[trigger] s[i]),
    decreases s.len(),
{
    if s.len() > 0 && !whitespace(s[0]) {
        let t = s.skip(1);
        lemma_word_len(t);
        assert forall|i: int| 0 <= i < word_len(s) implies !whitespace(#[trigger] s[i]) by {
            if i > 0 {
                assert(t[i - 1] == s[i]);
            }
        }
    }
}

/// The words of `s`: what white space parts.
pub open spec fn words(s: Seq<char>) -> Seq<Seq<char>>
    decreases s.len(),
{
    let t = trimmed_start(s);
    if t.len() == 0 {
        Seq::empty()
    } else {
        let n = word_len(t) as int;
        proof {
            lemma_trimmed_start(s);
            lemma_word_len(t);
        }
        seq![t.take(n)] + words(t.skip(n))
    }
}

pub fn split_words(s: &str) -> (r: Vec<String>)
    ensures
        views(r@) == words(s@),
{
    let v = chars_of(s);
    let mut out: Vec<String> = Vec::new();
    let mut from: usize = 0;
    assert(v@.skip(0) =~= v@);
    assert(views(out@) + words(v@) =~= words(v@));
    while from < v.len()
        invariant
            from <= v@.len(),
            views(out@) + words(v@.skip(from as int)) == words(v@),
        decreases v@.len() - from,
    {
        let ghost before = out@;
        if is_whitespace(v[from]) {
            let ghost rest = v@.skip(from as int);
            assert(rest.skip(1) =~= v@.skip(from + 1));
            assert(trimmed_start(rest) == trimmed_start(v@.skip(from + 1)));
            from = from + 1;
        } else {
            let ghost rest = v@.skip(from as int);
            let mut to: usize = from;
            while to < v.len() && !is_whitespace(v[to])
                invariant
                    from <= to <= v@.len(),
                    from < v@.len(),
                    !whitespace(v@[from as int]),
                    word_len(v@.skip(from as int)) == (to - from) + word_len(v@.skip(to as int)),
                decreases v@.len() - to,
            {
                assert(v@.skip(to as int).skip(1) =~= v@.skip(to + 1));
                to = to + 1;
            }
            assert(to > from) by {
                if to == from {
                    assert(word_len(rest) == 0);
                    assert(rest[0] == v@[from as int]);
                }
            }
            let word = text_of(&v, from, to);
            assert(word@ =~= rest.take(to - from));
            assert(rest.skip(to - from) =~= v@.skip(to as int));
            out.push(word);
            assert(views(out@) =~= views(before) + seq![word@]);
            assert(views(out@) + words(v@.skip(to as int)) =~= views(before) + words(rest));
            from = to;
        }
    }
    assert(v@.skip(from as int).len() == 0);
    assert(views(out@) + words(v@.skip(from as int)) =~= views(out@));
    out
}

/// The texts of `parts` one after the other, with `sep` between them.
pub open spec fn joined(parts: Seq<Seq<char>>, sep: Seq<char>) -> Seq<char>
    decreases parts.len(),
{
    if parts.len() == 0 {
        Seq::empty()
    } else if parts.len() == 1 {
        parts[0]
    } else {
        joined(parts.drop_last(), sep) + sep + parts.last()
    }
}

pub fn join(parts: &Vec<String>, sep: &str) -> (r: String)
    ensures
        r@ == joined(views(parts@), sep@),
{
    let mut r = String::new();
    let mut i: usize = 0;
    while i < parts.len()
        invariant
            i <= parts@.len(),
            r@ == joined(views(parts@).take(i as int), sep@),
        decreases parts@.len() - i,
    {
        let ghost all = views(parts@);
        assert(all.take(i + 1).drop_last() =~= all.take(i as int));
        assert(all.take(i + 1).last() == parts@[i as int]@);
        if i > 0 {
            r.append(sep);
        }
        r.append(parts[i].as_str());
        if i == 0 {
            assert(r@ =~= parts@[0]@);
        }
        i = i + 1;
    }
    assert(views(parts@).take(i as int) =~= views(parts@));
    r
}

/// Whether the characters from `i` on are all as `p` says.
pub open spec fn all_from(s: Seq<char>, p: spec_fn(char) -> bool, i: int) -> bool
    decreases s.len() - i,
{
    i >= s.len() || (p(s[i]) && all_from(s, p, i + 1))
}

pub proof fn lemma_all_from(s: Seq<char>, p: spec_fn(char) -> bool, i: int)
    requires
        all_from(s, p, i),
    ensures
        forall|k: int| i <= k < s.len() ==> p(#[trigger] s[k]),
    decreases s.len() - i,
{
    if i < s.len() {
        lemma_all_from(s, p, i + 1);
    }
}

/// A text that is one word: not empty and without white space.
pub open spec fn plain_word(w: Seq<char>) -> bool {
    w.len() > 0 && forall|i: int| 0 <= i < w.len() ==> !whitespace(#[trigger] w[i])
}

/// The words of a text are words.
pub proof fn lemma_words_plain(s: Seq<char>)
    ensures
        forall|k: int| 0 <= k < words(s).len() ==> plain_word(#[trigger] words(s)[k]),
    decreases s.len(),
{
    let t = trimmed_start(s);
    lemma_trimmed_start(s);
    if t.len() > 0 {
        lemma_word_len(t);
        let n = word_len(t) as int;
        let first = t.take(n);
        let rest = t.skip(n);
        lemma_words_plain(rest);
        assert(plain_word(first)) by {
            assert forall|i: int| 0 <= i < first.len() implies !whitespace(#[trigger] first[i]) by {
                assert(first[i] == t[i]);
            }
        }
        assert forall|k: int| 0 <= k < words(s).len() implies plain_word(#[trigger] words(s)[k]) by {
            if k > 0 {
                assert(words(s)[k] == words(rest)[k - 1]);
            }
        }
    }
}

proof fn lemma_joined_front(parts: Seq<Seq<char>>, sep: Seq<char>)
    requires
        parts.len() > 1,
    ensures
        joined(parts, sep) == parts[0] + sep + joined(parts.skip(1), sep),
    decreases parts.len(),
{
    if parts.len() == 2 {
        assert(parts.drop_last() =~= seq![parts[0]]);
        assert(parts.skip(1) =~= seq![parts[1]]);
        assert(joined(seq![parts[0]], sep) == parts[0]);
        assert(joined(seq![parts[1]], sep) == parts[1]);
    } else {
        let front = parts.drop_last();
        lemma_joined_front(front, sep);
        assert(front.skip(1) =~= parts.skip(1).drop_last());
        assert(parts.skip(1).last() == parts.last());
        let inner = joined(front.skip(1), sep);
        assert((parts[0] + sep + inner) + sep + parts.last() =~= parts[0] + sep + (inner + sep
            + parts.last()));
    }
}

/// Words joined by single spaces are the words of the text.
pub proof fn lemma_words_of_joined(parts: Seq<Seq<char>>)
    requires
        forall|k: int| 0 <= k < parts.len() ==> plain_word(#[trigger] parts[k]),
    ensures
        words(joined(parts, " "@)) == parts,
    decreases parts.len(),
{
    reveal_strlit(" ");
    assert(" "@ =~= seq![' ']);
    let s = joined(parts, " "@);
    if parts.len() == 0 {
        assert(words(s) =~= parts);
    } else {
        let w = parts[0];
        assert(plain_word(w));
        assert(!whitespace(w[0]));
        if parts.len() == 1 {
            assert(trimmed_start(s) == s);
            lemma_word_len_at(s, s.len() as int);
            assert(s.take(s.len() as int) =~= s);
            assert(words(s.skip(s.len() as int)) =~= Seq::<Seq<char>>::empty());
            assert(words(s) =~= parts);
        } else {
            lemma_joined_front(parts, " "@);
            let more = parts.skip(1);
            let tail = joined(more, " "@);
            assert(s =~= w + (seq![' '] + tail));
            assert forall|k: int| 0 <= k < more.len() implies plain_word(#[trigger] more[k]) by {
                assert(more[k] == parts[k + 1]);
            }
            lemma_words_of_joined(more);
            let n = w.len() as int;
            assert(s[0] == w[0]);
            assert(trimmed_start(s) == s);
            assert(s[n] == ' ');
            assert forall|i: int| 0 <= i < n implies !whitespace(#[trigger] s[i]) by {
                assert(s[i] == w[i]);
            }
            lemma_word_len_at(s, n);
            assert(s.take(n) =~= w);
            let rest = s.skip(n);
            assert(rest =~= seq![' '] + tail);
            assert(rest[0] == ' ');
            assert(rest.skip(1) =~= tail);
            assert(trimmed_start(rest) == trimmed_start(tail));
            assert(words(rest) == words(tail));
            assert(words(s) =~= seq![w] + more);
            assert(seq![w] + more =~= parts);
        }
    }
}

/// A word ends where white space or the text's end is and none was before.
proof fn lemma_word_len_at(s: Seq<char>, n: int)
    requires
        0 <= n <= s.len(),
        n < s.len() ==> whitespace(s[n]),
        forall|i: int| 0 <= i < n ==> !whitespace(#[trigger] s[i]),
    ensures
        word_len(s) == n,
{
    lemma_word_len(s);
    if word_len(s) < n {
        assert(whitespace(s[word_len(s) as int]));
    }
    if word_len(s) > n {
        assert(!whitespace(s[n]));
    }
}

/// `s` with its ASCII capitals made small.
pub open spec fn lowered(s: Seq<char>) -> Seq<char> {
    s.map_values(|c: char| lowered_char(c))
}

pub fn to_lower(s: &str) -> (r: String)
    ensures
        r@ == lowered(s@),
{
    let v = chars_of(s);
    let mut r = String::new();
    let mut i: usize = 0;
    while i < v.len()
        invariant
            i <= v@.len(),
            r@.len() == i,
            forall|j: int| 0 <= j < i ==> r@[j] == lowered_char(v@[j]),
        decreases v@.len() - i,
    {
        r.push(lower_char(v[i]));
        i = i + 1;
    }
    assert(r@ =~= lowered(s@));
    r
}

// ---------------------------------------------------------------------------
// Order
// ---------------------------------------------------------------------------

/// The order of texts: by the first character in which they differ, and a
/// prefix before what it begins.
pub open spec fn before(a: Seq<char>, b: Seq<char>) -> bool
    decreases a.len(),
{
    if b.len() == 0 {
        false
    } else if a.len() == 0 {
        true
    } else if a[0] != b[0] {
        a[0] < b[0]
    } else {
        before(a.skip(1), b.skip(1))
    }
}

/// The first character in which two texts differ decides.
pub proof fn lemma_before_at(a: Seq<char>, b: Seq<char>, i: int)
    requires
        0 <= i < a.len(),
        i < b.len(),
        forall|k: int| 0 <= k < i ==> a[k] == b[k],
        a[i] < b[i],
    ensures
        before(a, b),
    decreases i,
{
    if i > 0 {
        assert(a[0] == b[0]);
        lemma_before_at(a.skip(1), b.skip(1), i - 1);
    }
}

pub proof fn lemma_before_irreflexive(a: Seq<char>)
    ensures
        !before(a, a),
    decreases a.len(),
{
    if a.len() > 0 {
        lemma_before_irreflexive(a.skip(1));
    }
}

pub proof fn lemma_before_total(a: Seq<char>, b: Seq<char>)
    ensures
        before(a, b) || a == b || before(b, a),
    decreases a.len(),
{
    if a.len() > 0 && b.len() > 0 && a[0] == b[0] {
        lemma_before_total(a.skip(1), b.skip(1));
        if a.skip(1) == b.skip(1) {
            assert(a =~= b) by {
                assert forall|i: int| 0 <= i < a.len() implies a[i] == b[i] by {
                    if i > 0 {
                        assert(a.skip(1)[i - 1] == b.skip(1)[i - 1]);
                    }
                }
                assert(a.skip(1).len() == b.skip(1).len());
            }
        }
    } else if a.len() == 0 && b.len() == 0 {
        assert(a =~= b);
    }
}

pub proof fn lemma_before_transitive(a: Seq<char>, b: Seq<char>, c: Seq<char>)
    requires
        before(a, b),
        before(b, c),
    ensures
        before(a, c),
    decreases a.len(),
{
    if a.len() > 0 && b.len() > 0 && c.len() > 0 && a[0] == b[0] && b[0] == c[0] {
        lemma_before_transitive(a.skip(1), b.skip(1), c.skip(1));
    }
}

pub fn comes_before(a: &str, b: &str) -> (r: bool)
    ensures
        r == before(a@, b@),
{
    let x = chars_of(a);
    let y = chars_of(b);
    let mut i: usize = 0;
    assert(x@.skip(0) =~= x@);
    assert(y@.skip(0) =~= y@);
    while i < x.len() && i < y.len() && x[i] == y[i]
        invariant
            i <= x@.len(),
            i <= y@.len(),
            before(x@, y@) == before(x@.skip(i as int), y@.skip(i as int)),
        decreases x@.len() - i,
    {
        assert(x@.skip(i as int).skip(1) =~= x@.skip(i + 1));
        assert(y@.skip(i as int).skip(1) =~= y@.skip(i + 1));
        i = i + 1;
    }
    if i >= y.len() {
        false
    } else if i >= x.len() {
        true
    } else {
        x[i] < y[i]
    }
}

// ---------------------------------------------------------------------------
// Numbers
// ---------------------------------------------------------------------------

pub open spec fn digit(d: nat) -> char {
    (48 + d) as char
}

/// `n` in decimal notation.
pub open spec fn decimal(n: nat) -> Seq<char>
    decreases n,
{
    if n < 10 {
        seq![digit(n)]
    } else {
        decimal(n / 10).push(digit(n % 10))
    }
}

fn digit_char(d: u8) -> (r: char)
    requires
        d < 10,
    ensures
        r == digit(d as nat),
{
    (48 + d) as char
}

pub fn decimal_text(n: u128) -> (r: String)
    ensures
        r@ == decimal(n as nat),
    decreases n,
{
    if n < 10 {
        let mut r = String::new();
        r.push(digit_char(n as u8));
        assert(r@ =~= decimal(n as nat));
        r
    } else {
        let mut r = decimal_text(n / 10);
        r.push(digit_char((n % 10) as u8));
        r
    }
}

/// The number that a row of decimal digits stands for.
pub open spec fn digits_value(s: Seq<char>) -> nat
    decreases s.len(),
{
    if s.len() == 0 {
        0
    } else {
        (digits_value(s.drop_last()) * 10 + (s.last() as u32 - 48)) as nat
    }
}

pub open spec fn all_digits(s: Seq<char>) -> bool {
    s.len() > 0 && forall|i: int| 0 <= i < s.len() ==> ascii_digit(#[trigger] s[i])
}

/// What a sign may precede: `s` without one leading `+`.
pub open spec fn without_plus(s: Seq<char>) -> Seq<char> {
    if s.len() > 0 && s[0] == '+' {
        s.skip(1)
    } else {
        s
    }
}

/// The number below 2^64 that `s` spells: decimal digits, after a `+` or not.
pub open spec fn parsed_u64(s: Seq<char>) -> Option<u64> {
    let t = without_plus(s);
    if all_digits(t) && digits_value(t) <= u64::MAX {
        Some(digits_value(t) as u64)
    } else {
        None
    }
}

proof fn lemma_digits_value_grows(s: Seq<char>, i: int)
    requires
        all_digits(s),
        0 <= i <= s.len(),
    ensures
        digits_value(s.take(i)) <= digits_value(s),
    decreases s.len() - i,
{
    if i < s.len() {
        if i + 1 <= s.len() {
            lemma_digits_value_grows(s, i + 1);
        }
        let t = s.take(i + 1);
        assert(t.drop_last() =~= s.take(i));
        assert(t.last() == s[i]);
        assert(ascii_digit(s[i]));
    } else {
        assert(s.take(i) =~= s);
    }
}

pub fn parse_u64(s: &str) -> (r: Option<u64>)
    ensures
        r == parsed_u64(s@),
{
    let v = chars_of(s);
    let from: usize = if v.len() > 0 && v[0] == '+' {
        1
    } else {
        0
    };
    let ghost t = without_plus(s@);
    assert(t =~= v@.skip(from as int));
    if from == v.len() {
        return None;
    }
    let mut n: u64 = 0;
    let mut i: usize = from;
    while i < v.len()
        invariant
            from <= i <= v@.len(),
            from < v@.len(),
            t == v@.skip(from as int),
            t == without_plus(s@),
            v@ == s@,
            n == digits_value(t.take(i - from)),
            forall|j: int| 0 <= j < i - from ==> ascii_digit(#[trigger] t[j]),
        decreases v@.len() - i,
    {
        let c = v[i];
        assert(t[i - from] == c);
        if !is_ascii_digit(c) {
            return None;
        }
        let d: u64 = (c as u32 - 48) as u64;
        let ghost k = i - from;
        proof {
            assert(t.take(k + 1).drop_last() =~= t.take(k));
            assert(t.take(k + 1).last() == c);
        }
        if n > 1844674407370955161 || (n == 1844674407370955161 && d > 5) {
            proof {
                if all_digits(t) {
                    lemma_digits_value_grows(t, k + 1);
                }
            }
            return None;
        }
        n = n * 10 + d;
        i = i + 1;
    }
    assert(t.take(i - from) =~= t);
    Some(n)
}

/// Decimal notation holds digits only and reads back as the number.
pub proof fn lemma_decimal_value(n: nat)
    ensures
        all_digits(decimal(n)),
        digits_value(decimal(n)) == n,
    decreases n,
{
    if n < 10 {
        let s = decimal(n);
        assert(s.last() == digit(n));
        assert(s.drop_last() =~= Seq::<char>::empty());
        assert(digits_value(s.drop_last()) == 0);
    } else {
        lemma_decimal_value(n / 10);
        let s = decimal(n);
        let p = decimal(n / 10);
        assert(s.drop_last() =~= p);
        assert(s.last() == digit(n % 10));
        assert forall|i: int| 0 <= i < s.len() implies ascii_digit(#[trigger] s[i]) by {
            if i < p.len() {
                assert(s[i] == p[i]);
            }
        }
    }
}

/// A number written in decimal notation is parsed back to itself.
pub proof fn law_decimal_round_trip(n: u64)
    ensures
        parsed_u64(decimal(n as nat)) == Some(n),
{
    lemma_decimal_value(n as nat);
    let s = decimal(n as nat);
    assert(ascii_digit(s[0]));
    assert(without_plus(s) == s);
}

// ---------------------------------------------------------------------------
// Length in bytes
// ---------------------------------------------------------------------------

/// The number of bytes of `c` in UTF-8.
pub open spec fn utf8_width(c: char) -> nat {
    let n = c as u32;
    if n < 0x80 {
        1
    } else if n < 0x800 {
        2
    } else if n < 0x10000 {
        3
    } else {
        4
    }
}

/// The number of bytes of `s` in UTF-8.
pub open spec fn utf8_len(s: Seq<char>) -> nat
    decreases s.len(),
{
    if s.len() == 0 {
        0
    } else {
        utf8_width(s[0]) + utf8_len(s.skip(1))
    }
}

pub proof fn lemma_utf8_len_concat(a: Seq<char>, b: Seq<char>)
    ensures
        utf8_len(a + b) == utf8_len(a) + utf8_len(b),
    decreases a.len(),
{
    if a.len() > 0 {
        lemma_utf8_len_concat(a.skip(1), b);
        assert((a + b).skip(1) =~= a.skip(1) + b);
        assert((a + b)[0] == a[0]);
    } else {
        assert(a + b =~= b);
    }
}

/// A part of a text has no more bytes than the whole.
pub proof fn lemma_utf8_len_part(s: Seq<char>, from: int, to: int)
    requires
        0 <= from <= to <= s.len(),
    ensures
        utf8_len(s.subrange(from, to)) <= utf8_len(s),
{
    let part = s.subrange(from, to);
    lemma_utf8_len_concat(s.take(from), part);
    lemma_utf8_len_concat(s.take(from) + part, s.skip(to));
    assert(s.take(from) + part + s.skip(to) =~= s);
}

/// The largest number of leading characters whose bytes number at most
/// `limit`.
pub open spec fn fitting(s: Seq<char>, limit: nat) -> nat
    decreases s.len(),
{
    if s.len() == 0 || utf8_width(s[0]) > limit {
        0
    } else {
        1 + fitting(s.skip(1), (limit - utf8_width(s[0])) as nat)
    }
}

pub proof fn lemma_fitting(s: Seq<char>, limit: nat)
    ensures
        fitting(s, limit) <= s.len(),
        fitting(s, limit) == s.len() <==> utf8_len(s) <= limit,
        utf8_len(s.take(fitting(s, limit) as int)) <= limit,
    decreases s.len(),
{
    if s.len() > 0 && utf8_width(s[0]) <= limit {
        let t = s.skip(1);
        lemma_fitting(t, (limit - utf8_width(s[0])) as nat);
        let k = fitting(s, limit) as int;
        assert(s.take(k)[0] == s[0]);
        assert(s.take(k).skip(1) =~= t.take(k - 1));
    } else {
        assert(s.take(0).len() == 0);
    }
}

/// The number of leading characters of `v` that fit into `limit` bytes.
pub fn count_fitting(v: &Vec<char>, limit: u32) -> (r: usize)
    ensures
        r == fitting(v@, limit as nat),
        r <= v@.len(),
{
    let mut left: u32 = limit;
    let mut i: usize = 0;
    assert(v@.skip(0) =~= v@);
    while i < v.len()
        invariant
            i <= v@.len(),
            fitting(v@, limit as nat) == i + fitting(v@.skip(i as int), left as nat),
        decreases v@.len() - i,
    {
        let n: u32 = v[i] as u32;
        let w: u32 = if n < 0x80 {
            1
        } else if n < 0x800 {
            2
        } else if n < 0x10000 {
            3
        } else {
            4
        };
        let ghost rest = v@.skip(i as int);
        assert(rest[0] == v@[i as int]);
        if w > left {
            return i;
        }
        assert(rest.skip(1) =~= v@.skip(i + 1));
        left = left - w;
        i = i + 1;
    }
    i
}

/// Of the ASCII characters the space, the tab and the line breaks are white
/// space, and no visible one is.
pub proof fn law_ascii_whitespace(c: char)
    requires
        (c as u32) < 128,
    ensures
        whitespace(c) <==> c == ' ' || c == '\t' || c == '\n' || c == '\r' || c as u32 == 11
            || c as u32 == 12,
{
}

/// Lowering keeps the number of characters, turns each ASCII capital into its
/// small letter, and leaves every other character.
pub proof fn law_lowering(s: Seq<char>, i: int)
    requires
        0 <= i < s.len(),
    ensures
        lowered(s).len() == s.len(),
        'A' <= s[i] <= 'Z' ==> lowered(s)[i] as int - 'a' as int == s[i] as int - 'A' as int,
        !('A' <= s[i] <= 'Z') ==> lowered(s)[i] == s[i],
        lowered(lowered(s)) == lowered(s),
{
    assert(lowered(lowered(s)) =~= lowered(s));
}

/// A number is written with its last digit behind the digits of its tens, and
/// without leading zeros.
pub proof fn law_decimal_digits(n: nat, d: nat)
    requires
        d < 10,
    ensures
        decimal(d).len() == 1 && decimal(d)[0] as int == '0' as int + d,
        n > 0 ==> decimal(n * 10 + d) == decimal(n) + decimal(d),
{
    if n > 0 {
        assert((n * 10 + d) / 10 == n && (n * 10 + d) % 10 == d);
        assert(decimal(n * 10 + d) =~= decimal(n) + decimal(d));
    }
}

/// A text is parsed as a number only where it is digits, perhaps behind a plus.
pub proof fn law_only_digits_are_numbers(s: Seq<char>, i: int)
    requires
        0 <= i < s.len(),
        !('0' <= s[i] <= '9'),
        i > 0 || s[i] != '+',
    ensures
        parsed_u64(s) is None,
        parsed_u64(Seq::empty()) is None,
{
    let t = without_plus(s);
    if t != s {
        assert(t[i - 1] == s[i]);
    }
    if all_digits(t) {
        if t == s {
            assert(ascii_digit(t[i]));
        } else {
            assert(ascii_digit(t[i - 1]));
        }
    }
}

/// The length of a text in UTF-8 adds up over its characters: one byte for
/// ASCII, and up to four for others.
pub proof fn law_utf8_lengths(s: Seq<char>, c: char)
    ensures
        utf8_len(s + seq![c]) == utf8_len(s) + (if (c as u32) < 0x80 {
            1nat
        } else if (c as u32) < 0x800 {
            2
        } else if (c as u32) < 0x10000 {
            3
        } else {
            4
        }),
        utf8_len(Seq::empty()) == 0,
{
    lemma_utf8_len_concat(s, seq![c]);
    reveal_with_fuel(utf8_len, 2);
    assert(seq![c].skip(1) =~= Seq::<char>::empty());
}

/// A line ends at the first line break, and the lines after it follow. A text
/// without a line break is one line.
pub proof fn law_lines(l: Seq<char>, rest: Seq<char>)
    requires
        forall|i: int| 0 <= i < l.len() ==> #[trigger] l[i] != '\n',
    ensures
        lines(l + seq!['\n'] + rest) == seq![without_cr(l)] + lines(rest),
        l.len() > 0 ==> lines(l) == seq![l],
        lines(Seq::empty()).len() == 0,
{
    let s = l + seq!['\n'] + rest;
    assert forall|i: int| 0 <= i < l.len() implies #[trigger] s[i] != '\n' by {
        assert(s[i] == l[i]);
    }
    assert(s[l.len() as int] == '\n');
    lemma_first_of_at(s, '\n', l.len() as int);
    assert(s.take(l.len() as int) =~= l);
    assert(s.skip(l.len() as int + 1) =~= rest);
    lemma_first_of(l, '\n');
}

/// Parts are joined in their order with the separator between them, and
/// nowhere else.
pub proof fn law_joining(parts: Seq<Seq<char>>, last: Seq<char>, sep: Seq<char>)
    ensures
        parts.len() > 0 ==> joined(parts.push(last), sep) == joined(parts, sep) + sep + last,
        parts.len() == 0 ==> joined(parts.push(last), sep) == last,
        joined(Seq::empty(), sep).len() == 0,
{
    assert(parts.push(last).drop_last() =~= parts);
}

/// A text comes before those that it begins, and before one that has the
/// greater character where the two first differ.
pub proof fn law_order_of_texts(front: Seq<char>, a: Seq<char>, b: Seq<char>)
    requires
        b.len() > 0,
        a.len() == 0 || a[0] < b[0],
    ensures
        before(front + a, front + b),
        !before(front + b, front + a),
    decreases front.len(),
{
    let x = front + a;
    let y = front + b;
    if front.len() > 0 {
        law_order_of_texts(front.skip(1), a, b);
        assert(x[0] == y[0]);
        assert(x.skip(1) =~= front.skip(1) + a);
        assert(y.skip(1) =~= front.skip(1) + b);
    } else {
        assert(x =~= a);
        assert(y =~= b);
    }
}

} // verus!
