//! Text as sequences of characters: the splitting, trimming and number reading that the
//! parsers of this crate are made of, each stated over `Seq<char>`.

use vstd::prelude::*;
use vstd::string::*;
use vstd::utf8::{decode_utf8, encode_utf8, encode_utf8_decode_utf8, valid_utf8};

verus! {

/// `String::push` appends one character to the end of the string.
pub assume_specification[ String::push ](s: &mut String, c: char)
    ensures
        final(s)@ == old(s)@.push(c),
;

/// What `String::from_utf8_lossy` makes of bytes that are not UTF-8.
pub uninterp spec fn lossy_text(bytes: Seq<u8>) -> Seq<char>;

/// The text a run of bytes is read as: what it encodes where it is UTF-8, and otherwise what
/// the lossy conversion makes of it.
pub open spec fn text_from(bytes: Seq<u8>) -> Seq<char> {
    if valid_utf8(bytes) {
        decode_utf8(bytes)
    } else {
        lossy_text(bytes)
    }
}

/// `String::from_utf8_lossy`, taken into an owned string. Bytes that are UTF-8 come out as
/// the text they encode; what anything else becomes is only named here.
#[verifier::external_body]
pub(crate) fn text_of(bytes: &[u8]) -> (s: String)
    ensures
        valid_utf8(bytes@) ==> s@ == decode_utf8(bytes@),
        !valid_utf8(bytes@) ==> s@ == lossy_text(bytes@),
{
    String::from_utf8_lossy(bytes).into_owned()
}

/// What `str::to_lowercase` makes of a text.
pub uninterp spec fn lowercase_text(s: Seq<char>) -> Seq<char>;

/// `str::to_lowercase`. Of a text that is all ASCII it lowers the letters `A` to `Z` and
/// leaves the rest; what it does to other scripts is only named here.
#[verifier::external_body]
pub(crate) fn lowercase(s: &str) -> (r: String)
    ensures
        r@ == lowercase_text(s@),
        s.is_ascii() ==> r@ == ascii_lowercase(s@),
{
    s.to_lowercase()
}

/// The characters of a text, in order.
pub fn chars_of(s: &str) -> (v: Vec<char>)
    ensures
        v@ == s@,
{
    let mut v: Vec<char> = Vec::new();
    for c in it: s.chars()
        invariant
            v@ == s@.take(it.index()),
            it.seq() == s@,
    {
        v.push(c);
        assert(v@ == s@.take(it.index() + 1));
    }
    assert(s@.take(s@.len() as int) == s@);
    v
}

/// The text a run of characters spells.
pub fn string_of(v: &[char]) -> (s: String)
    ensures
        s@ == v@,
{
    let mut s = String::new();
    for i in 0..v.len()
        invariant
            s@ == v@.take(i as int),
    {
        s.push(v[i]);
        assert(v@.take(i + 1) == v@.take(i as int).push(v@[i as int]));
    }
    assert(v@.take(v@.len() as int) == v@);
    s
}

/// The part of a run of characters from `from` up to `to`, as text.
pub fn piece(v: &[char], from: usize, to: usize) -> (s: String)
    requires
        from <= to <= v@.len(),
    ensures
        s@ == v@.subrange(from as int, to as int),
{
    let part = vstd::slice::slice_subrange(v, from, to);
    string_of(part)
}

/// Whether two texts are the same text.
pub fn same(a: &str, b: &str) -> (r: bool)
    ensures
        r == (a@ == b@),
{
    let x = a.as_bytes();
    let y = b.as_bytes();
    proof {
        encode_utf8_decode_utf8(a@);
        encode_utf8_decode_utf8(b@);
    }
    if x.len() != y.len() {
        return false;
    }
    for i in 0..x.len()
        invariant
            x@.len() == y@.len(),
            x@ == encode_utf8(a@),
            y@ == encode_utf8(b@),
            forall|j: int| 0 <= j < i ==> x@[j] == y@[j],
    {
        if x[i] != y[i] {
            return false;
        }
    }
    assert(x@ == y@);
    true
}

/// Whether a text that may be missing is this one.
pub fn same_opt(a: &Option<String>, b: &str) -> (r: bool)
    ensures
        r == (a matches Some(s) && s@ == b@),
{
    match a {
        Some(s) => same(s.as_str(), b),
        None => false,
    }
}

/// A copy of a text.
pub fn owned(s: &str) -> (r: String)
    ensures
        r@ == s@,
{
    s.to_owned()
}

/// The characters Unicode calls white space.
pub open spec fn is_space(c: char) -> bool {
    let n = c as u32;
    ||| 0x09 <= n <= 0x0d
    ||| n == 0x20
    ||| n == 0x85
    ||| n == 0xa0
    ||| n == 0x1680
    ||| 0x2000 <= n <= 0x200a
    ||| n == 0x2028
    ||| n == 0x2029
    ||| n == 0x202f
    ||| n == 0x205f
    ||| n == 0x3000
}

pub fn space(c: char) -> (r: bool)
    ensures
        r == is_space(c),
{
    let n: u32 = c as u32;
    (0x09 <= n && n <= 0x0d) || n == 0x20 || n == 0x85 || n == 0xa0 || n == 0x1680 || (0x2000 <= n
        && n <= 0x200a) || n == 0x2028 || n == 0x2029 || n == 0x202f || n == 0x205f || n == 0x3000
}

/// A text without the white space it starts with.
pub open spec fn trimmed_start(s: Seq<char>) -> Seq<char>
    decreases s.len(),
{
    if s.len() > 0 && is_space(s[0]) {
        trimmed_start(s.drop_first())
    } else {
        s
    }
}

/// A text without the white space it ends with.
pub open spec fn trimmed_end(s: Seq<char>) -> Seq<char>
    decreases s.len(),
{
    if s.len() > 0 && is_space(s.last()) {
        trimmed_end(s.drop_last())
    } else {
        s
    }
}

/// A text without the white space around it.
pub open spec fn trimmed(s: Seq<char>) -> Seq<char> {
    trimmed_end(trimmed_start(s))
}

/// The text without the white space around it.
pub fn trim(s: &str) -> (r: String)
    ensures
        r@ == trimmed(s@),
{
    let v = chars_of(s);
    let mut from: usize = 0;
    assert(v@.skip(0) == s@);
    while from < v.len() && space(v[from])
        invariant
            from <= v@.len(),
            v@ == s@,
            trimmed_start(s@) == trimmed_start(v@.skip(from as int)),
        decreases v@.len() - from,
    {
        assert(v@.skip(from as int).drop_first() == v@.skip(from + 1));
        from = from + 1;
    }
    proof {
        assert(trimmed_start(v@.skip(from as int)) == v@.skip(from as int));
    }
    let mut to: usize = v.len();
    assert(v@.subrange(from as int, to as int) == v@.skip(from as int));
    while to > from && space(v[to - 1])
        invariant
            from <= to <= v@.len(),
            trimmed(s@) == trimmed_end(v@.subrange(from as int, to as int)),
        decreases to,
    {
        assert(v@.subrange(from as int, to as int).drop_last() == v@.subrange(
            from as int,
            to - 1,
        ));
        to = to - 1;
    }
    piece(v.as_slice(), from, to)
}

/// Whether there is nothing in a text but white space.
pub open spec fn is_blank(s: Seq<char>) -> bool {
    forall|i: int| 0 <= i < s.len() ==> is_space(#[trigger] s[i])
}

pub fn blank(s: &str) -> (r: bool)
    ensures
        r == is_blank(s@),
{
    let v = chars_of(s);
    for i in 0..v.len()
        invariant
            v@ == s@,
            forall|j: int| 0 <= j < i ==> is_space(#[trigger] s@[j]),
    {
        if !space(v[i]) {
            assert(!is_space(s@[i as int]));
            return false;
        }
    }
    true
}

/// The lower-case form of one ASCII letter; any other character is itself.
pub open spec fn ascii_lower(c: char) -> char {
    if 'A' <= c <= 'Z' {
        ((c as u32 + 32) as u32) as char
    } else {
        c
    }
}

/// A text with its ASCII letters in lower case.
pub open spec fn ascii_lowercase(s: Seq<char>) -> Seq<char> {
    s.map_values(|c: char| ascii_lower(c))
}

pub fn lower(c: char) -> (r: char)
    ensures
        r == ascii_lower(c),
{
    if 'A' <= c && c <= 'Z' {
        let small: u8 = (c as u8) + 32;
        small as char
    } else {
        c
    }
}

/// Whether two texts are the same but for the case of their ASCII letters.
pub open spec fn same_ignoring_case(a: Seq<char>, b: Seq<char>) -> bool {
    ascii_lowercase(a) == ascii_lowercase(b)
}

pub fn eq_ignore_ascii_case(a: &str, b: &str) -> (r: bool)
    ensures
        r == same_ignoring_case(a@, b@),
{
    let x = chars_of(a);
    let y = chars_of(b);
    let ghost p = ascii_lowercase(a@);
    let ghost q = ascii_lowercase(b@);
    if x.len() != y.len() {
        assert(p.len() != q.len());
        return false;
    }
    for i in 0..x.len()
        invariant
            x@ == a@,
            y@ == b@,
            x@.len() == y@.len(),
            p == ascii_lowercase(a@),
            q == ascii_lowercase(b@),
            forall|j: int| 0 <= j < i ==> #[trigger] p[j] == q[j],
    {
        if lower(x[i]) != lower(y[i]) {
            assert(p[i as int] != q[i as int]);
            return false;
        }
        assert(p[i as int] == q[i as int]);
    }
    assert(p == q);
    true
}

/// The text with its ASCII letters in lower case.
pub fn to_ascii_lowercase(s: &str) -> (r: String)
    ensures
        r@ == ascii_lowercase(s@),
{
    let v = chars_of(s);
    let mut out: Vec<char> = Vec::new();
    for i in 0..v.len()
        invariant
            v@ == s@,
            out@ == ascii_lowercase(s@).take(i as int),
    {
        out.push(lower(v[i]));
        assert(out@ == ascii_lowercase(s@).take(i + 1));
    }
    assert(ascii_lowercase(s@).take(s@.len() as int) == ascii_lowercase(s@));
    string_of(out.as_slice())
}

/// Whether `needle` stands in `s` at `at`.
pub open spec fn stands_at(s: Seq<char>, needle: Seq<char>, at: int) -> bool {
    &&& 0 <= at
    &&& at + needle.len() <= s.len()
    &&& s.subrange(at, at + needle.len()) == needle
}

/// Whether `needle` stands anywhere in `s`.
pub open spec fn has_text(s: Seq<char>, needle: Seq<char>) -> bool {
    exists|at: int| #[trigger] stands_at(s, needle, at)
}

fn matches_at(v: &[char], n: &[char], at: usize) -> (r: bool)
    requires
        at <= v@.len(),
    ensures
        r == stands_at(v@, n@, at as int),
{
    if n.len() > v.len() - at {
        return false;
    }
    let total: usize = v.len();
    for i in 0..n.len()
        invariant
            total == v@.len(),
            at + n@.len() <= total,
            forall|j: int| 0 <= j < i ==> v@[at + j] == #[trigger] n@[j],
    {
        if v[at + i] != n[i] {
            assert(v@.subrange(at as int, at + n@.len())[i as int] != n@[i as int]);
            return false;
        }
    }
    assert(v@.subrange(at as int, at + n@.len()) == n@);
    true
}

/// Whether `needle` stands anywhere in the text.
pub fn contains(s: &str, needle: &str) -> (r: bool)
    ensures
        r == has_text(s@, needle@),
{
    let v = chars_of(s);
    let n = chars_of(needle);
    let mut at: usize = 0;
    loop
        invariant
            v@ == s@,
            n@ == needle@,
            at <= v@.len(),
            forall|j: int| 0 <= j < at ==> !#[trigger] stands_at(s@, needle@, j),
        decreases v@.len() - at,
    {
        if matches_at(v.as_slice(), n.as_slice(), at) {
            return true;
        }
        if at == v.len() {
            assert forall|j: int| !#[trigger] stands_at(s@, needle@, j) by {
                if j > at {
                    assert(j + needle@.len() > s@.len());
                }
            }
            return false;
        }
        at = at + 1;
    }
}

/// Whether the text starts with `prefix`.
pub fn starts_with(s: &str, prefix: &str) -> (r: bool)
    ensures
        r == stands_at(s@, prefix@, 0),
{
    let v = chars_of(s);
    let n = chars_of(prefix);
    matches_at(v.as_slice(), n.as_slice(), 0)
}

/// What follows `prefix` in a text that starts with it.
pub open spec fn after_prefix(s: Seq<char>, prefix: Seq<char>) -> Option<Seq<char>> {
    if stands_at(s, prefix, 0) {
        Some(s.skip(prefix.len() as int))
    } else {
        None
    }
}

pub fn strip_prefix(s: &str, prefix: &str) -> (r: Option<String>)
    ensures
        match r {
            Some(t) => after_prefix(s@, prefix@) == Some(t@),
            None => after_prefix(s@, prefix@) is None,
        },
{
    let v = chars_of(s);
    let n = chars_of(prefix);
    if matches_at(v.as_slice(), n.as_slice(), 0) {
        assert(v@.subrange(n@.len() as int, v@.len() as int) == v@.skip(n@.len() as int));
        Some(piece(v.as_slice(), n.len(), v.len()))
    } else {
        None
    }
}

/// What precedes the last character of a text that ends with `last`.
pub open spec fn before_last(s: Seq<char>, last: char) -> Option<Seq<char>> {
    if s.len() > 0 && s.last() == last {
        Some(s.drop_last())
    } else {
        None
    }
}

pub fn strip_last(s: &str, last: char) -> (r: Option<String>)
    ensures
        match r {
            Some(t) => before_last(s@, last) == Some(t@),
            None => before_last(s@, last) is None,
        },
{
    let v = chars_of(s);
    if v.len() > 0 && v[v.len() - 1] == last {
        assert(v@.subrange(0, v@.len() - 1) == v@.drop_last());
        Some(piece(v.as_slice(), 0, v.len() - 1))
    } else {
        None
    }
}

/// Where a character first stands in a text, or the text's length when it does not.
pub open spec fn find(s: Seq<char>, c: char) -> nat
    decreases s.len(),
{
    if s.len() == 0 || s[0] == c {
        0
    } else {
        1 + find(s.drop_first(), c)
    }
}

pub proof fn lemma_find(s: Seq<char>, c: char)
    ensures
        find(s, c) <= s.len(),
        find(s, c) < s.len() ==> s[find(s, c) as int] == c,
        forall|i: int| 0 <= i < find(s, c) ==> s[i] != c,
    decreases s.len(),
{
    if s.len() == 0 || s[0] == c {
    } else {
        lemma_find(s.drop_first(), c);
        assert forall|i: int| 0 <= i < find(s, c) implies s[i] != c by {
            if i > 0 {
                assert(s.drop_first()[i - 1] == s[i]);
            }
        }
    }
}

proof fn lemma_find_from(s: Seq<char>, c: char, at: int)
    requires
        0 <= at <= s.len(),
        forall|i: int| 0 <= i < at ==> s[i] != c,
        at == s.len() || s[at] == c,
    ensures
        find(s, c) == at,
{
    lemma_find(s, c);
    if find(s, c) < at {
        assert(s[find(s, c) as int] == c);
    }
}

fn find_char(v: &[char], c: char) -> (at: usize)
    ensures
        at == find(v@, c),
        at <= v@.len(),
{
    let mut at: usize = 0;
    while at < v.len() && v[at] != c
        invariant
            at <= v@.len(),
            forall|i: int| 0 <= i < at ==> v@[i] != c,
        decreases v@.len() - at,
    {
        at = at + 1;
    }
    proof {
        lemma_find_from(v@, c, at as int);
    }
    at
}

/// A text parted at the first `c` in it.
pub open spec fn parted(s: Seq<char>, c: char) -> Option<(Seq<char>, Seq<char>)> {
    let at = find(s, c) as int;
    if at < s.len() {
        Some((s.take(at), s.skip(at + 1)))
    } else {
        None
    }
}

pub fn split_once(s: &str, c: char) -> (r: Option<(String, String)>)
    ensures
        match r {
            Some(t) => parted(s@, c) == Some((t.0@, t.1@)),
            None => parted(s@, c) is None,
        },
{
    let v = chars_of(s);
    let at = find_char(v.as_slice(), c);
    if at < v.len() {
        assert(v@.subrange(0, at as int) == v@.take(at as int));
        assert(v@.subrange(at + 1, v@.len() as int) == v@.skip(at + 1));
        Some((piece(v.as_slice(), 0, at), piece(v.as_slice(), at + 1, v.len())))
    } else {
        None
    }
}

/// The pieces of a text between the `c`s in it; a text without one is one piece.
pub open spec fn pieces(s: Seq<char>, c: char) -> Seq<Seq<char>>
    decreases s.len(),
{
    match parted(s, c) {
        None => seq![s],
        Some((head, tail)) => if tail.len() < s.len() {
            seq![head] + pieces(tail, c)
        } else {
            seq![head]
        },
    }
}

/// The views of a list of texts.
pub open spec fn texts(v: Seq<String>) -> Seq<Seq<char>> {
    Seq::new(v.len(), |i: int| v[i]@)
}

pub fn split(s: &str, c: char) -> (r: Vec<String>)
    ensures
        texts(r@) == pieces(s@, c),
{
    let mut out: Vec<String> = Vec::new();
    let mut rest: String = owned(s);
    loop
        invariant
            pieces(s@, c) == texts(out@) + pieces(rest@, c),
        decreases rest@.len(),
    {
        let ghost before = rest@;
        let ghost done = texts(out@);
        proof {
            lemma_find(before, c);
        }
        match split_once(rest.as_str(), c) {
            None => {
                out.push(rest);
                assert(texts(out@) == done + seq![before]);
                return out;
            },
            Some((head, tail)) => {
                out.push(head);
                assert(texts(out@) == done.push(head@));
                assert(done + (seq![head@] + pieces(tail@, c)) == done.push(head@) + pieces(
                    tail@,
                    c,
                ));
                rest = tail;
            },
        }
    }
}

/// A line without the carriage return it may end with.
pub open spec fn without_return(s: Seq<char>) -> Seq<char> {
    if s.len() > 0 && s.last() == '\r' {
        s.drop_last()
    } else {
        s
    }
}

/// The lines of a text: what stands between its line feeds, each without a carriage return
/// at its end, and without the empty piece after a final line feed.
pub open spec fn lines_of(s: Seq<char>) -> Seq<Seq<char>>
    decreases s.len(),
{
    if s.len() == 0 {
        Seq::empty()
    } else {
        match parted(s, '\n') {
            // A carriage return only goes with the line feed after it.
            None => seq![s],
            Some((head, tail)) => if tail.len() < s.len() {
                seq![without_return(head)] + lines_of(tail)
            } else {
                Seq::empty()
            },
        }
    }
}

pub fn lines(s: &str) -> (r: Vec<String>)
    ensures
        texts(r@) == lines_of(s@),
{
    let mut out: Vec<String> = Vec::new();
    let mut rest: String = owned(s);
    assert(lines_of(s@) == texts(out@) + lines_of(rest@));
    while !rest.as_str().is_empty()
        invariant
            lines_of(s@) == texts(out@) + lines_of(rest@),
        ensures
            lines_of(s@) == texts(out@),
        decreases rest@.len(),
    {
        let ghost before = rest@;
        let ghost done = texts(out@);
        proof {
            lemma_find(before, '\n');
        }
        match split_once(rest.as_str(), '\n') {
            None => {
                out.push(rest);
                assert(texts(out@) == done + seq![before]);
                return out;
            },
            Some((head, tail)) => {
                let line = match strip_last(head.as_str(), '\r') {
                    Some(short) => short,
                    None => head,
                };
                out.push(line);
                assert(texts(out@) == done.push(line@));
                assert(done + (seq![line@] + lines_of(tail@)) == done.push(line@) + lines_of(
                    tail@,
                ));
                rest = tail;
            },
        }
    }
    out
}

/// The length of the run of non-space a text starts with.
pub open spec fn word_len(s: Seq<char>) -> nat
    decreases s.len(),
{
    if s.len() == 0 || is_space(s[0]) {
        0
    } else {
        1 + word_len(s.drop_first())
    }
}

/// The words of a text: its longest runs without white space.
pub open spec fn words_of(s: Seq<char>) -> Seq<Seq<char>>
    decreases s.len(),
{
    if s.len() == 0 {
        Seq::empty()
    } else if is_space(s[0]) {
        words_of(s.drop_first())
    } else {
        let n = word_len(s) as int;
        if 0 < n <= s.len() {
            seq![s.take(n)] + words_of(s.skip(n))
        } else {
            Seq::empty()
        }
    }
}

proof fn lemma_word_len(s: Seq<char>, n: int)
    requires
        0 <= n <= s.len(),
        forall|i: int| 0 <= i < n ==> !is_space(#[trigger] s[i]),
        n == s.len() || is_space(s[n]),
    ensures
        word_len(s) == n,
    decreases s.len(),
{
    if n > 0 {
        let t = s.drop_first();
        assert forall|i: int| 0 <= i < n - 1 implies !is_space(#[trigger] t[i]) by {
            assert(t[i] == s[i + 1]);
        }
        lemma_word_len(t, n - 1);
    }
}

pub fn split_whitespace(s: &str) -> (r: Vec<String>)
    ensures
        texts(r@) == words_of(s@),
{
    let v = chars_of(s);
    let mut out: Vec<String> = Vec::new();
    let mut at: usize = 0;
    assert(v@.skip(0) == s@);
    assert(words_of(s@) == texts(out@) + words_of(v@.skip(at as int)));
    while at < v.len()
        invariant
            at <= v@.len(),
            v@ == s@,
            words_of(s@) == texts(out@) + words_of(v@.skip(at as int)),
        decreases v@.len() - at,
    {
        let ghost rest = v@.skip(at as int);
        if space(v[at]) {
            assert(rest.drop_first() == v@.skip(at + 1));
            at = at + 1;
        } else {
            let mut end: usize = at + 1;
            while end < v.len() && !space(v[end])
                invariant
                    at < end <= v@.len(),
                    rest == v@.skip(at as int),
                    forall|i: int| 0 <= i < end - at ==> !is_space(#[trigger] rest[i]),
                decreases v@.len() - end,
            {
                end = end + 1;
            }
            let ghost n = end - at;
            proof {
                lemma_word_len(rest, n);
                assert(rest.take(n) == v@.subrange(at as int, end as int));
                assert(rest.skip(n) == v@.skip(end as int));
            }
            let ghost done = texts(out@);
            let word = piece(v.as_slice(), at, end);
            out.push(word);
            assert(texts(out@) == done.push(rest.take(n)));
            assert(done + (seq![rest.take(n)] + words_of(rest.skip(n))) == done.push(rest.take(n))
                + words_of(rest.skip(n)));
            at = end;
        }
    }
    assert(v@.skip(at as int).len() == 0);
    assert(texts(out@) + Seq::<Seq<char>>::empty() == texts(out@));
    out
}

/// Whether a character is one of the ten digits.
pub open spec fn is_digit(c: char) -> bool {
    '0' <= c <= '9'
}

/// The number a digit stands for.
pub open spec fn digit_value(c: char) -> nat {
    (c as u32 - '0' as u32) as nat
}

pub fn digit(c: char) -> (r: bool)
    ensures
        r == is_digit(c),
{
    '0' <= c && c <= '9'
}

/// Whether a text is digits and nothing else.
pub open spec fn all_digits(s: Seq<char>) -> bool {
    forall|i: int| 0 <= i < s.len() ==> is_digit(#[trigger] s[i])
}

/// The number a run of digits writes.
pub open spec fn digits_value(s: Seq<char>) -> nat
    decreases s.len(),
{
    if s.len() == 0 {
        0
    } else {
        digits_value(s.drop_last()) * 10 + digit_value(s.last())
    }
}

/// A text without the plus sign it may start with, when something follows the sign.
pub open spec fn unsigned_part(s: Seq<char>) -> Seq<char> {
    if s.len() > 1 && s[0] == '+' {
        s.drop_first()
    } else {
        s
    }
}

/// The natural number a text writes, if it writes one no larger than `most`.
pub open spec fn natural(s: Seq<char>, most: nat) -> Option<nat> {
    let digits = unsigned_part(s);
    if digits.len() > 0 && all_digits(digits) && digits_value(digits) <= most {
        Some(digits_value(digits))
    } else {
        None
    }
}

proof fn lemma_digits_grow(s: Seq<char>, n: int)
    requires
        0 <= n <= s.len(),
    ensures
        digits_value(s.take(n)) <= digits_value(s),
    decreases s.len() - n,
{
    if n < s.len() {
        lemma_digits_grow(s, n + 1);
        assert(s.take(n + 1).drop_last() == s.take(n));
    } else {
        assert(s.take(n) == s);
    }
}

/// The natural number a text writes in decimal, if it fits in 64 bits.
pub fn parse_u64(s: &str) -> (r: Option<u64>)
    ensures
        match r {
            Some(n) => natural(s@, u64::MAX as nat) == Some(n as nat),
            None => natural(s@, u64::MAX as nat) is None,
        },
{
    let v = chars_of(s);
    let from: usize = if v.len() > 1 && v[0] == '+' {
        1
    } else {
        0
    };
    let ghost digits = unsigned_part(s@);
    assert(digits == v@.skip(from as int));
    if v.len() == from {
        return None;
    }
    let mut value: u64 = 0;
    let mut i: usize = from;
    assert(digits.take(0) == Seq::<char>::empty());
    while i < v.len()
        invariant
            from <= i <= v@.len(),
            digits == v@.skip(from as int),
            digits == unsigned_part(s@),
            value == digits_value(digits.take(i - from)),
            forall|j: int| 0 <= j < i - from ==> is_digit(#[trigger] digits[j]),
        decreases v@.len() - i,
    {
        let c = v[i];
        let ghost k = i - from;
        assert(digits[k] == c);
        if !digit(c) {
            return None;
        }
        let d: u64 = ((c as u32) - ('0' as u32)) as u64;
        proof {
            assert(digits.take(k + 1).drop_last() == digits.take(k));
            lemma_digits_grow(digits, k + 1);
        }
        match value.checked_mul(10) {
            None => {
                return None;
            },
            Some(ten) => match ten.checked_add(d) {
                None => {
                    return None;
                },
                Some(sum) => {
                    value = sum;
                },
            },
        }
        i = i + 1;
    }
    assert(digits.take(digits.len() as int) == digits);
    Some(value)
}

/// Two texts, one after the other.
pub fn joined(a: &str, b: &str) -> (r: String)
    ensures
        r@ == a@ + b@,
{
    let mut r = owned(a);
    r.append(b);
    r
}

/// Whether two lists hold the same texts in the same order.
pub fn same_texts(a: &Vec<String>, b: &Vec<String>) -> (r: bool)
    ensures
        r == (texts(a@) == texts(b@)),
{
    if a.len() != b.len() {
        assert(texts(a@).len() != texts(b@).len());
        return false;
    }
    for i in 0..a.len()
        invariant
            a@.len() == b@.len(),
            forall|j: int| 0 <= j < i ==> a@[j]@ == b@[j]@,
    {
        if !same(a[i].as_str(), b[i].as_str()) {
            assert(texts(a@)[i as int] != texts(b@)[i as int]);
            return false;
        }
    }
    assert(texts(a@) =~= texts(b@));
    true
}

/// A copy of a list of texts.
pub fn copy_texts(v: &Vec<String>) -> (r: Vec<String>)
    ensures
        texts(r@) == texts(v@),
{
    let mut out: Vec<String> = Vec::new();
    for i in 0..v.len()
        invariant
            out@.len() == i,
            forall|j: int| 0 <= j < i ==> #[trigger] out@[j]@ == v@[j]@,
    {
        out.push(v[i].clone());
    }
    assert(texts(out@) =~= texts(v@));
    out
}

/// A copy of a text that may be missing.
pub fn copy_text(s: &Option<String>) -> (r: Option<String>)
    ensures
        opt_view(r) == opt_view(*s),
{
    match s {
        Some(t) => Some(t.clone()),
        None => None,
    }
}

/// What a text that may be missing says.
pub open spec fn opt_view(s: Option<String>) -> Option<Seq<char>> {
    match s {
        Some(t) => Some(t@),
        None => None,
    }
}

/// Whether two texts that may be missing are alike.
pub fn same_opts(a: &Option<String>, b: &Option<String>) -> (r: bool)
    ensures
        r == (opt_view(*a) == opt_view(*b)),
{
    match (a, b) {
        (Some(x), Some(y)) => same(x.as_str(), y.as_str()),
        (None, None) => true,
        _ => false,
    }
}

/// A number in decimal.
pub open spec fn decimal(n: nat) -> Seq<char>
    decreases n,
{
    if n < 10 {
        seq![(48 + n) as char]
    } else {
        decimal(n / 10).push((48 + n % 10) as char)
    }
}

/// The text of a number in decimal.
pub fn decimal_of(n: u64) -> (s: String)
    ensures
        s@ == decimal(n as nat),
    decreases n,
{
    let last: u8 = 48 + (n % 10) as u8;
    let digit = last as char;
    let mut s = if n < 10 {
        String::new()
    } else {
        decimal_of(n / 10)
    };
    let ghost before = s@;
    s.push(digit);
    proof {
        assert(digit == (48 + n % 10) as char);
        if n < 10 {
            assert(s@ =~= decimal(n as nat));
        } else {
            assert(s@ =~= decimal((n / 10) as nat).push(digit));
        }
    }
    s
}

/// The length of the run of digits a text starts with.
pub open spec fn digits_len(s: Seq<char>) -> nat
    decreases s.len(),
{
    if s.len() == 0 || !is_digit(s[0]) {
        0
    } else {
        1 + digits_len(s.drop_first())
    }
}

/// Whether this is nothing, or the exponent of a number: an `e`, a sign where there is one,
/// and digits.
pub open spec fn is_exponent(s: Seq<char>) -> bool {
    s.len() == 0 || ((s[0] == 'e' || s[0] == 'E') && {
        let rest = unsigned_number(s.drop_first());
        rest.len() > 0 && all_digits(rest)
    })
}

/// A text without the sign it may start with.
pub open spec fn unsigned_number(s: Seq<char>) -> Seq<char> {
    if s.len() > 0 && (s[0] == '+' || s[0] == '-') {
        s.drop_first()
    } else {
        s
    }
}

/// Whether this is a decimal number without a sign: digits, a point among or around them where
/// there is one, and an exponent where there is one.
pub open spec fn is_decimal(s: Seq<char>) -> bool {
    let whole = digits_len(s) as int;
    let rest = s.skip(whole);
    if rest.len() > 0 && rest[0] == '.' {
        let after = rest.drop_first();
        let fraction = digits_len(after) as int;
        whole + fraction > 0 && is_exponent(after.skip(fraction))
    } else {
        whole > 0 && is_exponent(rest)
    }
}

/// Whether a text writes a floating-point number: a decimal number or one of the words for
/// infinity and for what is not a number, with a sign where there is one.
pub open spec fn is_float(s: Seq<char>) -> bool {
    let u = unsigned_number(s);
    ||| same_ignoring_case(u, "inf"@)
    ||| same_ignoring_case(u, "infinity"@)
    ||| same_ignoring_case(u, "nan"@)
    ||| is_decimal(u)
}

proof fn lemma_digits_len(s: Seq<char>, n: int)
    requires
        0 <= n <= s.len(),
        forall|i: int| 0 <= i < n ==> is_digit(#[trigger] s[i]),
        n == s.len() || !is_digit(s[n]),
    ensures
        digits_len(s) == n,
    decreases s.len(),
{
    if n > 0 {
        let t = s.drop_first();
        assert forall|i: int| 0 <= i < n - 1 implies is_digit(#[trigger] t[i]) by {
            assert(t[i] == s[i + 1]);
        }
        assert(is_digit(s[0]));
        lemma_digits_len(t, n - 1);
    }
}

/// Where the run of digits that starts at `from` ends.
fn digits_end(v: &Vec<char>, from: usize) -> (to: usize)
    requires
        from <= v@.len(),
    ensures
        from <= to <= v@.len(),
        to - from == digits_len(v@.skip(from as int)),
{
    let mut to = from;
    let ghost s = v@.skip(from as int);
    while to < v.len() && digit(v[to])
        invariant
            from <= to <= v@.len(),
            s == v@.skip(from as int),
            forall|i: int| 0 <= i < to - from ==> is_digit(#[trigger] s[i]),
        decreases v@.len() - to,
    {
        to = to + 1;
    }
    proof {
        if to < v@.len() {
            assert(s[to - from] == v@[to as int]);
        }
        lemma_digits_len(s, to - from);
    }
    to
}

proof fn lemma_all_digits(s: Seq<char>)
    ensures
        all_digits(s) == (digits_len(s) == s.len()),
    decreases s.len(),
{
    if s.len() > 0 {
        let t = s.drop_first();
        lemma_all_digits(t);
        if is_digit(s[0]) {
            if all_digits(t) {
                assert forall|i: int| 0 <= i < s.len() implies is_digit(#[trigger] s[i]) by {
                    if i > 0 {
                        assert(s[i] == t[i - 1]);
                    }
                }
            } else {
                let k = choose|k: int| 0 <= k < t.len() && !is_digit(#[trigger] t[k]);
                assert(s[k + 1] == t[k]);
            }
        }
    }
}

fn exponent_at(v: &Vec<char>, from: usize) -> (r: bool)
    requires
        from <= v@.len(),
    ensures
        r == is_exponent(v@.skip(from as int)),
{
    let ghost s = v@.skip(from as int);
    if from == v.len() {
        return true;
    }
    assert(s[0] == v@[from as int]);
    if v[from] != 'e' && v[from] != 'E' {
        return false;
    }
    let mut start: usize = from + 1;
    assert(s.drop_first() =~= v@.skip(from + 1));
    if start < v.len() && (v[start] == '+' || v[start] == '-') {
        assert(v@.skip(from + 1).drop_first() =~= v@.skip(from + 2));
        start = start + 1;
    }
    let end = digits_end(v, start);
    proof {
        lemma_all_digits(v@.skip(start as int));
    }
    end > start && end == v.len()
}

fn decimal_at(v: &Vec<char>, from: usize) -> (r: bool)
    requires
        from <= v@.len(),
    ensures
        r == is_decimal(v@.skip(from as int)),
{
    let ghost s = v@.skip(from as int);
    let whole = digits_end(v, from);
    assert(s.skip(whole - from) =~= v@.skip(whole as int));
    if whole < v.len() && v[whole] == '.' {
        assert(v@.skip(whole as int).drop_first() =~= v@.skip(whole + 1));
        let fraction = digits_end(v, whole + 1);
        assert(v@.skip(whole + 1).skip(fraction - (whole + 1)) =~= v@.skip(fraction as int));
        (whole > from || fraction > whole + 1) && exponent_at(v, fraction)
    } else {
        whole > from && exponent_at(v, whole)
    }
}

/// Whether a text writes a floating-point number.
pub fn writes_float(s: &str) -> (r: bool)
    ensures
        r == is_float(s@),
{
    let v = chars_of(s);
    let from: usize = if v.len() > 0 && (v[0] == '+' || v[0] == '-') {
        1
    } else {
        0
    };
    assert(v@.skip(from as int) =~= unsigned_number(s@));
    let word = piece(v.as_slice(), from, v.len());
    assert(word@ =~= v@.skip(from as int));
    eq_ignore_ascii_case(word.as_str(), "inf") || eq_ignore_ascii_case(word.as_str(), "infinity")
        || eq_ignore_ascii_case(word.as_str(), "nan") || decimal_at(&v, from)
}

/// A text parted at the last `c` in it.
pub open spec fn parted_last(s: Seq<char>, c: char) -> Option<(Seq<char>, Seq<char>)>
    decreases s.len(),
{
    if s.len() == 0 {
        None
    } else if s.last() == c {
        Some((s.drop_last(), Seq::empty()))
    } else {
        match parted_last(s.drop_last(), c) {
            Some((head, tail)) => Some((head, tail.push(s.last()))),
            None => None,
        }
    }
}

proof fn lemma_parted_last(s: Seq<char>, c: char, at: int)
    requires
        0 <= at < s.len(),
        s[at] == c,
        forall|i: int| at < i < s.len() ==> s[i] != c,
    ensures
        parted_last(s, c) == Some((s.take(at), s.skip(at + 1))),
    decreases s.len(),
{
    if at == s.len() - 1 {
        assert(s.drop_last() =~= s.take(at));
        assert(s.skip(at + 1) =~= Seq::<char>::empty());
    } else {
        let t = s.drop_last();
        lemma_parted_last(t, c, at);
        assert(t.take(at) =~= s.take(at));
        assert(t.skip(at + 1).push(s.last()) =~= s.skip(at + 1));
    }
}

proof fn lemma_not_parted_last(s: Seq<char>, c: char)
    requires
        forall|i: int| 0 <= i < s.len() ==> s[i] != c,
    ensures
        parted_last(s, c) is None,
    decreases s.len(),
{
    if s.len() > 0 {
        lemma_not_parted_last(s.drop_last(), c);
    }
}

/// A text parted at the last `c` in it.
pub fn rsplit_once(s: &str, c: char) -> (r: Option<(String, String)>)
    ensures
        match r {
            Some(t) => parted_last(s@, c) == Some((t.0@, t.1@)),
            None => parted_last(s@, c) is None,
        },
{
    let v = chars_of(s);
    let mut at: usize = v.len();
    while at > 0
        invariant
            at <= v@.len(),
            v@ == s@,
            forall|i: int| at <= i < v@.len() ==> v@[i] != c,
        decreases at,
    {
        if v[at - 1] == c {
            proof {
                lemma_parted_last(s@, c, at - 1);
                assert(v@.subrange(0, at - 1) =~= v@.take(at - 1));
                assert(v@.subrange(at as int, v@.len() as int) =~= v@.skip(at as int));
            }
            return Some((piece(v.as_slice(), 0, at - 1), piece(v.as_slice(), at, v.len())));
        }
        at = at - 1;
    }
    proof {
        lemma_not_parted_last(s@, c);
    }
    None
}

/// Whether a text stands before another in the order of their characters.
pub open spec fn text_before(a: Seq<char>, b: Seq<char>) -> bool
    decreases a.len(),
{
    if b.len() == 0 {
        false
    } else if a.len() == 0 {
        true
    } else if a[0] == b[0] {
        text_before(a.drop_first(), b.drop_first())
    } else {
        a[0] < b[0]
    }
}

/// Whether a text stands before another in the order of their characters.
pub fn comes_before(a: &str, b: &str) -> (r: bool)
    ensures
        r == text_before(a@, b@),
{
    let x = chars_of(a);
    let y = chars_of(b);
    let mut i: usize = 0;
    assert(x@.skip(0) =~= a@);
    assert(y@.skip(0) =~= b@);
    while i < x.len() && i < y.len() && x[i] == y[i]
        invariant
            i <= x@.len(),
            i <= y@.len(),
            text_before(a@, b@) == text_before(x@.skip(i as int), y@.skip(i as int)),
        decreases x@.len() - i,
    {
        assert(x@.skip(i as int).drop_first() =~= x@.skip(i + 1));
        assert(y@.skip(i as int).drop_first() =~= y@.skip(i + 1));
        i = i + 1;
    }
    if i == y.len() {
        false
    } else if i == x.len() {
        true
    } else {
        x[i] < y[i]
    }
}

pub proof fn lemma_text_order(a: Seq<char>, b: Seq<char>, c: Seq<char>)
    ensures
        text_before(a, b) ==> !text_before(b, a),
        !text_before(a, b) && !text_before(b, a) ==> a == b,
        text_before(a, b) && text_before(b, c) ==> text_before(a, c),
    decreases a.len(),
{
    if a.len() > 0 && b.len() > 0 {
        let c1 = if c.len() > 0 {
            c.drop_first()
        } else {
            c
        };
        lemma_text_order(a.drop_first(), b.drop_first(), c1);
        if a[0] == b[0] && a.drop_first() == b.drop_first() {
            assert(a =~= seq![a[0]] + a.drop_first());
            assert(b =~= seq![b[0]] + b.drop_first());
        }
    } else if a.len() == 0 && b.len() == 0 {
        assert(a =~= b);
    }
}

/// The whole number a text writes, if it writes one no further from zero than `most`.
pub open spec fn whole_number(s: Seq<char>, most: nat) -> Option<int> {
    if s.len() > 1 && s[0] == '-' {
        let digits = s.drop_first();
        if all_digits(digits) && digits_value(digits) <= most {
            Some(-(digits_value(digits) as int))
        } else {
            None
        }
    } else {
        match natural(s, most) {
            Some(n) => Some(n as int),
            None => None,
        }
    }
}

/// The whole number a text writes in decimal, if it is no further from zero than `most`.
pub fn parse_whole(s: &str, most: u64) -> (r: Option<i128>)
    ensures
        match r {
            Some(n) => whole_number(s@, most as nat) == Some(n as int),
            None => whole_number(s@, most as nat) is None,
        },
        r matches Some(n) ==> -most <= n <= most,
{
    let v = chars_of(s);
    if v.len() > 1 && v[0] == '-' {
        if v[1] == '+' {
            assert(!is_digit(s@.drop_first()[0]));
            return None;
        }
        let rest = piece(v.as_slice(), 1, v.len());
        assert(rest@ =~= s@.drop_first());
        assert(unsigned_part(rest@) =~= rest@);
        match parse_u64(rest.as_str()) {
            Some(n) => if n <= most {
                Some(-(n as i128))
            } else {
                None
            },
            None => None,
        }
    } else {
        match parse_u64(s) {
            Some(n) => if n <= most {
                Some(n as i128)
            } else {
                None
            },
            None => None,
        }
    }
}

} // verus!
