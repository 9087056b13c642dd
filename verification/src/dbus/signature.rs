//! Type signatures, and why a message could not be read.

use crate::text::chars_of;
use vstd::prelude::*;
use vstd::string::*;

verus! {

/// Why something read off the bus was refused.
#[derive(Clone, Copy, Debug, PartialEq, Eq, Structural)]
pub enum Fault {
    /// A message too short to hold a header.
    ShortHeader,
    /// The bus is speaking big-endian.
    BigEndian,
    /// A message of a kind nobody has defined.
    UnknownKind(u8),
    /// A signature closes a bracket it never opened.
    UnopenedBracket,
    /// A signature that never finishes.
    UnfinishedSignature,
    /// A message that ends in the middle of a value.
    Truncated,
    /// An array longer than the message holding it.
    ArrayTooLong,
    /// A value asked for with no type at all.
    EmptyType,
    /// A type that is not read here.
    UnknownType(char),
    /// An array of elements that take up no room, which no length can ever fill.
    Stuck,
}

pub open spec fn opens(c: char) -> bool {
    c == '(' || c == '{'
}

pub open spec fn closes(c: char) -> bool {
    c == ')' || c == '}'
}

/// Where the type at the front of a signature ends, looking from `at` on with `depth`
/// brackets open. An array's type is whatever follows it, so an `a` never ends one.
pub open spec fn type_end(s: Seq<char>, at: int, depth: nat) -> Result<int, Fault>
    decreases s.len() - at,
{
    if at >= s.len() {
        if depth == 0 && s.len() > 0 {
            Ok(s.len() as int)
        } else {
            Err(Fault::UnfinishedSignature)
        }
    } else if opens(s[at]) {
        type_end(s, at + 1, depth + 1)
    } else if closes(s[at]) {
        if depth == 0 {
            Err(Fault::UnopenedBracket)
        } else if depth == 1 {
            Ok(at + 1)
        } else {
            type_end(s, at + 1, (depth - 1) as nat)
        }
    } else if s[at] == 'a' || depth > 0 {
        type_end(s, at + 1, depth)
    } else {
        Ok(at + 1)
    }
}

/// How long the first complete type in a signature is.
pub open spec fn first_type(s: Seq<char>) -> Result<int, Fault> {
    type_end(s, 0, 0)
}

/// Whether a signature is one complete type and nothing more.
pub open spec fn one_type(s: Seq<char>) -> bool {
    s.len() > 0 && first_type(s) == Ok::<int, Fault>(s.len() as int) && s.last() != 'a'
}

/// What a value of this type has to start on.
pub open spec fn alignment(s: Seq<char>) -> int {
    if s.len() == 0 {
        4
    } else {
        match s[0] {
            'y' | 'g' | 'v' => 1,
            'n' | 'q' => 2,
            'x' | 't' | 'd' | '(' | '{' => 8,
            _ => 4,
        }
    }
}

pub proof fn lemma_type_end(s: Seq<char>, at: int, depth: nat)
    requires
        0 <= at <= s.len(),
    ensures
        type_end(s, at, depth) matches Ok(n) ==> at <= n <= s.len() && n > 0,
        type_end(s, at, depth) matches Ok(n) ==> (at < s.len() ==> n > at),
    decreases s.len() - at,
{
    if at < s.len() {
        if opens(s[at]) {
            lemma_type_end(s, at + 1, depth + 1);
        } else if closes(s[at]) {
            if depth > 1 {
                lemma_type_end(s, at + 1, (depth - 1) as nat);
            }
        } else if s[at] == 'a' || depth > 0 {
            lemma_type_end(s, at + 1, depth);
        }
    }
}

/// A first type is never empty, and a bracketed one holds at least its two brackets.
pub proof fn lemma_first_type(s: Seq<char>)
    ensures
        first_type(s) matches Ok(n) ==> 0 < n <= s.len(),
        first_type(s) matches Ok(n) ==> (opens(s[0]) ==> n >= 2),
{
    lemma_type_end(s, 0, 0);
    if s.len() > 0 && opens(s[0]) {
        lemma_type_end(s, 1, 1);
        if s.len() == 1 {
            assert(type_end(s, 1, 1) is Err);
        }
    }
}

proof fn lemma_type_end_extends(s: Seq<char>, u: Seq<char>, at: int, depth: nat, n: int)
    requires
        0 <= at <= s.len(),
        type_end(s, at, depth) == Ok::<int, Fault>(n),
        s.len() > 0,
        n < s.len() || s.last() != 'a',
        at == s.len() ==> s.last() == 'a',
    ensures
        type_end(s + u, at, depth) == Ok::<int, Fault>(n),
    decreases s.len() - at,
{
    let t = s + u;
    if at < s.len() {
        assert(t[at] == s[at]);
        if opens(s[at]) {
            lemma_type_end(s, at + 1, depth + 1);
            if at + 1 == s.len() {
                assert(type_end(s, at + 1, depth + 1) is Err);
            }
            lemma_type_end_extends(s, u, at + 1, depth + 1, n);
        } else if closes(s[at]) {
            if depth > 1 {
                if at + 1 == s.len() {
                    assert(type_end(s, at + 1, (depth - 1) as nat) is Err);
                }
                lemma_type_end_extends(s, u, at + 1, (depth - 1) as nat, n);
            }
        } else if s[at] == 'a' || depth > 0 {
            if at + 1 == s.len() && depth > 0 {
                assert(type_end(s, at + 1, depth) is Err);
            }
            lemma_type_end_extends(s, u, at + 1, depth, n);
        }
    } else {
        assert(n == s.len());
    }
}

/// A complete type stays the first type of whatever signature it is put in front of.
pub proof fn lemma_one_type_in_front(s: Seq<char>, u: Seq<char>)
    requires
        one_type(s),
    ensures
        first_type(s + u) == Ok::<int, Fault>(s.len() as int),
{
    lemma_type_end_extends(s, u, 0, 0, s.len() as int);
}

proof fn lemma_type_end_after_array(s: Seq<char>, at: int, depth: nat)
    requires
        0 <= at <= s.len(),
        s.len() > 0,
    ensures
        type_end(seq!['a'] + s, at + 1, depth) == match type_end(s, at, depth) {
            Ok(n) => Ok::<int, Fault>(n + 1),
            Err(e) => Err(e),
        },
    decreases s.len() - at,
{
    let t = seq!['a'] + s;
    if at < s.len() {
        assert(t[at + 1] == s[at]);
        if opens(s[at]) {
            lemma_type_end_after_array(s, at + 1, depth + 1);
        } else if closes(s[at]) {
            if depth > 1 {
                lemma_type_end_after_array(s, at + 1, (depth - 1) as nat);
            }
        } else if s[at] == 'a' || depth > 0 {
            lemma_type_end_after_array(s, at + 1, depth);
        }
    }
}

/// An array of one complete type is one complete type.
pub proof fn lemma_array_type(s: Seq<char>)
    requires
        one_type(s),
    ensures
        one_type(seq!['a'] + s),
{
    let t = seq!['a'] + s;
    lemma_type_end_after_array(s, 0, 0);
    assert(t[0] == 'a');
    assert(t.last() == s.last());
}

/// How many characters the first complete type in a signature takes.
pub fn first_type_len(s: &[char]) -> (r: Result<usize, Fault>)
    ensures
        match r {
            Ok(n) => first_type(s@) == Ok::<int, Fault>(n as int),
            Err(e) => first_type(s@) == Err::<int, Fault>(e),
        },
{
    let mut depth: usize = 0;
    let mut at: usize = 0;
    while at < s.len()
        invariant
            at <= s@.len(),
            depth <= at,
            first_type(s@) == type_end(s@, at as int, depth as nat),
        decreases s@.len() - at,
    {
        let c = s[at];
        if c == '(' || c == '{' {
            depth = depth + 1;
        } else if c == ')' || c == '}' {
            if depth == 0 {
                return Err(Fault::UnopenedBracket);
            }
            depth = depth - 1;
            if depth == 0 {
                return Ok(at + 1);
            }
        } else if c != 'a' && depth == 0 {
            return Ok(at + 1);
        }
        at = at + 1;
    }
    if depth == 0 && s.len() > 0 {
        Ok(s.len())
    } else {
        Err(Fault::UnfinishedSignature)
    }
}

/// The first complete type in a signature, and what is left after it.
pub fn split_type(signature: &str) -> (r: Result<(&str, &str), Fault>)
    ensures
        match r {
            Ok(t) => first_type(signature@) == Ok::<int, Fault>(t.0@.len() as int) && signature@
                == t.0@ + t.1@,
            Err(e) => first_type(signature@) == Err::<int, Fault>(e),
        },
{
    let s = chars_of(signature);
    let n = first_type_len(s.as_slice())?;
    proof {
        lemma_first_type(s@);
        assert(s@ == s@.subrange(0, n as int) + s@.subrange(n as int, s@.len() as int));
    }
    Ok((signature.substring_char(0, n), signature.substring_char(n, s.len())))
}

/// What a value of this type has to start on.
pub fn alignment_of(s: &[char]) -> (to: usize)
    ensures
        to == alignment(s@),
        to == 1 || to == 2 || to == 4 || to == 8,
{
    if s.len() == 0 {
        4
    } else {
        match s[0] {
            'y' | 'g' | 'v' => 1,
            'n' | 'q' => 2,
            'x' | 't' | 'd' | '(' | '{' => 8,
            _ => 4,
        }
    }
}

} // verus!
