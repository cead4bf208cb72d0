//! Character-level helpers shared by the parser and the renderers.

use vstd::prelude::*;
use vstd::std_specs::iter::IteratorSpec;
use vstd::string::StrSliceExecFns;
use vstd::utf8::{
    encode_utf8, encode_utf8_first_scalar, encode_utf8_valid_utf8, is_char_boundary,
    is_char_boundary_iff_not_is_continuation_byte, is_char_boundary_start_end_of_seq,
    pop_first_scalar,
};

verus! {

/// Specifies `String::push` of the standard library.
///
/// Trusted: after the call the string holds the characters it held before,
/// followed by `c`.
pub assume_specification[ String::push ](s: &mut String, c: char)
    ensures
        final(s)@ == old(s)@.push(c),
;

/// Index of the first occurrence of `c` in `s`, or `s.len()` when there is none.
pub open spec fn first_index(s: Seq<char>, c: char) -> int
    decreases s.len(),
{
    if s.len() == 0 || s[0] == c {
        0
    } else {
        1 + first_index(s.drop_first(), c)
    }
}

/// Number of leading characters of `s` that equal `c`.
pub open spec fn leading_count(s: Seq<char>, c: char) -> int
    decreases s.len(),
{
    if s.len() > 0 && s[0] == c {
        1 + leading_count(s.drop_first(), c)
    } else {
        0
    }
}

/// Any index that holds `c` and has no `c` before it is the first index.
pub proof fn lemma_first_index_is(s: Seq<char>, c: char, i: int)
    requires
        0 <= i <= s.len(),
        i < s.len() ==> s[i] == c,
        forall|k: int| 0 <= k < i ==> s[k] != c,
    ensures
        first_index(s, c) == i,
    decreases s.len(),
{
    if s.len() > 0 && s[0] != c {
        lemma_first_index_is(s.drop_first(), c, i - 1);
    }
}

/// Any index that holds no `c` and has only `c` before it is the number of
/// leading `c`.
pub proof fn lemma_leading_count_is(s: Seq<char>, c: char, i: int)
    requires
        0 <= i <= s.len(),
        i < s.len() ==> s[i] != c,
        forall|k: int| 0 <= k < i ==> s[k] == c,
    ensures
        leading_count(s, c) == i,
    decreases s.len(),
{
    if s.len() > 0 && s[0] == c {
        let t = s.drop_first();
        lemma_leading_count_is(t, c, i - 1);
    }
}

/// The characters of a string, in order.
pub fn collect_chars(s: &str) -> (out: Vec<char>)
    ensures
        out@ == s@,
{
    broadcast use vstd::string::group_string_axioms;

    let mut out: Vec<char> = Vec::new();
    let mut it = s.chars();
    loop
        invariant
            out@ + it.remaining() == s@,
            it.obeys_prophetic_iter_laws(),
            it.decrease() is Some,
        ensures
            it.remaining().len() == 0,
        decreases it.decrease()->0,
    {
        match it.next() {
            Some(c) => {
                out.push(c);
            },
            None => {
                break ;
            },
        }
    }
    out
}

/// A string made of the given characters.
pub fn string_from_chars(chars: &[char]) -> (out: String)
    ensures
        out@ == chars@,
{
    let mut out = String::new();
    let mut i: usize = 0;
    while i < chars.len()
        invariant
            i <= chars@.len(),
            out@ == chars@.take(i as int),
        decreases chars@.len() - i,
    {
        out.push(chars[i]);
        i += 1;
    }
    out
}

/// The part of `chars` between two positions.
pub fn char_range(chars: &[char], from: usize, to: usize) -> (out: &[char])
    requires
        from <= to <= chars@.len(),
    ensures
        out@ == chars@.subrange(from as int, to as int),
{
    let (head, _) = chars.split_at(to);
    let (_, mid) = head.split_at(from);
    mid
}

/// Does `line` begin with the characters of `pattern`?
pub fn starts_with(line: &[char], pattern: &str) -> (r: bool)
    ensures
        r == pattern@.is_prefix_of(line@),
{
    broadcast use vstd::string::group_string_axioms;

    let mut it = pattern.chars();
    let mut i: usize = 0;
    loop
        invariant
            i <= line@.len(),
            pattern@.take(i as int) + it.remaining() == pattern@,
            pattern@.take(i as int) == line@.take(i as int),
            i <= pattern@.len(),
            it.obeys_prophetic_iter_laws(),
            it.decrease() is Some,
        decreases it.decrease()->0,
    {
        match it.next() {
            Some(c) => {
                assert(pattern@[i as int] == c);
                if i >= line.len() || line[i] != c {
                    return false;
                }
                i += 1;
            },
            None => {
                return true;
            },
        }
    }
}

/// Is `line` the text `pattern`?
pub fn equals_str(line: &[char], pattern: &str) -> (r: bool)
    ensures
        r == (line@ == pattern@),
{
    let same_start = starts_with(line, pattern);
    let same_length = line.len() == pattern.unicode_len();
    proof {
        if same_start && same_length {
            assert(line@.subrange(0, pattern@.len() as int) =~= line@);
        }
    }
    same_start && same_length
}

/// Position of the first `c` in `line`, or the length of `line`.
pub fn find_char(line: &[char], c: char) -> (i: usize)
    ensures
        i == first_index(line@, c),
        i <= line@.len(),
{
    let mut i: usize = 0;
    while i < line.len() && line[i] != c
        invariant
            i <= line@.len(),
            forall|k: int| 0 <= k < i ==> line@[k] != c,
        decreases line@.len() - i,
    {
        i += 1;
    }
    proof {
        lemma_first_index_is(line@, c, i as int);
    }
    i
}

/// Number of leading `c` characters of `line`.
pub fn count_leading(line: &[char], c: char) -> (i: usize)
    ensures
        i == leading_count(line@, c),
        i <= line@.len(),
{
    let mut i: usize = 0;
    while i < line.len() && line[i] == c
        invariant
            i <= line@.len(),
            forall|k: int| 0 <= k < i ==> line@[k] == c,
        decreases line@.len() - i,
    {
        i += 1;
    }
    proof {
        lemma_leading_count_is(line@, c, i as int);
    }
    i
}

/// Number of bytes that `text` takes in UTF-8.
pub open spec fn byte_len(text: Seq<char>) -> int {
    encode_utf8(text).len() as int
}

/// Is byte offset `at` of `text` the start of a character, or the end of the text?
pub open spec fn on_boundary(text: Seq<char>, at: int) -> bool {
    is_char_boundary(encode_utf8(text), at)
}

/// A text that is not empty takes at least one byte.
pub proof fn lemma_byte_len_positive(text: Seq<char>)
    requires
        text.len() > 0,
    ensures
        byte_len(text) > 0,
{
    assert(vstd::utf8::encode_scalar(text[0] as u32).len() > 0);
}

/// The encoding of a text is the encoding of its parts, one after the other.
pub proof fn lemma_encode_concat(a: Seq<char>, b: Seq<char>)
    ensures
        encode_utf8(a + b) == encode_utf8(a) + encode_utf8(b),
        byte_len(a + b) == byte_len(a) + byte_len(b),
    decreases a.len(),
{
    if a.len() > 0 {
        lemma_encode_concat(a.drop_first(), b);
        assert((a + b).drop_first() =~= a.drop_first() + b);
    }
}

/// Where one text ends inside a longer one, a character begins.
pub proof fn lemma_boundary_after_prefix(a: Seq<char>, b: Seq<char>)
    ensures
        on_boundary(a + b, byte_len(a)),
    decreases a.len(),
{
    let bytes = encode_utf8(a + b);
    encode_utf8_valid_utf8(a + b);
    if a.len() > 0 {
        let rest = a.drop_first();
        assert((a + b).drop_first() =~= rest + b);
        encode_utf8_first_scalar(a + b);
        assert(pop_first_scalar(bytes) =~= encode_utf8(rest + b));
        lemma_boundary_after_prefix(rest, b);
    }
}

/// A character boundary of a text is one of every text that begins with it.
pub proof fn lemma_boundary_extends(a: Seq<char>, b: Seq<char>, at: int)
    requires
        0 <= at <= byte_len(a),
        on_boundary(a, at),
    ensures
        on_boundary(a + b, at),
{
    lemma_encode_concat(a, b);
    encode_utf8_valid_utf8(a);
    encode_utf8_valid_utf8(a + b);
    if at == byte_len(a) {
        lemma_boundary_after_prefix(a, b);
    } else {
        is_char_boundary_iff_not_is_continuation_byte(encode_utf8(a), at);
        is_char_boundary_iff_not_is_continuation_byte(encode_utf8(a + b), at);
    }
}

/// A character boundary of a longer text that falls inside its beginning is a
/// boundary of that beginning.
pub proof fn lemma_boundary_restricts(a: Seq<char>, b: Seq<char>, at: int)
    requires
        0 <= at <= byte_len(a),
        on_boundary(a + b, at),
    ensures
        on_boundary(a, at),
{
    lemma_encode_concat(a, b);
    encode_utf8_valid_utf8(a);
    encode_utf8_valid_utf8(a + b);
    if at == byte_len(a) {
        is_char_boundary_start_end_of_seq(encode_utf8(a));
    } else {
        is_char_boundary_iff_not_is_continuation_byte(encode_utf8(a), at);
        is_char_boundary_iff_not_is_continuation_byte(encode_utf8(a + b), at);
    }
}

/// A character boundary of a longer text that falls inside its end is a
/// boundary of that end.
pub proof fn lemma_boundary_shifts(a: Seq<char>, b: Seq<char>, at: int)
    requires
        byte_len(a) <= at <= byte_len(a) + byte_len(b),
    ensures
        on_boundary(a + b, at) == on_boundary(b, at - byte_len(a)),
{
    lemma_encode_concat(a, b);
    encode_utf8_valid_utf8(b);
    encode_utf8_valid_utf8(a + b);
    if at == byte_len(a) + byte_len(b) {
        is_char_boundary_start_end_of_seq(encode_utf8(b));
        is_char_boundary_start_end_of_seq(encode_utf8(a + b));
    } else {
        is_char_boundary_iff_not_is_continuation_byte(encode_utf8(b), at - byte_len(a));
        is_char_boundary_iff_not_is_continuation_byte(encode_utf8(a + b), at);
    }
}

} // verus!
