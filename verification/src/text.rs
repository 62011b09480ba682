//! Small operations on strings, stated over their characters.
use vstd::prelude::*;

verus! {

/// The first position at or behind `from` where `c` stands, or the length of `s`.
pub open spec fn first_index(s: Seq<char>, c: char, from: int) -> int
    decreases s.len() - from,
{
    if from >= s.len() {
        s.len() as int
    } else if s[from] == c {
        from
    } else {
        first_index(s, c, from + 1)
    }
}

/// What `first_index` finds is the first occurrence.
pub proof fn lemma_first_index(s: Seq<char>, c: char, from: int)
    requires
        0 <= from <= s.len(),
    ensures
        from <= first_index(s, c, from) <= s.len(),
        forall|k: int| from <= k < first_index(s, c, from) ==> s[k] != c,
        first_index(s, c, from) < s.len() ==> s[first_index(s, c, from)] == c,
    decreases s.len() - from,
{
    if from < s.len() && s[from] != c {
        lemma_first_index(s, c, from + 1);
    }
}

/// A position with `c` in it and none before it is the one found.
pub proof fn lemma_first_index_unique(s: Seq<char>, c: char, from: int, at: int)
    requires
        0 <= from <= at <= s.len(),
        forall|k: int| from <= k < at ==> s[k] != c,
        at == s.len() || s[at] == c,
    ensures
        first_index(s, c, from) == at,
    decreases at - from,
{
    if from < at {
        lemma_first_index_unique(s, c, from + 1, at);
    }
}

/// The characters of `s`.
pub fn characters(s: &str) -> (r: Vec<char>)
    ensures
        r@ == s@,
{
    let mut r: Vec<char> = Vec::new();
    for c in it: s.chars()
        invariant
            it.seq() == s@,
            r@ == s@.take(it.index() as int),
    {
        r.push(c);
    }
    assert(s@.take(s@.len() as int) == s@);
    r
}

/// The first position of `c` in `s`, or the number of characters.
pub fn find_char(s: &str, c: char) -> (i: usize)
    ensures
        i == first_index(s@, c, 0),
        i <= s@.len(),
{
    let chars: Vec<char> = characters(s);
    let mut i: usize = 0;
    while i < chars.len() && chars[i] != c
        invariant
            chars@ == s@,
            i <= chars@.len(),
            first_index(s@, c, 0) == first_index(s@, c, i as int),
        decreases chars@.len() - i,
    {
        i = i + 1;
    }
    i
}

/// Whether `c` occurs in `s`.
pub fn has_char(s: &str, c: char) -> (b: bool)
    ensures
        b == s@.contains(c),
{
    let i: usize = find_char(s, c);
    proof {
        lemma_first_index(s@, c, 0);
        if s@.contains(c) {
            let k = s@.index_of(c);
            assert(s@[k] == c);
        }
    }
    i < s.unicode_len()
}

/// Whether the two strings hold the same characters.
pub fn same_text(a: &str, b: &str) -> (r: bool)
    ensures
        r == (a@ == b@),
{
    a.to_owned() == b.to_owned()
}

/// The characters `s[from..to]` as a string of their own.
pub fn slice_text(s: &str, from: usize, to: usize) -> (r: String)
    requires
        from <= to <= s@.len(),
    ensures
        r@ == s@.subrange(from as int, to as int),
{
    s.substring_char(from, to).to_owned()
}

/// `a` followed by `b`.
pub fn concat_text(a: &str, b: &str) -> (r: String)
    ensures
        r@ == a@ + b@,
{
    a.to_owned().concat(b)
}

proof fn lemma_encode_scalar(c: char)
    ensures
        vstd::utf8::encode_scalar(c as u32).len() > 0,
        (c as u32) < 0x80 ==> vstd::utf8::encode_scalar(c as u32) == seq![c as u8],
        (c as u32) >= 0x80 ==> forall|i: int|
            0 <= i < vstd::utf8::encode_scalar(c as u32).len() ==> (
            #[trigger] vstd::utf8::encode_scalar(c as u32)[i]) >= 0x80,
{
    let v = c as u32;
    vstd::utf8::char_is_scalar(c);
    assert(v < 0x80 ==> (v & 0x7f) as u8 == v as u8) by (bit_vector);
    assert(0xC0u8 | ((v >> 6) & 0x1F) as u8 >= 0x80) by (bit_vector);
    assert(0xE0u8 | ((v >> 12) & 0x0F) as u8 >= 0x80) by (bit_vector);
    assert(0xF0u8 | ((v >> 18) & 0x7) as u8 >= 0x80) by (bit_vector);
    assert(0x80u8 | (v & 0x3F) as u8 >= 0x80) by (bit_vector);
    assert(0x80u8 | ((v >> 6) & 0x3F) as u8 >= 0x80) by (bit_vector);
    assert(0x80u8 | ((v >> 12) & 0x3F) as u8 >= 0x80) by (bit_vector);
}

proof fn lemma_same_char(a: char, b: char)
    ensures
        (a as u32) < 0x80 && (b as u32) < 0x80 ==> (a as u8 == b as u8 <==> a == b),
        (a as u32) >= 0x80 && (b as u32) < 0x80 ==> a != b && (b as u8) < 0x80,
{
}

/// A string holds an ASCII character exactly if its encoding holds that byte.
pub proof fn lemma_encoded_ascii(s: Seq<char>, c: char)
    requires
        (c as u32) < 0x80,
    ensures
        vstd::utf8::encode_utf8(s).contains(c as u8) <==> s.contains(c),
    decreases s.len(),
{
    let bytes = vstd::utf8::encode_utf8(s);
    let byte = c as u8;
    if s.len() > 0 {
        let head = vstd::utf8::encode_scalar(s[0] as u32);
        let rest = s.drop_first();
        let tail = vstd::utf8::encode_utf8(rest);
        let first: char = s[0];
        lemma_encode_scalar(first);
        lemma_same_char(first, c);
        lemma_encoded_ascii(rest, c);
        assert(bytes == head + tail);
        if bytes.contains(byte) {
            let k = bytes.index_of(byte);
            if k < head.len() {
                assert(head[k] == byte);
            } else {
                assert(tail[k - head.len()] == byte);
                assert(rest.contains(c));
                let j = rest.index_of(c);
                assert(s[j + 1] == c);
            }
        }
        if s.contains(c) {
            let k = s.index_of(c);
            if k == 0 {
                assert(bytes[0] == byte);
            } else {
                assert(rest[k - 1] == c);
                assert(tail.contains(byte));
                let j = tail.index_of(byte);
                assert(bytes[head.len() + j] == byte);
            }
        }
    }
}

/// A string starts with an ASCII character exactly if its encoding starts with
/// that byte.
pub proof fn lemma_encoded_start(s: Seq<char>, c: char)
    requires
        (c as u32) < 0x80,
    ensures
        vstd::utf8::encode_utf8(s).len() == 0 <==> s.len() == 0,
        s.len() > 0 ==> (vstd::utf8::encode_utf8(s)[0] == c as u8 <==> s[0] == c),
{
    if s.len() > 0 {
        let first: char = s[0];
        lemma_encode_scalar(first);
        lemma_same_char(first, c);
    }
}

} // verus!
