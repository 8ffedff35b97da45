//! The UTF-8 side of texts: byte lengths, cutting at a byte limit, and decoding raw bytes.
use vstd::prelude::*;
use vstd::utf8::*;
use crate::text::chars_of;

verus! {

/// The number of bytes of `s` in UTF-8.
pub open spec fn byte_count(s: Seq<char>) -> nat {
    encode_utf8(s).len()
}

/// The number of bytes of `c` in UTF-8.
pub open spec fn char_width(c: char) -> nat {
    let n = c as u32;
    if n <= 0x7F {
        1
    } else if n <= 0x7FF {
        2
    } else if n <= 0xFFFF {
        3
    } else {
        4
    }
}

/// The longest prefix of `s` of whole characters that takes at most `max` bytes.
pub open spec fn byte_prefix(s: Seq<char>, max: nat) -> Seq<char>
    decreases s.len(),
{
    if byte_count(s) <= max || s.len() == 0 {
        s
    } else {
        byte_prefix(s.drop_last(), max)
    }
}

/// What `String::from_utf8_lossy` makes of `bytes`.
pub uninterp spec fn lossy_text(bytes: Seq<u8>) -> Seq<char>;

/// `String::from_utf8_lossy`: the text is a function of the bytes, and it is the text that the
/// bytes encode wherever they are valid UTF-8. Which replacement characters stand for the other
/// bytes is not stated.
#[verifier::external_body]
pub(crate) fn decode_lossy(bytes: &Vec<u8>) -> (r: String)
    ensures
        r@ == lossy_text(bytes@),
        valid_utf8(bytes@) ==> r@ == decode_utf8(bytes@),
{
    String::from_utf8_lossy(bytes).into_owned()
}

proof fn lemma_byte_count_first(s: Seq<char>)
    requires
        s.len() > 0,
    ensures
        byte_count(s) == char_width(s[0]) + byte_count(s.drop_first()),
{
    char_is_scalar(s[0]);
    let n = s[0] as u32;
    assert(encode_utf8(s) == encode_scalar(n) + encode_utf8(s.drop_first()));
    assert(encode_scalar(n).len() == char_width(s[0]));
}

/// A text one character longer takes that character's bytes more.
pub proof fn lemma_byte_count_push(s: Seq<char>, c: char)
    ensures
        byte_count(s.push(c)) == byte_count(s) + char_width(c),
    decreases s.len(),
{
    lemma_byte_count_first(s.push(c));
    if s.len() == 0 {
        assert(s.push(c).drop_first() =~= Seq::<char>::empty());
    } else {
        lemma_byte_count_first(s);
        assert(s.push(c).drop_first() =~= s.drop_first().push(c));
        lemma_byte_count_push(s.drop_first(), c);
    }
}

/// A prefix takes no more bytes than the whole.
pub proof fn lemma_byte_count_take(s: Seq<char>, k: int)
    requires
        0 <= k <= s.len(),
    ensures
        byte_count(s.take(k)) <= byte_count(s),
        k < s.len() ==> byte_count(s.take(k)) < byte_count(s),
    decreases s.len() - k,
{
    if k < s.len() {
        assert(s.take(k + 1) =~= s.take(k).push(s[k]));
        lemma_byte_count_push(s.take(k), s[k]);
        lemma_byte_count_take(s, k + 1);
    } else {
        assert(s.take(k) =~= s);
    }
}

/// A cut text is a prefix, it fits the limit, and one more character would not fit.
pub proof fn lemma_byte_prefix(s: Seq<char>, max: nat) -> (k: int)
    ensures
        0 <= k <= s.len(),
        byte_prefix(s, max) == s.take(k),
        byte_count(byte_prefix(s, max)) <= max,
        k < s.len() ==> byte_count(s.take(k + 1)) > max,
    decreases s.len(),
{
    if byte_count(s) <= max || s.len() == 0 {
        assert(s.take(s.len() as int) =~= s);
        s.len() as int
    } else {
        let t = s.drop_last();
        let k = lemma_byte_prefix(t, max);
        assert(t.take(k) =~= s.take(k));
        if k < t.len() {
            assert(t.take(k + 1) =~= s.take(k + 1));
        } else {
            assert(s.take(k + 1) =~= s);
        }
        k
    }
}

proof fn lemma_byte_prefix_is(s: Seq<char>, max: nat, k: int)
    requires
        0 <= k <= s.len(),
        byte_count(s.take(k)) <= max,
        k < s.len() ==> byte_count(s.take(k + 1)) > max,
    ensures
        byte_prefix(s, max) == s.take(k),
{
    let j = lemma_byte_prefix(s, max);
    if j < k {
        lemma_byte_count_take(s.take(k), j + 1);
        assert(s.take(k).take(j + 1) =~= s.take(j + 1));
    }
    if k < j {
        lemma_byte_count_take(s.take(j), k + 1);
        assert(s.take(j).take(k + 1) =~= s.take(k + 1));
    }
}

/// The number of bytes of `s` in UTF-8.
pub fn byte_len(s: &str) -> (n: usize)
    ensures
        n == byte_count(s@),
{
    s.as_bytes().len()
}

fn width_of(c: char) -> (n: usize)
    ensures
        n == char_width(c),
{
    let v: u32 = c as u32;
    if v <= 0x7F {
        1
    } else if v <= 0x7FF {
        2
    } else if v <= 0xFFFF {
        3
    } else {
        4
    }
}

/// The longest prefix of `value` of whole characters that takes at most `max_bytes` bytes.
pub fn truncate_string(value: String, max_bytes: usize) -> (out: String)
    ensures
        out@ == byte_prefix(value@, max_bytes as nat),
{
    if byte_len(value.as_str()) <= max_bytes {
        return value;
    }
    let chars = chars_of(value.as_str());
    let mut out = String::new();
    let mut used: usize = 0;
    let mut i: usize = 0;
    proof {
        assert(value@.take(0) =~= Seq::<char>::empty());
    }
    while i < chars.len()
        invariant
            chars@ == value@,
            i <= chars@.len(),
            out@ == value@.take(i as int),
            used == byte_count(out@),
            used <= max_bytes,
        decreases chars@.len() - i,
    {
        let width: usize = width_of(chars[i]);
        proof {
            lemma_byte_count_push(out@, chars@[i as int]);
            assert(value@.take(i + 1) =~= value@.take(i as int).push(value@[i as int]));
        }
        if width > max_bytes - used {
            proof {
                lemma_byte_prefix_is(value@, max_bytes as nat, i as int);
            }
            return out;
        }
        out.push(chars[i]);
        used += width;
        i += 1;
    }
    proof {
        lemma_byte_prefix_is(value@, max_bytes as nat, i as int);
    }
    out
}

} // verus!
