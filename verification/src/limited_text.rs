//! Texts of files, up to a limit.
use vstd::prelude::*;
use crate::bytes::{decode_lossy, lossy_text};
use crate::text::{trim, trimmed};

verus! {

/// The text of a file, up to a limit.
#[derive(Clone, Debug, PartialEq, Eq)]
pub struct LimitedText {
    pub content: String,
    pub truncated: bool,
}

/// What is read of a file with these bytes: its first `max_bytes` bytes as a text without white
/// space around it.
pub open spec fn content_of(bytes: Seq<u8>, max_bytes: int) -> Seq<char> {
    trimmed(
        lossy_text(
            if bytes.len() > max_bytes {
                bytes.take(max_bytes)
            } else {
                bytes
            },
        ),
    )
}

/// Whether a file with these bytes is read at all: one with a zero byte is not.
pub open spec fn is_text(bytes: Seq<u8>) -> bool {
    !bytes.contains(0u8)
}

/// The text of a file with these bytes, up to `max_bytes` bytes; `None` for one that is no text.
pub fn limited_text(bytes: &Vec<u8>, max_bytes: usize) -> (r: Option<LimitedText>)
    ensures
        r is Some <==> is_text(bytes@),
        r matches Some(text) ==> text.content@ == content_of(bytes@, max_bytes as int)
            && text.truncated == (bytes@.len() > max_bytes),
{
    let mut i: usize = 0;
    while i < bytes.len()
        invariant
            i <= bytes@.len(),
            forall|k: int| 0 <= k < i ==> bytes@[k] != 0u8,
        decreases bytes@.len() - i,
    {
        if bytes[i] == 0 {
            proof {
                assert(bytes@[i as int] == 0u8);
            }
            return None;
        }
        i += 1;
    }
    if bytes.len() <= max_bytes {
        return Some(
            LimitedText {
                content: trim(decode_lossy(bytes).as_str()).to_owned(),
                truncated: false,
            },
        );
    }
    let mut first: Vec<u8> = Vec::new();
    i = 0;
    while i < max_bytes
        invariant
            i <= max_bytes < bytes@.len(),
            first@ == bytes@.take(i as int),
        decreases max_bytes - i,
    {
        first.push(bytes[i]);
        proof {
            assert(bytes@.take(i + 1) =~= bytes@.take(i as int).push(bytes@[i as int]));
        }
        i += 1;
    }
    Some(LimitedText { content: trim(decode_lossy(&first).as_str()).to_owned(), truncated: true })
}

/// A file that is no longer than the limit is read whole, without the white space around its text;
/// of a longer one what lies beyond the limit makes no difference.
pub proof fn law_limited_text(bytes: Seq<u8>, more: Seq<u8>, max_bytes: int)
    requires
        0 <= max_bytes,
    ensures
        bytes.len() <= max_bytes ==> content_of(bytes, max_bytes) == trimmed(lossy_text(bytes)),
        bytes.len() >= max_bytes ==> content_of(bytes + more, max_bytes) == content_of(
            bytes,
            max_bytes,
        ),
        is_text(bytes) <==> forall|i: int| 0 <= i < bytes.len() ==> #[trigger] bytes[i] != 0u8,
{
    if bytes.len() >= max_bytes {
        assert((bytes + more).take(max_bytes) =~= bytes.take(max_bytes));
        assert(bytes.take(bytes.len() as int) =~= bytes);
        assert(bytes.len() == max_bytes ==> bytes.take(max_bytes) =~= bytes);
        assert(more.len() == 0 ==> bytes + more =~= bytes);
    }
}

} // verus!
