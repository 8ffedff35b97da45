//! The conversation before a prompt, as a text.
use vstd::prelude::*;
use crate::ace_notes::{cut_text, truncate_chars};
use crate::text::{
    blank, concat_all, concatenated, is_blank, is_white_space, has_text, join, joined, law_blank,
    law_joined, lemma_filter_contains, lemma_filter_push, lemma_take_push, lemma_texts_push,
    lemma_trimmed_where, occurs_at, texts, trim, trimmed, white_space,
};

verus! {

/// How many blocks of a conversation are used.
pub const MAX_PROMPT_PILOT_CONVERSATION_BLOCKS: usize = 24;

/// How many characters of a conversation are used.
pub const MAX_PROMPT_PILOT_CONVERSATION_CHARS: usize = 12_000;

/// The texts of lines that are made of pieces.
pub open spec fn line_texts(lines: Seq<Vec<String>>) -> Seq<Seq<char>> {
    Seq::new(lines.len(), |i: int| concatenated(texts(lines[i]@)))
}

/// Lines that are made of pieces as one text.
pub open spec fn plain_text(lines: Seq<Vec<String>>) -> Seq<char> {
    trimmed(joined(line_texts(lines), "\n"@))
}

/// Lines that are made of pieces as one text.
pub fn lines_to_plain_text(lines: &Vec<Vec<String>>) -> (r: String)
    ensures
        r@ == plain_text(lines@),
{
    let ghost all = line_texts(lines@);
    let mut parts: Vec<String> = Vec::new();
    let mut i: usize = 0;
    proof {
        assert(texts(parts@) =~= all.take(0));
    }
    while i < lines.len()
        invariant
            i <= lines@.len(),
            all == line_texts(lines@),
            texts(parts@) == all.take(i as int),
        decreases lines@.len() - i,
    {
        broadcast use lemma_texts_push;

        parts.push(concat_all(&lines[i]));
        proof {
            lemma_take_push(all, i as int);
        }
        i += 1;
    }
    proof {
        assert(all.take(lines@.len() as int) =~= all);
    }
    trim(join(&parts, "\n").as_str()).to_owned()
}

/// The texts of the blocks of a conversation.
pub open spec fn block_texts(blocks: Seq<Vec<Vec<String>>>) -> Seq<Seq<char>> {
    Seq::new(blocks.len(), |i: int| plain_text(blocks[i]@))
}

/// The last blocks that are not blank, up to the first, counted from the end, with which there are
/// as many blocks or as many characters as are used; `count` and `chars` are those of the blocks
/// after these.
pub open spec fn recent_blocks(blocks: Seq<Seq<char>>, count: int, chars: int) -> Seq<Seq<char>>
    decreases blocks.len(),
{
    if blocks.len() == 0 {
        Seq::empty()
    } else if is_blank(blocks.last()) {
        recent_blocks(blocks.drop_last(), count, chars)
    } else if count + 1 >= MAX_PROMPT_PILOT_CONVERSATION_BLOCKS || chars + blocks.last().len()
        >= MAX_PROMPT_PILOT_CONVERSATION_CHARS {
        seq![blocks.last()]
    } else {
        recent_blocks(blocks.drop_last(), count + 1, chars + blocks.last().len()).push(
            blocks.last(),
        )
    }
}

/// The blocks that are used: the recent ones, and after them the active one.
pub open spec fn used_blocks(blocks: Seq<Seq<char>>, active: Option<Seq<char>>) -> Seq<Seq<char>> {
    let recent = recent_blocks(blocks, 0, 0);
    match active {
        Some(text) => if is_blank(text) {
            recent
        } else {
            recent.push(text)
        },
        None => recent,
    }
}

/// The conversation before a prompt, where there is one.
pub open spec fn conversation_text(blocks: Seq<Seq<char>>, active: Option<Seq<char>>) -> Option<
    Seq<char>,
> {
    let text = cut_text(
        trimmed(joined(used_blocks(blocks, active), "\n\n"@)),
        MAX_PROMPT_PILOT_CONVERSATION_CHARS as int,
        "\n[conversation truncated]"@,
    );
    if is_blank(text) {
        None
    } else {
        Some(text)
    }
}

fn reversed(v: &Vec<String>) -> (out: Vec<String>)
    ensures
        texts(out@) == texts(v@).reverse(),
{
    let mut out: Vec<String> = Vec::new();
    let mut i: usize = v.len();
    while i > 0
        invariant
            i <= v@.len(),
            out@.len() == v@.len() - i,
            forall|k: int| 0 <= k < out@.len() ==> (#[trigger] out@[k])@ == v@[v@.len() - 1 - k]@,
        decreases i,
    {
        i -= 1;
        out.push(v[i].clone());
    }
    proof {
        assert(texts(out@) =~= texts(v@).reverse());
    }
    out
}

proof fn lemma_reverse_push(s: Seq<Seq<char>>, x: Seq<char>, rest: Seq<Seq<char>>)
    ensures
        rest.push(x) + s.reverse() == rest + s.push(x).reverse(),
{
    assert(rest.push(x) + s.reverse() =~= rest + s.push(x).reverse());
}

fn collect_recent(blocks: &Vec<Vec<Vec<String>>>) -> (out: Vec<String>)
    ensures
        texts(out@) == recent_blocks(block_texts(blocks@), 0, 0),
{
    let ghost all = block_texts(blocks@);
    let ghost wanted = recent_blocks(all, 0, 0);
    let mut found: Vec<String> = Vec::new();
    let mut chars: usize = 0;
    let mut done = false;
    let mut i: usize = blocks.len();
    proof {
        assert(all.take(all.len() as int) =~= all);
        assert(texts(found@) =~= Seq::<Seq<char>>::empty());
        assert(wanted + texts(found@).reverse() =~= wanted);
    }
    while i > 0 && !done
        invariant
            i <= blocks@.len(),
            all == block_texts(blocks@),
            !done ==> chars < MAX_PROMPT_PILOT_CONVERSATION_CHARS,
            !done ==> found@.len() < MAX_PROMPT_PILOT_CONVERSATION_BLOCKS,
            !done ==> recent_blocks(all.take(i as int), found@.len() as int, chars as int)
                + texts(found@).reverse() == wanted,
            done ==> texts(found@).reverse() == wanted,
        decreases i,
    {
        broadcast use lemma_texts_push;

        let ghost rest = all.take(i - 1);
        i -= 1;
        let block = lines_to_plain_text(&blocks[i]);
        proof {
            assert(all.take(i + 1).drop_last() =~= rest);
            assert(all.take(i + 1).last() == block@);
        }
        if !blank(block.as_str()) {
            let ghost before = texts(found@);
            let ghost old_chars = chars;
            let n: usize = block.as_str().unicode_len();
            chars = chars.saturating_add(n);
            let ghost x = block@;
            found.push(block);
            proof {
                assert(texts(found@) == before.push(x));
                assert(texts(found@).len() == found@.len());
                lemma_reverse_push(before, x, Seq::empty());
                lemma_reverse_push(
                    before,
                    x,
                    recent_blocks(rest, before.len() + 1int, old_chars + n),
                );
                assert(Seq::<Seq<char>>::empty().push(x) =~= seq![x]);
                assert(Seq::<Seq<char>>::empty() + before.push(x).reverse()
                    =~= before.push(x).reverse());
            }
            if found.len() >= MAX_PROMPT_PILOT_CONVERSATION_BLOCKS || chars
                >= MAX_PROMPT_PILOT_CONVERSATION_CHARS {
                done = true;
            }
        }
    }
    proof {
        if !done {
            assert(all.take(0) =~= Seq::<Seq<char>>::empty());
            assert(Seq::<Seq<char>>::empty() + texts(found@).reverse() =~= texts(
                found@,
            ).reverse());
        }
    }
    reversed(&found)
}

/// The model of an optional block.
pub open spec fn active_text(active: Option<&Vec<Vec<String>>>) -> Option<Seq<char>> {
    match active {
        Some(lines) => Some(plain_text(lines@)),
        None => None,
    }
}

/// The conversation before a prompt, where there is one. Each block is a list of lines, and each
/// line a list of pieces; the active block is the one that is still being written.
pub fn prompt_pilot_conversation_context(
    blocks: &Vec<Vec<Vec<String>>>,
    active: Option<&Vec<Vec<String>>>,
) -> (r: Option<String>)
    ensures
        r is Some <==> conversation_text(block_texts(blocks@), active_text(active)) is Some,
        r matches Some(text) ==> conversation_text(block_texts(blocks@), active_text(active))
            == Some(text@),
{
    broadcast use lemma_texts_push;

    let mut used = collect_recent(blocks);
    if let Some(lines) = active {
        let text = lines_to_plain_text(lines);
        if !blank(text.as_str()) {
            used.push(text);
        }
    }
    let context = truncate_chars(
        trim(join(&used, "\n\n").as_str()),
        MAX_PROMPT_PILOT_CONVERSATION_CHARS,
    );
    if blank(context.as_str()) {
        None
    } else {
        Some(context)
    }
}

/// At most twenty-four blocks that are not blank are used, and beside the remark about what is
/// left out at most 12000 characters.
pub proof fn law_conversation_is_bounded(blocks: Seq<Seq<char>>, active: Option<Seq<char>>)
    ensures
        recent_blocks(blocks, 0, 0).len() <= MAX_PROMPT_PILOT_CONVERSATION_BLOCKS,
        forall|i: int|
            0 <= i < used_blocks(blocks, active).len() ==> !is_blank(
                #[trigger] used_blocks(blocks, active)[i],
            ),
        conversation_text(blocks, active) matches Some(text) ==> text.len()
            <= MAX_PROMPT_PILOT_CONVERSATION_CHARS + "\n[conversation truncated]"@.len(),
{
    lemma_recent(blocks, 0, 0);
}

proof fn lemma_recent(blocks: Seq<Seq<char>>, count: int, chars: int)
    requires
        0 <= count < MAX_PROMPT_PILOT_CONVERSATION_BLOCKS,
    ensures
        recent_blocks(blocks, count, chars).len() + count
            <= MAX_PROMPT_PILOT_CONVERSATION_BLOCKS,
        forall|i: int|
            0 <= i < recent_blocks(blocks, count, chars).len() ==> !is_blank(
                #[trigger] recent_blocks(blocks, count, chars)[i],
            ),
    decreases blocks.len(),
{
    if blocks.len() > 0 {
        if is_blank(blocks.last()) {
            lemma_recent(blocks.drop_last(), count, chars);
        } else if count + 1 < MAX_PROMPT_PILOT_CONVERSATION_BLOCKS {
            lemma_recent(blocks.drop_last(), count + 1, chars + blocks.last().len());
        }
    }
}

/// The number of characters of all blocks together.
pub open spec fn total_chars(blocks: Seq<Seq<char>>) -> nat
    decreases blocks.len(),
{
    if blocks.len() == 0 {
        0
    } else {
        total_chars(blocks.drop_last()) + blocks.last().len()
    }
}

/// The class of blocks that are not blank.
pub open spec fn not_blank() -> spec_fn(Seq<char>) -> bool {
    |block: Seq<char>| !is_blank(block)
}

proof fn lemma_recent_are_last(blocks: Seq<Seq<char>>, count: int, chars: int)
    requires
        0 <= count < 24,
        0 <= chars < 12000,
    ensures
        ({
            let all = blocks.filter(not_blank());
            let r = recent_blocks(blocks, count, chars);
            &&& r.len() <= all.len()
            &&& r == all.skip(all.len() - r.len())
            &&& r.len() < all.len() ==> count + r.len() >= 24 || chars + total_chars(r) >= 12000
            &&& r.len() > 0 ==> count + r.len() <= 24 && chars + total_chars(r.drop_first())
                < 12000
        }),
    decreases blocks.len(),
{
    reveal(Seq::filter);
    let all = blocks.filter(not_blank());
    let r = recent_blocks(blocks, count, chars);
    if blocks.len() == 0 {
        assert(r =~= all.skip(0));
    } else {
        let init = blocks.drop_last();
        let last = blocks.last();
        let before = init.filter(not_blank());
        assert(blocks =~= init.push(last));
        lemma_filter_push(init, last, not_blank());
        if is_blank(last) {
            lemma_recent_are_last(init, count, chars);
        } else if count + 1 >= 24 || chars + last.len() >= 12000 {
            assert(r =~= all.skip(all.len() - 1));
            assert(r.drop_last() =~= Seq::<Seq<char>>::empty());
            assert(total_chars(r.drop_last()) == 0);
            assert(r.drop_first() =~= Seq::<Seq<char>>::empty());
        } else {
            let q = recent_blocks(init, count + 1, chars + last.len());
            lemma_recent_are_last(init, count + 1, chars + last.len());
            assert(r == q.push(last));
            assert(r =~= all.skip(all.len() - r.len()));
            assert(r.drop_last() =~= q);
            if q.len() > 0 {
                assert(r.drop_first() =~= q.drop_first().push(last));
                assert(r.drop_first().drop_last() =~= q.drop_first());
            } else {
                assert(r.drop_first() =~= Seq::<Seq<char>>::empty());
            }
        }
    }
}

/// The blocks of a conversation that are used are the last ones that are not blank, in their order.
/// Older ones are left out only where there are twenty-four or where those that are used have twelve
/// thousand characters, and no more are used than that takes. The block that is still being written
/// comes last.
pub proof fn law_recent_blocks(blocks: Seq<Seq<char>>, active: Option<Seq<char>>)
    ensures
        ({
            let all = blocks.filter(not_blank());
            let r = recent_blocks(blocks, 0, 0);
            &&& r.len() <= all.len()
            &&& r == all.skip(all.len() - r.len())
            &&& r.len() < all.len() ==> r.len() == 24 || total_chars(r) >= 12000
            &&& r.len() <= 24
            &&& r.len() > 0 ==> total_chars(r.drop_first()) < 12000
            &&& used_blocks(blocks, active) == (match active {
                Some(text) => if is_blank(text) {
                    r
                } else {
                    r.push(text)
                },
                None => r,
            })
        }),
{
    lemma_recent_are_last(blocks, 0, 0);
}

proof fn lemma_not_blank_within(s: Seq<char>, part: Seq<char>)
    requires
        has_text(s, part),
        !is_blank(part),
    ensures
        !is_blank(s),
{
    law_blank(s);
    law_blank(part);
    let k = choose|k: int| 0 <= k < part.len() && !is_white_space(#[trigger] part[k]);
    let i = choose|i: int| occurs_at(s, part, i);
    assert(s.subrange(i, i + part.len())[k] == s[i + k]);
    assert(!is_white_space(s[i + k]));
}

/// There is a conversation exactly where a block of it, or the one that is still being written, is
/// not blank. It is then what is used of it with an empty line between each two blocks, without
/// white space around it; of more than twelve thousand characters the first so many, and a remark.
pub proof fn law_conversation(blocks: Seq<Seq<char>>, active: Option<Seq<char>>)
    ensures
        conversation_text(blocks, active) is None <==> (forall|i: int|
            0 <= i < blocks.len() ==> is_blank(#[trigger] blocks[i])) && (active matches Some(text)
            ==> is_blank(text)),
        ({
            let whole = trimmed(joined(used_blocks(blocks, active), "\n\n"@));
            conversation_text(blocks, active) matches Some(text) ==> text == (if whole.len()
                <= 12000 {
                whole
            } else {
                whole.take(12000) + "\n[conversation truncated]"@
            })
        }),
{
    let all = blocks.filter(not_blank());
    let used = used_blocks(blocks, active);
    let sum = joined(used, "\n\n"@);
    let whole = trimmed(sum);
    law_recent_blocks(blocks, active);
    law_joined(used, "\n\n"@, Seq::empty());
    law_conversation_is_bounded(blocks, active);
    crate::text::lemma_trimmed_idempotent(sum);
    let nothing = (forall|i: int| 0 <= i < blocks.len() ==> is_blank(#[trigger] blocks[i])) && (
    active matches Some(text) ==> is_blank(text));
    if used.len() > 0 {
        assert(!is_blank(used[0]));
        lemma_not_blank_within(sum, used[0]);
        assert(!is_blank(whole));
        if whole.len() > 12000 {
            reveal_strlit("\n[conversation truncated]");
            let text = whole.take(12000) + "\n[conversation truncated]"@;
            assert(text[12001] == '[');
            law_blank(text);
            assert(!is_white_space(text[12001]));
        }
        if nothing {
            assert(all.len() > 0);
            assert(all.contains(all[0]));
            lemma_filter_contains(blocks, not_blank(), all[0]);
            let i = choose|i: int| 0 <= i < blocks.len() && blocks[i] == all[0];
            assert(is_blank(blocks[i]));
        }
    } else {
        assert(recent_blocks(blocks, 0, 0).len() == 0);
        assert(total_chars(recent_blocks(blocks, 0, 0)) == 0);
        assert(all.len() == 0);
        assert forall|i: int| 0 <= i < blocks.len() implies is_blank(#[trigger] blocks[i]) by {
            lemma_filter_contains(blocks, not_blank(), blocks[i]);
            assert(blocks.contains(blocks[i]));
        }
        law_blank(sum);
        law_blank(whole);
    }
}

/// What a block says: its spans one after another, with a line break between each two of its lines
/// and no white space around all of it.
pub proof fn law_plain_text(lines: Seq<Vec<String>>, line: Vec<String>, i: int)
    ensures
        plain_text(Seq::empty()).len() == 0,
        plain_text(seq![line]) == trimmed(concatenated(texts(line@))),
        lines.len() > 0 ==> plain_text(lines.push(line)) == trimmed(
            joined(line_texts(lines), "\n"@) + "\n"@ + concatenated(texts(line@)),
        ),
        0 <= i < line@.len() ==> has_text(concatenated(texts(line@)), line@[i]@),
{
    law_joined(line_texts(lines), "\n"@, concatenated(texts(line@)));
    assert(line_texts(lines.push(line)) =~= line_texts(lines).push(concatenated(texts(line@))));
    assert(line_texts(seq![line]) =~= seq![concatenated(texts(line@))]);
    assert(line_texts(Seq::empty()) =~= Seq::empty());
    law_joined(texts(line@), Seq::empty(), Seq::empty());
    let (a, b) = lemma_trimmed_where(Seq::<char>::empty(), white_space());
    if 0 <= i < line@.len() {
        assert(texts(line@)[i] == line@[i]@);
    }
}

} // verus!
