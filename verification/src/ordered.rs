//! Lists kept in order without repetition, and the order of texts by their characters.
use vstd::prelude::*;
use vstd::utf8::char_u32_cast;
use crate::text::{chars_of, texts};

verus! {

/// Whether `a` comes before `b` where two sequences are compared item by item in the order
/// `less`, and a proper prefix comes first.
pub open spec fn lexicographic<A>(a: Seq<A>, b: Seq<A>, less: spec_fn(A, A) -> bool) -> bool
    decreases a.len(),
{
    if b.len() == 0 {
        false
    } else if a.len() == 0 {
        true
    } else if a[0] != b[0] {
        less(a[0], b[0])
    } else {
        lexicographic(a.drop_first(), b.drop_first(), less)
    }
}

/// The order of characters by their code points.
pub open spec fn char_order() -> spec_fn(char, char) -> bool {
    |a: char, b: char| (a as u32) < (b as u32)
}

/// Whether `a` comes before `b` in the dictionary order of their characters.
pub open spec fn text_less(a: Seq<char>, b: Seq<char>) -> bool {
    lexicographic(a, b, char_order())
}

/// The dictionary order of texts.
pub open spec fn text_order() -> spec_fn(Seq<char>, Seq<char>) -> bool {
    |a: Seq<char>, b: Seq<char>| text_less(a, b)
}

/// `s` with `x` at its place in the order `less`; `s` itself where it holds an equal of `x`.
pub open spec fn insert_ordered<A>(s: Seq<A>, x: A, less: spec_fn(A, A) -> bool) -> Seq<A>
    decreases s.len(),
{
    if s.len() == 0 {
        seq![x]
    } else if less(x, s.last()) {
        insert_ordered(s.drop_last(), x, less).push(s.last())
    } else if less(s.last(), x) {
        s.push(x)
    } else {
        s
    }
}

/// The items in the order `less`, of equal ones the first only.
pub open spec fn sorted_set<A>(items: Seq<A>, less: spec_fn(A, A) -> bool) -> Seq<A>
    decreases items.len(),
{
    if items.len() == 0 {
        Seq::empty()
    } else {
        insert_ordered(sorted_set(items.drop_last(), less), items.last(), less)
    }
}

/// The texts in dictionary order, each once.
pub open spec fn sorted_texts(items: Seq<Seq<char>>) -> Seq<Seq<char>> {
    sorted_set(items, text_order())
}

/// Whether `less` is a strict order.
pub open spec fn is_strict_order<A>(less: spec_fn(A, A) -> bool) -> bool {
    &&& forall|a: A| !#[trigger] less(a, a)
    &&& forall|a: A, b: A, c: A| #[trigger] less(a, b) && #[trigger] less(b, c) ==> less(a, c)
}

/// Whether each item of `s` precedes all later ones.
pub open spec fn increasing<A>(s: Seq<A>, less: spec_fn(A, A) -> bool) -> bool {
    forall|i: int, j: int| 0 <= i < j < s.len() ==> less(#[trigger] s[i], #[trigger] s[j])
}

/// Whether `less` is a strict order in which any two different items have a place.
pub open spec fn is_total_order<A>(less: spec_fn(A, A) -> bool) -> bool {
    &&& forall|a: A| !#[trigger] less(a, a)
    &&& forall|a: A, b: A, c: A| #[trigger] less(a, b) && #[trigger] less(b, c) ==> less(a, c)
    &&& forall|a: A, b: A| a == b || #[trigger] less(a, b) || less(b, a)
}

proof fn lemma_lexicographic_asym<A>(a: Seq<A>, b: Seq<A>, less: spec_fn(A, A) -> bool)
    requires
        is_total_order(less),
    ensures
        !(lexicographic(a, b, less) && lexicographic(b, a, less)),
        !lexicographic(a, b, less) && !lexicographic(b, a, less) ==> a == b,
    decreases a.len(),
{
    if a.len() > 0 && b.len() > 0 {
        if a[0] == b[0] {
            lemma_lexicographic_asym(a.drop_first(), b.drop_first(), less);
            if a.drop_first() == b.drop_first() {
                assert(a =~= seq![a[0]] + a.drop_first());
                assert(b =~= seq![b[0]] + b.drop_first());
            }
        } else {
            assert(less(a[0], b[0]) || less(b[0], a[0]));
            if less(a[0], b[0]) && less(b[0], a[0]) {
                assert(less(a[0], a[0]));
            }
        }
    }
    if a.len() == 0 && b.len() == 0 {
        assert(a =~= b);
    }
}

proof fn lemma_lexicographic_irreflexive<A>(a: Seq<A>, less: spec_fn(A, A) -> bool)
    ensures
        !lexicographic(a, a, less),
    decreases a.len(),
{
    if a.len() > 0 {
        lemma_lexicographic_irreflexive(a.drop_first(), less);
    }
}

proof fn lemma_lexicographic_trans<A>(
    a: Seq<A>,
    b: Seq<A>,
    c: Seq<A>,
    less: spec_fn(A, A) -> bool,
)
    requires
        is_total_order(less),
        lexicographic(a, b, less),
        lexicographic(b, c, less),
    ensures
        lexicographic(a, c, less),
    decreases a.len(),
{
    if a.len() > 0 {
        if a[0] == b[0] && b[0] == c[0] {
            lemma_lexicographic_trans(a.drop_first(), b.drop_first(), c.drop_first(), less);
        } else if a[0] == c[0] {
            assert(less(a[0], b[0]) && less(b[0], a[0]));
            assert(less(a[0], a[0]));
        }
    }
}

/// Comparing item by item in a total order is a total order.
pub proof fn lemma_lexicographic_total<A>(
    order: spec_fn(Seq<A>, Seq<A>) -> bool,
    less: spec_fn(A, A) -> bool,
)
    requires
        is_total_order(less),
        forall|a: Seq<A>, b: Seq<A>| #[trigger] order(a, b) == lexicographic(a, b, less),
    ensures
        is_total_order(order),
{
    assert forall|a: Seq<A>| !#[trigger] order(a, a) by {
        lemma_lexicographic_irreflexive(a, less);
    }
    assert forall|a: Seq<A>, b: Seq<A>, c: Seq<A>| #[trigger]
        order(a, b) && #[trigger] order(b, c) implies order(a, c) by {
        lemma_lexicographic_trans(a, b, c, less);
    }
    assert forall|a: Seq<A>, b: Seq<A>| a == b || #[trigger] order(a, b) || order(b, a) by {
        lemma_lexicographic_asym(a, b, less);
    }
}

/// The dictionary order is a strict order that gives any two different texts a place.
pub proof fn law_text_order()
    ensures
        is_total_order(text_order()),
        is_strict_order(text_order()),
{
    assert(is_total_order(char_order())) by {
        assert forall|a: char, b: char|
            a == b || #[trigger] char_order()(a, b) || char_order()(b, a) by {
            char_u32_cast(a, a as u32);
            char_u32_cast(b, b as u32);
        }
    }
    lemma_lexicographic_total(text_order(), char_order());
}

proof fn lemma_insert_ordered<A>(s: Seq<A>, x: A, less: spec_fn(A, A) -> bool)
    requires
        is_strict_order(less),
        increasing(s, less),
    ensures
        increasing(insert_ordered(s, x, less), less),
        forall|y: A| #[trigger] insert_ordered(s, x, less).contains(y) ==> s.contains(y) || y == x,
        forall|y: A| s.contains(y) ==> #[trigger] insert_ordered(s, x, less).contains(y),
        exists|y: A|
            #[trigger] insert_ordered(s, x, less).contains(y) && !less(x, y) && !less(y, x),
    decreases s.len(),
{
    let r = insert_ordered(s, x, less);
    if s.len() == 0 {
        assert(r[0] == x);
        assert(r.contains(x));
        assert(!less(x, x));
    } else if less(x, s.last()) {
        let t = s.drop_last();
        let q = insert_ordered(t, x, less);
        lemma_insert_ordered(t, x, less);
        assert(r == q.push(s.last()));
        assert forall|i: int, j: int| 0 <= i < j < r.len() implies less(
            #[trigger] r[i],
            #[trigger] r[j],
        ) by {
            if j == q.len() {
                assert(q.contains(q[i]));
                if t.contains(q[i]) {
                    let k = choose|k: int| 0 <= k < t.len() && t[k] == q[i];
                    assert(s[k] == q[i]);
                    assert(less(s[k], s[s.len() - 1]));
                }
            }
        }
        assert forall|y: A| #[trigger] r.contains(y) implies s.contains(y) || y == x by {
            let k = choose|k: int| 0 <= k < r.len() && r[k] == y;
            if k < q.len() {
                assert(q.contains(y));
                if t.contains(y) {
                    let m = choose|m: int| 0 <= m < t.len() && t[m] == y;
                    assert(s[m] == y);
                }
            } else {
                assert(s[s.len() - 1] == y);
            }
        }
        assert forall|y: A| s.contains(y) implies #[trigger] r.contains(y) by {
            let k = choose|k: int| 0 <= k < s.len() && s[k] == y;
            if k < t.len() {
                assert(t[k] == y);
                assert(q.contains(y));
                let m = choose|m: int| 0 <= m < q.len() && q[m] == y;
                assert(r[m] == y);
            } else {
                assert(r[q.len() as int] == y);
            }
        }
        let y = choose|y: A| #[trigger] q.contains(y) && !less(x, y) && !less(y, x);
        let m = choose|m: int| 0 <= m < q.len() && q[m] == y;
        assert(r[m] == y);
        assert(r.contains(y));
    } else if less(s.last(), x) {
        assert(r == s.push(x));
        assert forall|i: int, j: int| 0 <= i < j < r.len() implies less(
            #[trigger] r[i],
            #[trigger] r[j],
        ) by {
            if j == s.len() && i < s.len() - 1 {
                assert(less(s[i], s[s.len() - 1]));
            }
        }
        assert forall|y: A| s.contains(y) implies #[trigger] r.contains(y) by {
            let k = choose|k: int| 0 <= k < s.len() && s[k] == y;
            assert(r[k] == y);
        }
        assert(r[s.len() as int] == x);
        assert(r.contains(x));
        assert(!less(x, x));
    } else {
        assert(s.contains(s[s.len() - 1]));
    }
}

/// A sorted set is increasing, holds only given items, and holds an equal of each given item.
pub proof fn law_sorted_set<A>(items: Seq<A>, less: spec_fn(A, A) -> bool)
    requires
        is_strict_order(less),
    ensures
        increasing(sorted_set(items, less), less),
        forall|y: A| #[trigger] sorted_set(items, less).contains(y) ==> items.contains(y),
        forall|x: A| #[trigger]
            items.contains(x) ==> exists|y: A| #[trigger]
                sorted_set(items, less).contains(y) && !less(x, y) && !less(y, x),
    decreases items.len(),
{
    if items.len() > 0 {
        let init = items.drop_last();
        let s = sorted_set(init, less);
        let r = sorted_set(items, less);
        law_sorted_set(init, less);
        lemma_insert_ordered(s, items.last(), less);
        assert forall|y: A| #[trigger] r.contains(y) implies items.contains(y) by {
            if s.contains(y) {
                assert(init.contains(y));
                let k = choose|k: int| 0 <= k < init.len() && init[k] == y;
                assert(items[k] == y);
            } else {
                assert(items[items.len() - 1] == y);
            }
        }
        assert forall|x: A| #[trigger] items.contains(x) implies exists|y: A| #[trigger]
            r.contains(y) && !less(x, y) && !less(y, x) by {
            let k = choose|k: int| 0 <= k < items.len() && items[k] == x;
            if k < init.len() {
                assert(init[k] == x);
                assert(init.contains(x));
                let y = choose|y: A| #[trigger] s.contains(y) && !less(x, y) && !less(y, x);
                assert(r.contains(y));
            }
        }
    }
}

/// The sorted texts are increasing and are the given texts, each once.
pub proof fn law_sorted_texts(items: Seq<Seq<char>>)
    ensures
        increasing(sorted_texts(items), text_order()),
        forall|x: Seq<char>| #[trigger] sorted_texts(items).contains(x) <==> items.contains(x),
{
    law_text_order();
    law_sorted_set(items, text_order());
    assert forall|x: Seq<char>| items.contains(x) implies #[trigger] sorted_texts(
        items,
    ).contains(x) by {
        let y = choose|y: Seq<char>| #[trigger]
            sorted_set(items, text_order()).contains(y) && !text_order()(x, y) && !text_order()(
                y,
                x,
            );
        assert(x == y || text_order()(x, y) || text_order()(y, x));
    }
}

/// Whether `a` comes before `b` in dictionary order.
pub fn text_before(a: &str, b: &str) -> (r: bool)
    ensures
        r == text_less(a@, b@),
{
    let ac = chars_of(a);
    let bc = chars_of(b);
    let mut i: usize = 0;
    proof {
        assert(a@.skip(0) =~= a@);
        assert(b@.skip(0) =~= b@);
    }
    while i < ac.len() && i < bc.len()
        invariant
            ac@ == a@,
            bc@ == b@,
            i <= ac@.len(),
            i <= bc@.len(),
            text_less(a@, b@) == text_less(a@.skip(i as int), b@.skip(i as int)),
        decreases ac@.len() - i,
    {
        if ac[i] != bc[i] {
            return (ac[i] as u32) < (bc[i] as u32);
        }
        proof {
            assert(a@.skip(i as int).drop_first() =~= a@.skip(i + 1));
            assert(b@.skip(i as int).drop_first() =~= b@.skip(i + 1));
        }
        i += 1;
    }
    i < bc.len()
}

pub(crate) proof fn lemma_insert_at<A>(s: Seq<A>, x: A, less: spec_fn(A, A) -> bool, i: int)
    requires
        0 <= i <= s.len(),
        forall|k: int| i <= k < s.len() ==> less(x, #[trigger] s[k]),
        i > 0 ==> !less(x, s[i - 1]),
    ensures
        i > 0 && !less(s[i - 1], x) ==> insert_ordered(s, x, less) == s,
        i == 0 || less(s[i - 1], x) ==> insert_ordered(s, x, less) == s.insert(i, x),
    decreases s.len() - i,
{
    if i == s.len() {
        assert(s.insert(i, x) =~= s.push(x));
        if i == 0 {
            assert(s.push(x) =~= seq![x]);
        }
    } else {
        let t = s.drop_last();
        assert(less(x, s[s.len() - 1]));
        assert forall|k: int| i <= k < t.len() implies less(x, #[trigger] t[k]) by {
            assert(t[k] == s[k]);
        }
        lemma_insert_at(t, x, less, i);
        assert(t.push(s.last()) =~= s);
        assert(t.insert(i, x).push(s.last()) =~= s.insert(i, x));
    }
}

/// Puts `value` at its place among the texts of `v`, where `v` does not hold it already.
pub fn insert_text(v: &mut Vec<String>, value: String)
    ensures
        texts(final(v)@) == insert_ordered(texts(old(v)@), value@, text_order()),
{
    let ghost before = texts(v@);
    let mut i: usize = v.len();
    while i > 0 && text_before(value.as_str(), v[i - 1].as_str())
        invariant
            i <= v@.len(),
            before == texts(v@),
            forall|k: int| i <= k < before.len() ==> text_less(value@, #[trigger] before[k]),
        ensures
            i > 0 ==> !text_less(value@, before[i - 1]),
        decreases i,
    {
        i -= 1;
    }
    proof {
        lemma_insert_at(before, value@, text_order(), i as int);
    }
    if i > 0 && !text_before(v[i - 1].as_str(), value.as_str()) {
        return ;
    }
    let ghost x = value@;
    v.insert(i, value);
    proof {
        assert(texts(v@) =~= before.insert(i as int, x));
    }
}

/// The texts of `items` in dictionary order, each once.
pub fn sort_texts(items: &Vec<String>) -> (out: Vec<String>)
    ensures
        texts(out@) == sorted_texts(texts(items@)),
{
    let mut out: Vec<String> = Vec::new();
    let mut i: usize = 0;
    proof {
        assert(texts(out@) =~= Seq::<Seq<char>>::empty());
        assert(texts(items@).take(0) =~= Seq::<Seq<char>>::empty());
    }
    while i < items.len()
        invariant
            i <= items@.len(),
            texts(out@) == sorted_texts(texts(items@).take(i as int)),
        decreases items@.len() - i,
    {
        insert_text(&mut out, items[i].clone());
        proof {
            assert(texts(items@).take(i + 1).drop_last() =~= texts(items@).take(i as int));
        }
        i += 1;
    }
    proof {
        assert(texts(items@).take(items@.len() as int) =~= texts(items@));
    }
    out
}

/// Putting texts in order, each once, never makes more of them.
pub proof fn lemma_sorted_len(items: Seq<Seq<char>>)
    ensures
        sorted_texts(items).len() <= items.len(),
    decreases items.len(),
{
    if items.len() > 0 {
        lemma_sorted_len(items.drop_last());
        lemma_insert_len(sorted_texts(items.drop_last()), items.last());
    }
}

proof fn lemma_insert_len(s: Seq<Seq<char>>, x: Seq<char>)
    ensures
        insert_ordered(s, x, text_order()).len() <= s.len() + 1,
    decreases s.len(),
{
    if s.len() > 0 {
        lemma_insert_len(s.drop_last(), x);
    }
}

/// Two sequences that differ stand in the order of the first items in which they do, and one that
/// the other begins with stands first.
pub proof fn law_lexicographic<A>(
    common: Seq<A>,
    a: Seq<A>,
    b: Seq<A>,
    less: spec_fn(A, A) -> bool,
)
    ensures
        a.len() > 0 && b.len() > 0 && a[0] != b[0] ==> lexicographic(common + a, common + b, less)
            == less(a[0], b[0]),
        a.len() == 0 && b.len() > 0 ==> lexicographic(common + a, common + b, less),
        b.len() == 0 ==> !lexicographic(common + a, common + b, less),
    decreases common.len(),
{
    if common.len() == 0 {
        assert(common + a =~= a);
        assert(common + b =~= b);
    } else {
        let rest = common.drop_first();
        law_lexicographic(rest, a, b, less);
        assert((common + a).drop_first() =~= rest + a);
        assert((common + b).drop_first() =~= rest + b);
        assert((common + a)[0] == common[0]);
        assert((common + b)[0] == common[0]);
    }
}

/// Texts stand in the order of the first characters in which they differ, by their code points; a
/// text that another one begins with stands before it.
pub proof fn law_dictionary(common: Seq<char>, a: Seq<char>, b: Seq<char>)
    ensures
        a.len() > 0 && b.len() > 0 && a[0] != b[0] ==> (text_less(common + a, common + b)
            <==> (a[0] as int) < (b[0] as int)),
        a.len() == 0 && b.len() > 0 ==> text_less(common + a, common + b),
        b.len() == 0 ==> !text_less(common + a, common + b),
{
    law_lexicographic(common, a, b, char_order());
    if a.len() > 0 && b.len() > 0 {
        lemma_char_order(a[0], b[0]);
    }
}

proof fn lemma_char_order(a: char, b: char)
    ensures
        char_order()(a, b) <==> (a as int) < (b as int),
{
    vstd::utf8::char_is_scalar(a);
    vstd::utf8::char_is_scalar(b);
}

} // verus!
