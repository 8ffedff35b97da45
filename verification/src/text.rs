//! Text operations on `&str` and `String`, stated over the sequence of characters of a text.
use vstd::prelude::*;

verus! {

/// Appending one character: `String::push` adds the character at the end and changes nothing else.
pub assume_specification[ String::push ](s: &mut String, c: char)
    ensures
        final(s)@ == old(s)@.push(c),
;

/// The character sequences of a list of texts.
pub open spec fn texts(v: Seq<String>) -> Seq<Seq<char>> {
    Seq::new(v.len(), |i: int| v[i]@)
}

pub broadcast proof fn lemma_texts_push(v: Seq<String>, s: String)
    ensures
        #[trigger] texts(v.push(s)) == texts(v).push(s@),
{
    assert(texts(v.push(s)) =~= texts(v).push(s@));
}

/// The characters of `s`, in order.
pub fn chars_of(s: &str) -> (out: Vec<char>)
    ensures
        out@ == s@,
{
    let mut out: Vec<char> = Vec::new();
    for c in it: s.chars()
        invariant
            out@ == s@.take(it.index()),
            it.seq() == s@,
    {
        out.push(c);
        proof {
            assert(s@.take(it.index() + 1) =~= s@.take(it.index()).push(c));
        }
    }
    proof {
        assert(s@.take(s@.len() as int) =~= s@);
    }
    out
}

/// The text made of the characters of `chars` from `from` up to, not including, `to`.
pub fn text_of(chars: &Vec<char>, from: usize, to: usize) -> (out: String)
    requires
        from <= to <= chars@.len(),
    ensures
        out@ == chars@.subrange(from as int, to as int),
{
    let mut out = String::new();
    let mut i: usize = from;
    while i < to
        invariant
            from <= i <= to <= chars@.len(),
            out@ == chars@.subrange(from as int, i as int),
        decreases to - i,
    {
        out.push(chars[i]);
        proof {
            assert(chars@.subrange(from as int, i + 1) =~= chars@.subrange(
                from as int,
                i as int,
            ).push(chars@[i as int]));
        }
        i += 1;
    }
    out
}

/// Whether the two texts hold the same characters.
pub fn same_text(a: &str, b: &str) -> (r: bool)
    ensures
        r == (a@ == b@),
{
    a.to_owned() == b.to_owned()
}

// ---------------------------------------------------------------------------
// Character classes
// ---------------------------------------------------------------------------

/// The characters with the Unicode property `White_Space`.
pub open spec fn is_white_space(c: char) -> bool {
    let n = c as u32;
    ||| 0x9 <= n <= 0xD
    ||| n == 0x20
    ||| n == 0x85
    ||| n == 0xA0
    ||| n == 0x1680
    ||| 0x2000 <= n <= 0x200A
    ||| n == 0x2028
    ||| n == 0x2029
    ||| n == 0x202F
    ||| n == 0x205F
    ||| n == 0x3000
}

/// The class of white space characters.
pub open spec fn white_space() -> spec_fn(char) -> bool {
    |c: char| is_white_space(c)
}

pub fn char_is_white_space(c: char) -> (r: bool)
    ensures
        r == is_white_space(c),
{
    let n: u32 = c as u32;
    (0x9 <= n && n <= 0xD) || n == 0x20 || n == 0x85 || n == 0xA0 || n == 0x1680 || (0x2000 <= n
        && n <= 0x200A) || n == 0x2028 || n == 0x2029 || n == 0x202F || n == 0x205F || n == 0x3000
}

/// The class that holds one character only.
pub open spec fn only(c: char) -> spec_fn(char) -> bool {
    |x: char| x == c
}

pub open spec fn is_ascii_letter(c: char) -> bool {
    let n = c as u32;
    0x41 <= n <= 0x5A || 0x61 <= n <= 0x7A
}

pub open spec fn is_ascii_digit(c: char) -> bool {
    0x30 <= c as u32 <= 0x39
}

pub fn char_is_ascii_letter(c: char) -> (r: bool)
    ensures
        r == is_ascii_letter(c),
{
    let n: u32 = c as u32;
    (0x41 <= n && n <= 0x5A) || (0x61 <= n && n <= 0x7A)
}

pub fn char_is_ascii_digit(c: char) -> (r: bool)
    ensures
        r == is_ascii_digit(c),
{
    let n: u32 = c as u32;
    0x30 <= n && n <= 0x39
}

/// The lower case of an ASCII capital letter; every other character is its own.
pub open spec fn ascii_lower_char(c: char) -> char {
    if 0x41 <= c as u32 <= 0x5A {
        (c as u32 + 32) as char
    } else {
        c
    }
}

pub fn char_ascii_lower(c: char) -> (r: char)
    ensures
        r == ascii_lower_char(c),
{
    let n: u32 = c as u32;
    if 0x41 <= n && n <= 0x5A {
        let b: u8 = (n as u8) + 32;
        b as char
    } else {
        c
    }
}

// ---------------------------------------------------------------------------
// Trimming
// ---------------------------------------------------------------------------

/// `s` without its longest prefix of characters of the class `p`.
pub open spec fn trimmed_start(s: Seq<char>, p: spec_fn(char) -> bool) -> Seq<char>
    decreases s.len(),
{
    if s.len() > 0 && p(s[0]) {
        trimmed_start(s.drop_first(), p)
    } else {
        s
    }
}

/// `s` without its longest suffix of characters of the class `p`.
pub open spec fn trimmed_end(s: Seq<char>, p: spec_fn(char) -> bool) -> Seq<char>
    decreases s.len(),
{
    if s.len() > 0 && p(s.last()) {
        trimmed_end(s.drop_last(), p)
    } else {
        s
    }
}

/// `s` without the characters of the class `p` at its two ends.
pub open spec fn trimmed_where(s: Seq<char>, p: spec_fn(char) -> bool) -> Seq<char> {
    trimmed_end(trimmed_start(s, p), p)
}

/// `s` without the white space at its two ends.
pub open spec fn trimmed(s: Seq<char>) -> Seq<char> {
    trimmed_where(s, white_space())
}

/// Whether `s` is empty or all white space.
pub open spec fn is_blank(s: Seq<char>) -> bool {
    trimmed(s).len() == 0
}

proof fn lemma_trimmed_start(s: Seq<char>, p: spec_fn(char) -> bool, i: int)
    requires
        0 <= i <= s.len(),
        forall|k: int| 0 <= k < i ==> p(s[k]),
        i < s.len() ==> !p(s[i]),
    ensures
        trimmed_start(s, p) == s.skip(i),
    decreases i,
{
    if i == 0 {
        assert(s.skip(0) =~= s);
    } else {
        lemma_trimmed_start(s.drop_first(), p, i - 1);
        assert(s.drop_first().skip(i - 1) =~= s.skip(i));
    }
}

proof fn lemma_trimmed_end(s: Seq<char>, p: spec_fn(char) -> bool, j: int)
    requires
        0 <= j <= s.len(),
        forall|k: int| j <= k < s.len() ==> p(s[k]),
        j > 0 ==> !p(s[j - 1]),
    ensures
        trimmed_end(s, p) == s.take(j),
    decreases s.len() - j,
{
    if j == s.len() {
        assert(s.take(j) =~= s);
    } else {
        lemma_trimmed_end(s.drop_last(), p, j);
        assert(s.drop_last().take(j) =~= s.take(j));
    }
}

/// Trimming keeps a piece of the text that neither starts nor ends in the class, and what it
/// takes away belongs to the class.
pub proof fn lemma_trimmed_where(s: Seq<char>, p: spec_fn(char) -> bool) -> (r: (int, int))
    ensures
        0 <= r.0 <= r.1 <= s.len(),
        trimmed_where(s, p) == s.subrange(r.0, r.1),
        forall|k: int| 0 <= k < r.0 ==> p(s[k]),
        forall|k: int| r.1 <= k < s.len() ==> p(s[k]),
        r.0 < r.1 ==> !p(s[r.0]) && !p(s[r.1 - 1]),
    decreases s.len(),
{
    if s.len() == 0 {
        (0int, 0int)
    } else if p(s[0]) {
        let t = s.drop_first();
        let (i, j) = lemma_trimmed_where(t, p);
        assert(t.subrange(i, j) =~= s.subrange(i + 1, j + 1));
        assert forall|k: int| 0 <= k < i + 1 implies p(s[k]) by {
            if k > 0 {
                assert(t[k - 1] == s[k]);
            }
        }
        assert forall|k: int| j + 1 <= k < s.len() implies p(s[k]) by {
            assert(t[k - 1] == s[k]);
        }
        (i + 1, j + 1)
    } else {
        let j = lemma_trimmed_end_at(s, p);
        assert(s.take(j) =~= s.subrange(0, j));
        if j == 0 {
            assert(p(s[0]));
        }
        (0int, j)
    }
}

proof fn lemma_trimmed_end_at(s: Seq<char>, p: spec_fn(char) -> bool) -> (j: int)
    ensures
        0 <= j <= s.len(),
        trimmed_end(s, p) == s.take(j),
        forall|k: int| j <= k < s.len() ==> p(s[k]),
        j > 0 ==> !p(s[j - 1]),
    decreases s.len(),
{
    if s.len() > 0 && p(s.last()) {
        let t = s.drop_last();
        let j = lemma_trimmed_end_at(t, p);
        assert(t.take(j) =~= s.take(j));
        assert forall|k: int| j <= k < s.len() implies p(s[k]) by {
            if k < t.len() {
                assert(t[k] == s[k]);
            }
        }
        j
    } else {
        assert(s.take(s.len() as int) =~= s);
        s.len() as int
    }
}

/// Trimming a trimmed text changes nothing.
pub proof fn lemma_trimmed_idempotent(s: Seq<char>)
    ensures
        trimmed(trimmed(s)) == trimmed(s),
{
    let (i, j) = lemma_trimmed_where(s, white_space());
    let t = trimmed(s);
    lemma_trimmed_start(t, white_space(), 0);
    assert(t.skip(0) =~= t);
    lemma_trimmed_end(t, white_space(), t.len() as int);
    assert(t.take(t.len() as int) =~= t);
}

/// `s` without the characters of the class `p` at its two ends; `f` decides the class.
pub(crate) fn trim_where<'a, F: Fn(char) -> bool>(
    s: &'a str,
    f: F,
    Ghost(p): Ghost<spec_fn(char) -> bool>,
) -> (r: &'a str)
    requires
        forall|c: char| #[trigger] f.requires((c,)),
        forall|c: char, b: bool| #[trigger] f.ensures((c,), b) ==> b == p(c),
    ensures
        r@ == trimmed_where(s@, p),
{
    let chars = chars_of(s);
    let n: usize = chars.len();
    let mut i: usize = 0;
    while i < n && f(chars[i])
        invariant
            i <= n == chars@.len(),
            chars@ == s@,
            forall|k: int| 0 <= k < i ==> p(s@[k]),
            forall|c: char| #[trigger] f.requires((c,)),
            forall|c: char, b: bool| #[trigger] f.ensures((c,), b) ==> b == p(c),
        ensures
            i < n ==> !p(s@[i as int]),
        decreases n - i,
    {
        i += 1;
    }
    let mut j: usize = n;
    while j > i && f(chars[j - 1])
        invariant
            i <= j <= n == chars@.len(),
            chars@ == s@,
            forall|k: int| j <= k < n ==> p(s@[k]),
            forall|c: char| #[trigger] f.requires((c,)),
            forall|c: char, b: bool| #[trigger] f.ensures((c,), b) ==> b == p(c),
        ensures
            j > i ==> !p(s@[j - 1]),
        decreases j,
    {
        j -= 1;
    }
    proof {
        lemma_trimmed_start(s@, p, i as int);
        let t = s@.skip(i as int);
        lemma_trimmed_end(t, p, j - i);
        assert(t.take(j - i) =~= s@.subrange(i as int, j as int));
    }
    s.substring_char(i, j)
}

/// `s` without the white space at its two ends.
pub fn trim<'a>(s: &'a str) -> (r: &'a str)
    ensures
        r@ == trimmed(s@),
{
    trim_where(s, char_is_white_space, Ghost(white_space()))
}

/// Whether `s` is empty or all white space.
pub fn blank(s: &str) -> (r: bool)
    ensures
        r == is_blank(s@),
{
    trim(s).is_empty()
}

// ---------------------------------------------------------------------------
// Searching
// ---------------------------------------------------------------------------

/// Whether `part` occurs in `s`.
pub open spec fn has_text(s: Seq<char>, part: Seq<char>) -> bool {
    exists|i: int| occurs_at(s, part, i)
}

/// Whether `part` stands in `s` at the index `i`.
pub open spec fn occurs_at(s: Seq<char>, part: Seq<char>, i: int) -> bool {
    &&& 0 <= i <= s.len() - part.len()
    &&& s.subrange(i, i + part.len()) == part
}

/// Whether `s` holds the character `c`.
pub open spec fn has_char(s: Seq<char>, c: char) -> bool {
    s.contains(c)
}

/// Whether `s` starts with `part`.
pub open spec fn begins_with(s: Seq<char>, part: Seq<char>) -> bool {
    part.len() <= s.len() && s.take(part.len() as int) == part
}

/// Whether `s` ends with `part`.
pub open spec fn finishes_with(s: Seq<char>, part: Seq<char>) -> bool {
    part.len() <= s.len() && s.skip(s.len() - part.len()) == part
}

fn occurs_from(s: &Vec<char>, part: &Vec<char>, i: usize) -> (r: bool)
    requires
        i + part@.len() <= s@.len(),
    ensures
        r == occurs_at(s@, part@, i as int),
{
    let n: usize = s.len();
    let mut k: usize = 0;
    while k < part.len()
        invariant
            i + part@.len() <= s@.len() == n,
            k <= part@.len(),
            forall|m: int| 0 <= m < k ==> s@[i + m] == part@[m],
        decreases part@.len() - k,
    {
        if s[i + k] != part[k] {
            proof {
                assert(s@.subrange(i as int, i + part@.len())[k as int] == s@[i + k]);
            }
            return false;
        }
        k += 1;
    }
    proof {
        assert(s@.subrange(i as int, i + part@.len()) =~= part@);
    }
    true
}

/// Whether `part` occurs in `s`.
pub fn contains(s: &str, part: &str) -> (r: bool)
    ensures
        r == has_text(s@, part@),
{
    let sc = chars_of(s);
    let pc = chars_of(part);
    if pc.len() > sc.len() {
        return false;
    }
    let last: usize = sc.len() - pc.len();
    let mut i: usize = 0;
    while i <= last
        invariant
            sc@ == s@,
            pc@ == part@,
            last == sc@.len() - pc@.len(),
            i <= last + 1,
            forall|k: int| 0 <= k < i ==> !#[trigger] occurs_at(s@, part@, k),
        decreases last + 1 - i,
    {
        if occurs_from(&sc, &pc, i) {
            return true;
        }
        if i == last {
            return false;
        }
        i += 1;
    }
    false
}

/// Whether `s` holds the character `c`.
pub fn contains_char(s: &str, c: char) -> (r: bool)
    ensures
        r == has_char(s@, c),
{
    let sc = chars_of(s);
    let mut i: usize = 0;
    while i < sc.len()
        invariant
            sc@ == s@,
            i <= sc@.len(),
            forall|k: int| 0 <= k < i ==> s@[k] != c,
        decreases sc@.len() - i,
    {
        if sc[i] == c {
            proof {
                assert(s@[i as int] == c);
            }
            return true;
        }
        i += 1;
    }
    false
}

/// Whether `s` starts with `part`.
pub fn starts_with(s: &str, part: &str) -> (r: bool)
    ensures
        r == begins_with(s@, part@),
{
    let sc = chars_of(s);
    let pc = chars_of(part);
    proof {
        if part@.len() <= s@.len() {
            assert(s@.subrange(0int, 0int + part@.len()) =~= s@.take(part@.len() as int));
        }
    }
    pc.len() <= sc.len() && occurs_from(&sc, &pc, 0)
}

/// Whether `s` ends with `part`.
pub fn ends_with(s: &str, part: &str) -> (r: bool)
    ensures
        r == finishes_with(s@, part@),
{
    let sc = chars_of(s);
    let pc = chars_of(part);
    if pc.len() > sc.len() {
        return false;
    }
    let at: usize = sc.len() - pc.len();
    proof {
        assert(s@.subrange(at as int, at + part@.len()) =~= s@.skip(at as int));
    }
    occurs_from(&sc, &pc, at)
}

/// What follows `part` at the start of `s`; `None` when `s` does not start with it.
pub fn strip_prefix<'a>(s: &'a str, part: &str) -> (r: Option<&'a str>)
    ensures
        r is Some <==> begins_with(s@, part@),
        r matches Some(rest) ==> rest@ == s@.skip(part@.len() as int),
{
    if starts_with(s, part) {
        let n: usize = s.unicode_len();
        let m: usize = part.unicode_len();
        proof {
            assert(s@.subrange(m as int, n as int) =~= s@.skip(m as int));
        }
        Some(s.substring_char(m, n))
    } else {
        None
    }
}

/// What stands before `part` at the end of `s`; `None` when `s` does not end with it.
pub fn strip_suffix<'a>(s: &'a str, part: &str) -> (r: Option<&'a str>)
    ensures
        r is Some <==> finishes_with(s@, part@),
        r matches Some(rest) ==> rest@ == s@.take(s@.len() - part@.len()),
{
    if ends_with(s, part) {
        let n: usize = s.unicode_len();
        let m: usize = part.unicode_len();
        proof {
            assert(s@.subrange(0, n - m) =~= s@.take(n - m));
        }
        Some(s.substring_char(0, n - m))
    } else {
        None
    }
}

/// The index of the last `c` in `s`, or -1.
pub open spec fn last_index(s: Seq<char>, c: char) -> int
    decreases s.len(),
{
    if s.len() == 0 {
        -1
    } else if s.last() == c {
        s.len() - 1
    } else {
        last_index(s.drop_last(), c)
    }
}

pub proof fn lemma_last_index(s: Seq<char>, c: char)
    ensures
        -1 <= last_index(s, c) < s.len(),
        last_index(s, c) >= 0 ==> s[last_index(s, c)] == c,
        forall|k: int| last_index(s, c) < k < s.len() ==> s[k] != c,
        has_char(s, c) <==> last_index(s, c) >= 0,
    decreases s.len(),
{
    if s.len() > 0 && s.last() != c {
        lemma_last_index(s.drop_last(), c);
        assert forall|k: int| last_index(s, c) < k < s.len() implies s[k] != c by {
            if k < s.len() - 1 {
                assert(s.drop_last()[k] == s[k]);
            }
        }
        if has_char(s, c) {
            let k = choose|k: int| 0 <= k < s.len() && s[k] == c;
            assert(s.drop_last()[k] == c);
        }
    }
    if last_index(s, c) >= 0 {
        assert(s[last_index(s, c)] == c);
    }
}

/// The texts before and after the last `c` in `s`; `None` when `s` does not hold it.
pub fn rsplit_once<'a>(s: &'a str, c: char) -> (r: Option<(&'a str, &'a str)>)
    ensures
        r is Some <==> has_char(s@, c),
        r matches Some((before, after)) ==> {
            &&& before@ == s@.take(last_index(s@, c))
            &&& after@ == s@.skip(last_index(s@, c) + 1)
        },
{
    let sc = chars_of(s);
    let n: usize = sc.len();
    let mut i: usize = n;
    proof {
        lemma_last_index(s@, c);
    }
    while i > 0
        invariant
            sc@ == s@,
            i <= n == sc@.len(),
            forall|k: int| i <= k < n ==> s@[k] != c,
            -1 <= last_index(s@, c) < n,
            last_index(s@, c) >= 0 ==> s@[last_index(s@, c)] == c,
            forall|k: int| last_index(s@, c) < k < n ==> s@[k] != c,
            has_char(s@, c) <==> last_index(s@, c) >= 0,
        decreases i,
    {
        if sc[i - 1] == c {
            proof {
                assert(last_index(s@, c) == i - 1);
                assert(s@.subrange(0, i - 1) =~= s@.take(i - 1));
                assert(s@.subrange(i as int, n as int) =~= s@.skip(i as int));
            }
            return Some((s.substring_char(0, i - 1), s.substring_char(i, n)));
        }
        i -= 1;
    }
    None
}

// ---------------------------------------------------------------------------
// Case and replacement
// ---------------------------------------------------------------------------

/// `s` with its ASCII capital letters in lower case.
pub open spec fn ascii_lower(s: Seq<char>) -> Seq<char> {
    Seq::new(s.len(), |i: int| ascii_lower_char(s[i]))
}

/// `s` with every `from` replaced by `to`.
pub open spec fn replaced(s: Seq<char>, from: char, to: char) -> Seq<char> {
    Seq::new(
        s.len(),
        |i: int|
            if s[i] == from {
                to
            } else {
                s[i]
            },
    )
}

pub fn to_ascii_lower(s: &str) -> (r: String)
    ensures
        r@ == ascii_lower(s@),
{
    let mut out = String::new();
    for c in it: s.chars()
        invariant
            it.seq() == s@,
            out@ == ascii_lower(s@.take(it.index())),
    {
        out.push(char_ascii_lower(c));
        proof {
            assert(ascii_lower(s@.take(it.index() + 1)) =~= ascii_lower(
                s@.take(it.index()),
            ).push(ascii_lower_char(c)));
        }
    }
    proof {
        assert(s@.take(s@.len() as int) =~= s@);
    }
    out
}

pub fn replace_char(s: &str, from: char, to: char) -> (r: String)
    ensures
        r@ == replaced(s@, from, to),
{
    let mut out = String::new();
    for c in it: s.chars()
        invariant
            it.seq() == s@,
            out@ == replaced(s@.take(it.index()), from, to),
    {
        out.push(
            if c == from {
                to
            } else {
                c
            },
        );
        proof {
            assert(replaced(s@.take(it.index() + 1), from, to) =~= replaced(
                s@.take(it.index()),
                from,
                to,
            ).push(if c == from { to } else { c }));
        }
    }
    proof {
        assert(s@.take(s@.len() as int) =~= s@);
    }
    out
}

// ---------------------------------------------------------------------------
// Splitting and joining
// ---------------------------------------------------------------------------

/// The pieces of `s` between the characters of the class `p`; there is always at least one.
pub open spec fn split_where(s: Seq<char>, p: spec_fn(char) -> bool) -> Seq<Seq<char>>
    decreases s.len(),
{
    if s.len() == 0 {
        seq![Seq::empty()]
    } else {
        let pieces = split_where(s.drop_last(), p);
        if p(s.last()) {
            pieces.push(Seq::empty())
        } else {
            pieces.drop_last().push(pieces.last().push(s.last()))
        }
    }
}

pub proof fn lemma_split_where(s: Seq<char>, p: spec_fn(char) -> bool)
    ensures
        split_where(s, p).len() >= 1,
        forall|i: int, k: int|
            0 <= i < split_where(s, p).len() && 0 <= k < #[trigger] split_where(s, p)[i].len()
                ==> !p(#[trigger] split_where(s, p)[i][k]),
    decreases s.len(),
{
    if s.len() > 0 {
        lemma_split_where(s.drop_last(), p);
        let pieces = split_where(s.drop_last(), p);
        assert forall|i: int, k: int|
            0 <= i < split_where(s, p).len() && 0 <= k
                < #[trigger] split_where(s, p)[i].len() implies !p(
            #[trigger] split_where(s, p)[i][k],
        ) by {
            if i < pieces.len() {
                if k < pieces[i].len() {
                    assert(pieces[i][k] == split_where(s, p)[i][k]);
                }
            }
        }
    }
}

/// The class of texts that are not empty.
pub open spec fn non_empty() -> spec_fn(Seq<char>) -> bool {
    |s: Seq<char>| s.len() > 0
}

/// The words of `s`: its longest pieces without white space.
pub open spec fn words(s: Seq<char>) -> Seq<Seq<char>> {
    split_where(s, white_space()).filter(non_empty())
}

/// The pieces of `s` between the characters for which `f` holds.
pub(crate) fn split<F: Fn(char) -> bool>(
    s: &str,
    f: F,
    Ghost(p): Ghost<spec_fn(char) -> bool>,
) -> (out: Vec<String>)
    requires
        forall|c: char| #[trigger] f.requires((c,)),
        forall|c: char, b: bool| #[trigger] f.ensures((c,), b) ==> b == p(c),
    ensures
        texts(out@) == split_where(s@, p),
{
    broadcast use lemma_texts_push;

    let mut out: Vec<String> = Vec::new();
    let mut piece = String::new();
    for c in it: s.chars()
        invariant
            it.seq() == s@,
            texts(out@).push(piece@) == split_where(s@.take(it.index()), p),
            forall|c: char| #[trigger] f.requires((c,)),
            forall|c: char, b: bool| #[trigger] f.ensures((c,), b) ==> b == p(c),
    {
        broadcast use lemma_texts_push;

        let ghost before = texts(out@);
        let ghost piece_before = piece@;
        proof {
            let next = s@.take(it.index() + 1);
            assert(next.drop_last() =~= s@.take(it.index()));
            assert(next.last() == c);
            assert(before.push(piece_before).drop_last() =~= before);
        }
        if f(c) {
            out.push(piece);
            piece = String::new();
        } else {
            piece.push(c);
        }
    }
    proof {
        assert(s@.take(s@.len() as int) =~= s@);
    }
    out.push(piece);
    out
}

/// One more item at the end of a list is the last one kept, or changes nothing.
pub broadcast proof fn lemma_filter_push<A>(s: Seq<A>, x: A, p: spec_fn(A) -> bool)
    ensures
        #[trigger] s.push(x).filter(p) == (if p(x) {
            s.filter(p).push(x)
        } else {
            s.filter(p)
        }),
{
    reveal(Seq::filter);
    assert(s.push(x).drop_last() =~= s);
}

/// The first items of a list, up to one more, are the first items and that one.
pub broadcast proof fn lemma_take_push<A>(s: Seq<A>, i: int)
    requires
        0 <= i < s.len(),
    ensures
        #[trigger] s.take(i + 1) == s.take(i).push(s[i]),
{
    assert(s.take(i + 1) =~= s.take(i).push(s[i]));
}

/// The texts of `v` for which `f` holds, in order.
pub(crate) fn filter_texts<F: Fn(&str) -> bool>(
    v: &Vec<String>,
    f: F,
    Ghost(p): Ghost<spec_fn(Seq<char>) -> bool>,
) -> (out: Vec<String>)
    requires
        forall|s: &str| #[trigger] f.requires((s,)),
        forall|s: &str, b: bool| #[trigger] f.ensures((s,), b) ==> b == p(s@),
    ensures
        texts(out@) == texts(v@).filter(p),
{
    let mut out: Vec<String> = Vec::new();
    let mut i: usize = 0;
    proof {
        reveal(Seq::filter);
        assert(texts(v@).take(0) =~= Seq::<Seq<char>>::empty());
        assert(texts(out@) =~= Seq::<Seq<char>>::empty());
    }
    while i < v.len()
        invariant
            i <= v@.len(),
            texts(out@) == texts(v@).take(i as int).filter(p),
            forall|s: &str| #[trigger] f.requires((s,)),
            forall|s: &str, b: bool| #[trigger] f.ensures((s,), b) ==> b == p(s@),
        decreases v@.len() - i,
    {
        broadcast use lemma_texts_push;

        proof {
            lemma_take_push(texts(v@), i as int);
            lemma_filter_push(texts(v@).take(i as int), v@[i as int]@, p);
        }
        if f(v[i].as_str()) {
            out.push(v[i].clone());
        }
        i += 1;
    }
    proof {
        assert(texts(v@).take(v@.len() as int) =~= texts(v@));
    }
    out
}

fn text_is_non_empty(s: &str) -> (r: bool)
    ensures
        r == (s@.len() > 0),
{
    !s.is_empty()
}

/// The texts of `v` that are not empty, in order.
pub fn keep_non_empty(v: &Vec<String>) -> (out: Vec<String>)
    ensures
        texts(out@) == texts(v@).filter(non_empty()),
{
    filter_texts(v, text_is_non_empty, Ghost(non_empty()))
}

/// The texts without the characters of the class `p` at their ends.
pub open spec fn trimmed_each(v: Seq<Seq<char>>, p: spec_fn(char) -> bool) -> Seq<Seq<char>> {
    Seq::new(v.len(), |i: int| trimmed_where(v[i], p))
}

/// The texts of `v` without the characters at their ends for which `f` holds.
pub(crate) fn trim_each<F: Fn(char) -> bool>(
    v: &Vec<String>,
    f: F,
    Ghost(p): Ghost<spec_fn(char) -> bool>,
) -> (out: Vec<String>)
    requires
        forall|c: char| #[trigger] f.requires((c,)),
        forall|c: char, b: bool| #[trigger] f.ensures((c,), b) ==> b == p(c),
    ensures
        texts(out@) == trimmed_each(texts(v@), p),
{
    let mut out: Vec<String> = Vec::new();
    let mut i: usize = 0;
    while i < v.len()
        invariant
            i <= v@.len(),
            texts(out@) == trimmed_each(texts(v@), p).take(i as int),
            forall|c: char| #[trigger] f.requires((c,)),
            forall|c: char, b: bool| #[trigger] f.ensures((c,), b) ==> b == p(c),
        decreases v@.len() - i,
    {
        broadcast use lemma_texts_push;

        out.push(trim_where(v[i].as_str(), &f, Ghost(p)).to_owned());
        proof {
            lemma_take_push(trimmed_each(texts(v@), p), i as int);
        }
        i += 1;
    }
    proof {
        let all = trimmed_each(texts(v@), p);
        assert(all.take(v@.len() as int) =~= all);
    }
    out
}

/// The words of `s`: its longest pieces without white space.
pub fn split_words(s: &str) -> (out: Vec<String>)
    ensures
        texts(out@) == words(s@),
{
    keep_non_empty(&split(s, char_is_white_space, Ghost(white_space())))
}

/// The texts of `parts`, one after another, with `sep` between each two.
pub open spec fn joined(parts: Seq<Seq<char>>, sep: Seq<char>) -> Seq<char>
    decreases parts.len(),
{
    if parts.len() == 0 {
        Seq::empty()
    } else if parts.len() == 1 {
        parts[0]
    } else {
        joined(parts.drop_last(), sep) + sep + parts.last()
    }
}

/// The texts of `parts` from `from` up to, not including, `to`, with `sep` between each two.
pub fn join_range(parts: &Vec<String>, from: usize, to: usize, sep: &str) -> (out: String)
    requires
        from <= to <= parts@.len(),
    ensures
        out@ == joined(texts(parts@).subrange(from as int, to as int), sep@),
{
    let mut out = String::new();
    let mut i: usize = from;
    while i < to
        invariant
            from <= i <= to <= parts@.len(),
            out@ == joined(texts(parts@).subrange(from as int, i as int), sep@),
        decreases to - i,
    {
        proof {
            let next = texts(parts@).subrange(from as int, i + 1);
            assert(next.drop_last() =~= texts(parts@).subrange(from as int, i as int));
            assert(next.last() == parts@[i as int]@);
        }
        if i > from {
            out.append(sep);
        }
        out.append(parts[i].as_str());
        i += 1;
    }
    out
}

/// The texts of `parts` with `sep` between each two.
pub fn join(parts: &Vec<String>, sep: &str) -> (out: String)
    ensures
        out@ == joined(texts(parts@), sep@),
{
    proof {
        assert(texts(parts@).subrange(0, parts@.len() as int) =~= texts(parts@));
    }
    join_range(parts, 0, parts.len(), sep)
}

/// The texts of `parts`, one directly after another.
pub open spec fn concatenated(parts: Seq<Seq<char>>) -> Seq<char> {
    joined(parts, Seq::empty())
}

/// The texts of `parts`, one directly after another.
pub fn concat_all(parts: &Vec<String>) -> (out: String)
    ensures
        out@ == concatenated(texts(parts@)),
{
    proof {
        reveal_strlit("");
        assert(""@ =~= Seq::<char>::empty());
    }
    join(parts, "")
}

// ---------------------------------------------------------------------------
// Lists of texts
// ---------------------------------------------------------------------------

/// Whether `v` holds the text `s`.
pub fn list_contains(v: &Vec<String>, s: &str) -> (r: bool)
    ensures
        r == texts(v@).contains(s@),
{
    let mut i: usize = 0;
    while i < v.len()
        invariant
            i <= v@.len(),
            forall|k: int| 0 <= k < i ==> texts(v@)[k] != s@,
        decreases v@.len() - i,
    {
        if same_text(v[i].as_str(), s) {
            proof {
                assert(texts(v@)[i as int] == s@);
            }
            return true;
        }
        i += 1;
    }
    false
}

/// A copy of the first `limit` texts of `v`, or of all where there are fewer.
pub fn first_texts(v: &Vec<String>, limit: usize) -> (out: Vec<String>)
    ensures
        texts(out@) == first_of(texts(v@), limit as int),
{
    broadcast use lemma_texts_push;

    let n: usize = if v.len() < limit {
        v.len()
    } else {
        limit
    };
    let mut out: Vec<String> = Vec::new();
    let mut i: usize = 0;
    while i < n
        invariant
            i <= n <= v@.len(),
            texts(out@) == texts(v@).take(i as int),
        decreases n - i,
    {
        broadcast use lemma_texts_push;

        out.push(v[i].clone());
        proof {
            assert(texts(v@).take(i + 1) =~= texts(v@).take(i as int).push(v@[i as int]@));
        }
        i += 1;
    }
    proof {
        assert(texts(v@).take(v@.len() as int) =~= texts(v@));
    }
    out
}

/// The first `limit` items of `s`, or all of them where there are fewer.
pub open spec fn first_of<T>(s: Seq<T>, limit: int) -> Seq<T> {
    if s.len() <= limit {
        s
    } else {
        s.take(limit)
    }
}

// ---------------------------------------------------------------------------
// Numbers
// ---------------------------------------------------------------------------

/// The decimal digits of `n`, without leading zeros.
pub open spec fn decimal_text(n: nat) -> Seq<char>
    decreases n,
{
    if n < 10 {
        seq![(0x30 + n) as char]
    } else {
        decimal_text(n / 10).push((0x30 + n % 10) as char)
    }
}

/// The decimal digits of `n`, without leading zeros.
pub fn decimal(n: usize) -> (out: String)
    ensures
        out@ == decimal_text(n as nat),
    decreases n,
{
    let digit: u8 = (n % 10) as u8;
    let mut out = if n < 10 {
        String::new()
    } else {
        decimal(n / 10)
    };
    out.push((0x30u8 + digit) as char);
    out
}

// ---------------------------------------------------------------------------
// Laws of texts
// ---------------------------------------------------------------------------

/// A text is blank exactly where each of its characters is white space, and white space around a
/// text makes no difference to what is left when it is trimmed.
pub proof fn law_blank(s: Seq<char>)
    ensures
        is_blank(s) <==> forall|k: int| 0 <= k < s.len() ==> is_white_space(#[trigger] s[k]),
        !is_blank(s) ==> trimmed(s).len() > 0 && !is_white_space(trimmed(s)[0]) && !is_white_space(
            trimmed(s).last(),
        ),
        has_text(s, trimmed(s)),
{
    let p = white_space();
    let (i, j) = lemma_trimmed_where(s, p);
    assert(occurs_at(s, trimmed(s), i));
    assert forall|k: int| 0 <= k < s.len() implies p(#[trigger] s[k]) == is_white_space(s[k]) by {}
    if i < j {
        assert(trimmed(s)[0] == s[i]);
        assert(trimmed(s).last() == s[j - 1]);
        assert(!is_white_space(s[i]));
    } else {
        assert forall|k: int| 0 <= k < s.len() implies is_white_space(#[trigger] s[k]) by {
            if k < i {
                assert(p(s[k]));
            } else {
                assert(p(s[k]));
            }
        }
    }
}

/// A text that neither starts nor ends with white space is not changed by trimming, nor is it by
/// white space that is put around it.
pub proof fn law_trimmed_keeps(before: Seq<char>, text: Seq<char>, after: Seq<char>)
    requires
        text.len() > 0,
        !is_white_space(text[0]),
        !is_white_space(text.last()),
        forall|k: int| 0 <= k < before.len() ==> is_white_space(#[trigger] before[k]),
        forall|k: int| 0 <= k < after.len() ==> is_white_space(#[trigger] after[k]),
    ensures
        trimmed(before + text + after) == text,
        trimmed(text) == text,
{
    let s = before + text + after;
    let p = white_space();
    let i = before.len() as int;
    assert forall|k: int| 0 <= k < i implies p(s[k]) by {
        assert(s[k] == before[k]);
    }
    assert(s[i] == text[0]);
    lemma_trimmed_start(s, p, i);
    let t = s.skip(i);
    assert(t =~= text + after);
    assert forall|k: int| text.len() <= k < t.len() implies p(t[k]) by {
        assert(t[k] == after[k - text.len()]);
    }
    assert(t[text.len() - 1] == text.last());
    lemma_trimmed_end(t, p, text.len() as int);
    assert(t.take(text.len() as int) =~= text);
    lemma_trimmed_start(text, p, 0);
    assert(text.skip(0) =~= text);
    lemma_trimmed_end(text, p, text.len() as int);
    assert(text.take(text.len() as int) =~= text);
}

proof fn lemma_split_last(s: Seq<char>, p: spec_fn(char) -> bool, i: int)
    requires
        0 <= i <= s.len(),
        forall|k: int| i <= k < s.len() ==> !p(#[trigger] s[k]),
        i > 0 ==> p(s[i - 1]),
    ensures
        split_where(s, p).len() >= 1,
        split_where(s, p).last() == s.skip(i),
    decreases s.len(),
{
    lemma_split_where(s, p);
    if s.len() == 0 {
        assert(s.skip(i) =~= Seq::empty());
    } else if i == s.len() {
        assert(s.skip(i) =~= Seq::empty());
    } else {
        let t = s.drop_last();
        assert forall|k: int| i <= k < t.len() implies !p(#[trigger] t[k]) by {
            assert(t[k] == s[k]);
        }
        if i > 0 {
            assert(t[i - 1] == s[i - 1]);
        }
        lemma_split_last(t, p, i);
        assert(!p(s[s.len() - 1]));
        assert(t.skip(i).push(s.last()) =~= s.skip(i));
    }
}

/// Splitting loses nothing: every longest piece of a text without a character of the class is one
/// of the pieces.
pub proof fn law_split_finds(s: Seq<char>, p: spec_fn(char) -> bool, i: int, j: int)
    requires
        0 <= i <= j <= s.len(),
        forall|k: int| i <= k < j ==> !p(#[trigger] s[k]),
        i > 0 ==> p(s[i - 1]),
        j < s.len() ==> p(s[j]),
    ensures
        split_where(s, p).contains(s.subrange(i, j)),
    decreases s.len(),
{
    let pieces = split_where(s, p);
    if j == s.len() {
        lemma_split_last(s, p, i);
        assert(s.skip(i) =~= s.subrange(i, j));
        assert(pieces[pieces.len() - 1] == s.subrange(i, j));
    } else {
        let t = s.drop_last();
        let before = split_where(t, p);
        assert forall|k: int| i <= k < j implies !p(#[trigger] t[k]) by {
            assert(t[k] == s[k]);
        }
        if i > 0 {
            assert(t[i - 1] == s[i - 1]);
        }
        if j < t.len() {
            assert(t[j] == s[j]);
        }
        law_split_finds(t, p, i, j);
        assert(t.subrange(i, j) =~= s.subrange(i, j));
        let n = choose|n: int| 0 <= n < before.len() && before[n] == t.subrange(i, j);
        lemma_split_where(t, p);
        if p(s.last()) {
            assert(pieces[n] == before[n]);
        } else if n < before.len() - 1 {
            assert(pieces[n] == before[n]);
        } else {
            // The piece is also the last one, so that it comes again before the end.
            assert(j < t.len());
            lemma_split_before_last(t, p, i, j);
            let m = choose|m: int| 0 <= m < before.len() - 1 && before[m] == t.subrange(i, j);
            assert(pieces[m] == before[m]);
        }
    }
}

proof fn lemma_split_before_last(s: Seq<char>, p: spec_fn(char) -> bool, i: int, j: int)
    requires
        0 <= i <= j < s.len(),
        forall|k: int| i <= k < j ==> !p(#[trigger] s[k]),
        i > 0 ==> p(s[i - 1]),
        p(s[j]),
    ensures
        exists|m: int|
            0 <= m < split_where(s, p).len() - 1 && split_where(s, p)[m] == s.subrange(i, j),
    decreases s.len(),
{
    let pieces = split_where(s, p);
    let t = s.drop_last();
    let before = split_where(t, p);
    assert forall|k: int| i <= k < j implies !p(#[trigger] t[k]) by {
        assert(t[k] == s[k]);
    }
    if i > 0 {
        assert(t[i - 1] == s[i - 1]);
    }
    assert(t.subrange(i, j) =~= s.subrange(i, j));
    lemma_split_where(t, p);
    if j == s.len() - 1 {
        lemma_split_last(t, p, i);
        assert(t.skip(i) =~= t.subrange(i, j));
        let m = before.len() - 1;
        assert(pieces[m] == before[m]);
        assert(pieces[m] == s.subrange(i, j));
    } else {
        assert(t[j] == s[j]);
        lemma_split_before_last(t, p, i, j);
        let m = choose|m: int| 0 <= m < before.len() - 1 && before[m] == t.subrange(i, j);
        assert(pieces[m] == before[m]);
        assert(pieces[m] == s.subrange(i, j));
    }
}

/// Splitting invents nothing: each piece is a piece of the text, from its start or a character of
/// the class up to its end or the next such character.
pub proof fn law_split_piece(s: Seq<char>, p: spec_fn(char) -> bool, n: int) -> (r: (int, int))
    requires
        0 <= n < split_where(s, p).len(),
    ensures
        0 <= r.0 <= r.1 <= s.len(),
        split_where(s, p)[n] == s.subrange(r.0, r.1),
        forall|k: int| r.0 <= k < r.1 ==> !p(#[trigger] s[k]),
        r.0 > 0 ==> p(s[r.0 - 1]),
        r.1 < s.len() ==> p(s[r.1]),
        n == split_where(s, p).len() - 1 <==> r.1 == s.len(),
    decreases s.len(),
{
    let pieces = split_where(s, p);
    if s.len() == 0 {
        assert(pieces[0] =~= s.subrange(0, 0));
        (0int, 0int)
    } else {
        let t = s.drop_last();
        let before = split_where(t, p);
        lemma_split_where(t, p);
        if n < before.len() {
            let (i, j) = law_split_piece(t, p, n);
            assert forall|k: int| i <= k < j implies !p(#[trigger] s[k]) by {
                assert(t[k] == s[k]);
            }
            if i > 0 {
                assert(t[i - 1] == s[i - 1]);
            }
            if j < t.len() {
                assert(t[j] == s[j]);
            }
            if p(s.last()) {
                assert(pieces[n] == before[n]);
                assert(t.subrange(i, j) =~= s.subrange(i, j));
                (i, j)
            } else if n < before.len() - 1 {
                assert(pieces[n] == before[n]);
                assert(t.subrange(i, j) =~= s.subrange(i, j));
                (i, j)
            } else {
                assert(pieces[n] == before[n].push(s.last()));
                assert(t.subrange(i, j).push(s.last()) =~= s.subrange(i, j + 1));
                (i, j + 1)
            }
        } else {
            assert(pieces[n] =~= s.subrange(s.len() as int, s.len() as int));
            (s.len() as int, s.len() as int)
        }
    }
}

/// Splitting at one character and joining with it gives the text back.
pub proof fn law_split_joined(s: Seq<char>, c: char)
    ensures
        joined(split_where(s, only(c)), seq![c]) == s,
    decreases s.len(),
{
    let p = only(c);
    let pieces = split_where(s, p);
    if s.len() == 0 {
        assert(pieces[0] =~= s);
    } else {
        let t = s.drop_last();
        let before = split_where(t, p);
        law_split_joined(t, c);
        lemma_split_where(t, p);
        if s.last() == c {
            assert(pieces.drop_last() =~= before);
            assert(joined(pieces, seq![c]) =~= t + seq![c]);
            assert(t + seq![c] =~= s);
        } else {
            assert(pieces.drop_last() =~= before.drop_last());
            assert(pieces.last() == before.last().push(s.last()));
            if before.len() == 1 {
                assert(before.last() == t);
                assert(joined(pieces, seq![c]) == t.push(s.last()));
            } else {
                assert(joined(pieces, seq![c]) =~= joined(before, seq![c]).push(s.last()));
            }
            assert(t.push(s.last()) =~= s);
        }
    }
}

/// Every longest run of characters without white space is one of the words, and every word is such
/// a run.
pub proof fn law_words(s: Seq<char>, i: int, j: int)
    requires
        0 <= i < j <= s.len(),
        forall|k: int| i <= k < j ==> !is_white_space(#[trigger] s[k]),
        i > 0 ==> is_white_space(s[i - 1]),
        j < s.len() ==> is_white_space(s[j]),
    ensures
        words(s).contains(s.subrange(i, j)),
{
    let pieces = split_where(s, white_space());
    law_split_finds(s, white_space(), i, j);
    lemma_filter_contains(pieces, non_empty(), s.subrange(i, j));
}

/// An item is among those that are kept exactly where it is among all and is kept.
pub proof fn lemma_filter_contains<A>(s: Seq<A>, p: spec_fn(A) -> bool, x: A)
    ensures
        s.filter(p).contains(x) <==> s.contains(x) && p(x),
        s.filter(p).len() <= s.len(),
    decreases s.len(),
{
    reveal(Seq::filter);
    if s.len() > 0 {
        let init = s.drop_last();
        let kept = init.filter(p);
        lemma_filter_contains(init, p, x);
        assert(s =~= init.push(s.last()));
        lemma_filter_push(init, s.last(), p);
        if s.contains(x) {
            let k = choose|k: int| 0 <= k < s.len() && s[k] == x;
            if k < init.len() {
                assert(init[k] == x);
                if p(x) {
                    let m = choose|m: int| 0 <= m < kept.len() && kept[m] == x;
                    assert(s.filter(p)[m] == x);
                }
            } else if p(x) {
                assert(s.filter(p)[kept.len() as int] == x);
            }
        }
        if s.filter(p).contains(x) {
            let k = choose|k: int| 0 <= k < s.filter(p).len() && s.filter(p)[k] == x;
            if k < kept.len() {
                assert(kept[k] == x);
                assert(kept.contains(x));
                let m = choose|m: int| 0 <= m < init.len() && init[m] == x;
                assert(s[m] == x);
            } else {
                assert(s[s.len() - 1] == x);
            }
        }
    }
}

/// Of a list of at most so many items all are kept, of a longer one the first so many.
pub proof fn law_first_of<T>(s: Seq<T>, limit: int)
    requires
        0 <= limit,
    ensures
        first_of(s, limit).is_prefix_of(s),
        s.len() <= limit ==> first_of(s, limit) == s,
        s.len() > limit ==> first_of(s, limit).len() == limit,
{
}

/// The lower case of one character.
pub proof fn lemma_lower_char(c: char)
    ensures
        'A' <= c <= 'Z' ==> ascii_lower_char(c) as int == c as int + 32,
        !('A' <= c <= 'Z') ==> ascii_lower_char(c) == c,
{
    vstd::utf8::char_is_scalar(c);
}

/// Lower case changes the capital letters from A to Z and nothing else, and changes nothing more
/// when it is taken again.
pub proof fn law_ascii_lower(s: Seq<char>)
    ensures
        ascii_lower(s).len() == s.len(),
        ascii_lower(ascii_lower(s)) == ascii_lower(s),
        forall|i: int|
            0 <= i < s.len() ==> ({
                let c = s[i];
                let d = #[trigger] ascii_lower(s)[i];
                &&& 'A' <= c <= 'Z' ==> d as int == c as int + 32
                &&& !('A' <= c <= 'Z') ==> d == c
            }),
{
    assert forall|i: int| 0 <= i < s.len() implies ({
        let c = s[i];
        let d = #[trigger] ascii_lower(s)[i];
        &&& 'A' <= c <= 'Z' ==> d as int == c as int + 32
        &&& !('A' <= c <= 'Z') ==> d == c
    }) by {
        lemma_lower_char(s[i]);
    }
    assert forall|i: int| 0 <= i < s.len() implies ascii_lower_char(
        #[trigger] ascii_lower(s)[i],
    ) == ascii_lower(s)[i] by {
        lemma_lower_char(s[i]);
        lemma_lower_char(ascii_lower(s)[i]);
    }
    assert(ascii_lower(ascii_lower(s)) =~= ascii_lower(s));
}

/// The number that decimal digits stand for.
pub open spec fn decimal_value(digits: Seq<char>) -> int
    decreases digits.len(),
{
    if digits.len() == 0 {
        0
    } else {
        10 * decimal_value(digits.drop_last()) + (digits.last() as int - '0' as int)
    }
}

/// The digits of a number stand for that number, are digits, and do not start with a zero unless
/// the number is zero.
pub proof fn law_decimal(n: nat)
    ensures
        decimal_value(decimal_text(n)) == n,
        decimal_text(n).len() > 0,
        forall|i: int| 0 <= i < decimal_text(n).len() ==> '0' <= #[trigger] decimal_text(n)[i] <= '9',
        n > 0 ==> decimal_text(n)[0] != '0',
    decreases n,
{
    let text = decimal_text(n);
    if n < 10 {
        assert(text.drop_last() =~= Seq::<char>::empty());
        assert(decimal_value(text.drop_last()) == 0);
    } else {
        law_decimal(n / 10);
        assert(text.drop_last() =~= decimal_text(n / 10));
    }
}

/// What is put between two texts occurs in the whole.
pub proof fn lemma_has_middle(before: Seq<char>, text: Seq<char>, after: Seq<char>)
    ensures
        has_text(before + text + after, text),
{
    let all = before + text + after;
    let i = before.len() as int;
    assert(all.subrange(i, i + text.len()) =~= text);
    assert(occurs_at(all, text, i));
}

/// What occurs in a part of a text occurs in the text.
pub proof fn lemma_has_text_within(s: Seq<char>, part: Seq<char>, inner: Seq<char>)
    requires
        has_text(s, part),
        has_text(part, inner),
    ensures
        has_text(s, inner),
{
    let i = choose|i: int| occurs_at(s, part, i);
    let j = choose|j: int| occurs_at(part, inner, j);
    assert(s.subrange(i + j, i + j + inner.len()) =~= part.subrange(j, j + inner.len()));
    assert(occurs_at(s, inner, i + j));
}

proof fn lemma_joined_push(parts: Seq<Seq<char>>, sep: Seq<char>, part: Seq<char>)
    ensures
        joined(parts.push(part), sep) == (if parts.len() == 0 {
            part
        } else {
            joined(parts, sep) + sep + part
        }),
{
    assert(parts.push(part).drop_last() =~= parts);
}

/// Each of the texts occurs in what they are joined to, and joining one more puts it at the end,
/// after the separator.
pub proof fn law_joined(parts: Seq<Seq<char>>, sep: Seq<char>, part: Seq<char>)
    ensures
        joined(Seq::empty(), sep).len() == 0,
        joined(seq![part], sep) == part,
        parts.len() > 0 ==> joined(parts.push(part), sep) == joined(parts, sep) + sep + part,
        forall|i: int| 0 <= i < parts.len() ==> has_text(joined(parts, sep), #[trigger] parts[i]),
    decreases parts.len(),
{
    lemma_joined_push(parts, sep, part);
    if parts.len() > 0 {
        let init = parts.drop_last();
        law_joined(init, sep, part);
        let all = joined(parts, sep);
        assert forall|i: int| 0 <= i < parts.len() implies has_text(all, #[trigger] parts[i]) by {
            if parts.len() == 1 {
                lemma_has_middle(Seq::empty(), parts[0], Seq::empty());
                assert(Seq::<char>::empty() + parts[0] + Seq::<char>::empty() =~= parts[0]);
            } else if i < init.len() {
                assert(init[i] == parts[i]);
                lemma_has_middle(Seq::empty(), joined(init, sep), sep + parts.last());
                assert(Seq::<char>::empty() + joined(init, sep) + (sep + parts.last()) =~= all);
                lemma_has_text_within(all, joined(init, sep), parts[i]);
            } else {
                lemma_has_middle(joined(init, sep) + sep, parts.last(), Seq::empty());
                assert(joined(init, sep) + sep + parts.last() + Seq::<char>::empty() =~= all);
            }
        }
    }
}

/// Trimming takes off exactly the characters of the class that stand around a text which neither
/// begins nor ends with one.
pub proof fn law_trimmed_where(
    before: Seq<char>,
    text: Seq<char>,
    after: Seq<char>,
    p: spec_fn(char) -> bool,
)
    requires
        text.len() > 0,
        !p(text[0]),
        !p(text.last()),
        forall|k: int| 0 <= k < before.len() ==> p(#[trigger] before[k]),
        forall|k: int| 0 <= k < after.len() ==> p(#[trigger] after[k]),
    ensures
        trimmed_where(before + text + after, p) == text,
{
    let s = before + text + after;
    let i = before.len() as int;
    let j = i + text.len();
    let (a, b) = lemma_trimmed_where(s, p);
    assert(s[i] == text[0]);
    assert(s[j - 1] == text.last());
    assert(a <= i) by {
        if a > i {
            assert(p(s[i]));
        }
    }
    assert(b >= j) by {
        if b < j {
            assert(p(s[j - 1]));
        }
    }
    if a < i {
        assert(s[a] == before[a]);
    }
    if b > j {
        assert(s[b - 1] == after[b - 1 - j]);
    }
    assert(s.subrange(i, j) =~= text);
}

} // verus!
