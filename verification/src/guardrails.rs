//! The rules that an enhanced prompt has to keep before anybody sees it.
use vstd::prelude::*;
use crate::context_pack::{
    char_is_path_edge, has_known_extension, is_web_address, known_extension, path_edges, path_texts,
    ContextPack,
};
use crate::ordered::law_sorted_texts;
use crate::paths::{path_string, path_text};
use crate::text::{
    begins_with, blank, chars_of, char_is_ascii_digit, char_is_ascii_letter, contains_char,
    filter_texts, has_char, is_ascii_digit, is_ascii_letter, is_blank, is_white_space,
    keep_non_empty, law_split_finds, law_split_piece, law_words, lemma_filter_contains, lemma_take_push,
    lemma_texts_push, list_contains, non_empty, split, split_where, split_words, starts_with, texts,
    trim_each, trimmed_each, trimmed_where, words,
};

verus! {

/// Whether `c` separates paths in a list.
pub open spec fn is_list_mark(c: char) -> bool {
    c == '：' || c == '；' || c == '，' || c == '、' || c == ';' || c == ','
}

/// The class of characters that separate paths in a list.
pub open spec fn list_marks() -> spec_fn(char) -> bool {
    |c: char| is_list_mark(c)
}

/// Whether `c` is a slash or a backslash.
pub open spec fn is_path_separator(c: char) -> bool {
    c == '/' || c == '\\'
}

/// The class of slash and backslash.
pub open spec fn path_separators() -> spec_fn(char) -> bool {
    |c: char| is_path_separator(c)
}

/// Whether `c` can stand in a name of a path written without any other mark of a path.
pub open spec fn is_plain_name_char(c: char) -> bool {
    is_ascii_letter(c) || is_ascii_digit(c) || c == '_' || c == '-' || c == '.' || c == '@' || c
        == '+'
}

/// Whether every character of a name is a plain one.
pub open spec fn is_plain_name(name: Seq<char>) -> bool {
    forall|k: int| 0 <= k < name.len() ==> is_plain_name_char(#[trigger] name[k])
}

/// Whether a part of a text is written like a path: it has a slash or backslash, and either it
/// starts like a path or has a backslash, or it is two or more plain names with slashes between.
pub open spec fn is_filesystem_path(part: Seq<char>) -> bool {
    let names = split_where(part, path_separators()).filter(non_empty());
    &&& has_char(part, '/') || has_char(part, '\\')
    &&& {
        ||| begins_with(part, "./"@)
        ||| begins_with(part, "../"@)
        ||| begins_with(part, "~/"@)
        ||| begins_with(part, "/"@)
        ||| has_char(part, '\\')
        ||| names.len() >= 2 && forall|i: int|
            0 <= i < names.len() ==> is_plain_name(#[trigger] names[i])
    }
}

/// The class of parts of a text that are taken for paths.
pub open spec fn path_mentions() -> spec_fn(Seq<char>) -> bool {
    |part: Seq<char>| known_extension(part) || is_filesystem_path(part)
}

/// The paths that one word mentions.
pub open spec fn word_mentions(word: Seq<char>) -> Seq<Seq<char>> {
    let token = crate::text::trimmed_where(word, path_edges());
    if is_web_address(token) {
        Seq::empty()
    } else {
        path_texts(
            trimmed_each(split_where(token, list_marks()), path_edges()).filter(path_mentions()),
        )
    }
}

/// The paths that a list of words mentions, in order.
pub open spec fn mentions_in(list: Seq<Seq<char>>) -> Seq<Seq<char>>
    decreases list.len(),
{
    if list.len() == 0 {
        Seq::empty()
    } else {
        mentions_in(list.drop_last()) + word_mentions(list.last())
    }
}

/// The paths that a text mentions, in order.
pub open spec fn mentions_of(text: Seq<char>) -> Seq<Seq<char>> {
    mentions_in(words(text))
}

/// The first of the paths that is not among the known ones.
pub open spec fn first_unknown(paths: Seq<Seq<char>>, known: Seq<Seq<char>>) -> Option<Seq<char>>
    decreases paths.len(),
{
    if paths.len() == 0 {
        None
    } else {
        match first_unknown(paths.drop_last(), known) {
            Some(path) => Some(path),
            None => if known.contains(paths.last()) {
                None
            } else {
                Some(paths.last())
            },
        }
    }
}

proof fn lemma_first_unknown_prefix(paths: Seq<Seq<char>>, known: Seq<Seq<char>>, k: int)
    requires
        0 <= k <= paths.len(),
        first_unknown(paths.take(k), known) is Some,
    ensures
        first_unknown(paths, known) == first_unknown(paths.take(k), known),
    decreases paths.len() - k,
{
    if k == paths.len() {
        assert(paths.take(k) =~= paths);
    } else {
        assert(paths.take(k + 1).drop_last() =~= paths.take(k));
        lemma_first_unknown_prefix(paths, known, k + 1);
    }
}

/// A text has an unknown path exactly where one of the paths it mentions is not known.
pub proof fn law_first_unknown(paths: Seq<Seq<char>>, known: Seq<Seq<char>>)
    ensures
        first_unknown(paths, known) is None <==> forall|p: Seq<char>| #[trigger]
            paths.contains(p) ==> known.contains(p),
        first_unknown(paths, known) matches Some(p) ==> paths.contains(p) && !known.contains(p),
    decreases paths.len(),
{
    if paths.len() > 0 {
        let init = paths.drop_last();
        law_first_unknown(init, known);
        assert(paths.contains(paths[paths.len() - 1]));
        if first_unknown(init, known) is Some {
            let p = first_unknown(init, known)->Some_0;
            let k = choose|k: int| 0 <= k < init.len() && init[k] == p;
            assert(paths[k] == p);
            assert(paths.contains(p));
        } else {
            assert forall|p: Seq<char>| #[trigger] paths.contains(p) && known.contains(
                paths.last(),
            ) implies known.contains(p) by {
                let k = choose|k: int| 0 <= k < paths.len() && paths[k] == p;
                if k < init.len() {
                    assert(init[k] == p);
                    assert(init.contains(p));
                }
            }
        }
    }
}

fn char_is_list_mark(c: char) -> (r: bool)
    ensures
        r == is_list_mark(c),
{
    c == '：' || c == '；' || c == '，' || c == '、' || c == ';' || c == ','
}

fn char_is_path_separator(c: char) -> (r: bool)
    ensures
        r == is_path_separator(c),
{
    c == '/' || c == '\\'
}

/// Whether every character of a name is a plain one.
pub fn is_pathish_component(component: &str) -> (r: bool)
    ensures
        r == is_plain_name(component@),
{
    let chars = chars_of(component);
    let mut i: usize = 0;
    while i < chars.len()
        invariant
            chars@ == component@,
            i <= chars@.len(),
            forall|k: int| 0 <= k < i ==> is_plain_name_char(#[trigger] component@[k]),
        decreases chars@.len() - i,
    {
        let c = chars[i];
        if !(char_is_ascii_letter(c) || char_is_ascii_digit(c) || c == '_' || c == '-' || c == '.'
            || c == '@' || c == '+') {
            proof {
                assert(!is_plain_name_char(component@[i as int]));
            }
            return false;
        }
        i += 1;
    }
    true
}

/// Whether a part of a text is written like a path.
pub fn looks_like_filesystem_path(part: &str) -> (r: bool)
    ensures
        r == is_filesystem_path(part@),
{
    if !(contains_char(part, '/') || contains_char(part, '\\')) {
        return false;
    }
    if starts_with(part, "./") || starts_with(part, "../") || starts_with(part, "~/")
        || starts_with(part, "/") || contains_char(part, '\\') {
        return true;
    }
    let names = keep_non_empty(&split(part, char_is_path_separator, Ghost(path_separators())));
    let ghost model = texts(names@);
    if names.len() < 2 {
        return false;
    }
    let mut i: usize = 0;
    #[verifier::loop_isolation(false)]
    while i < names.len()
        invariant
            model == texts(names@),
            i <= names@.len(),
            forall|k: int| 0 <= k < i ==> is_plain_name(#[trigger] model[k]),
        decreases names@.len() - i,
    {
        if !is_pathish_component(names[i].as_str()) {
            proof {
                assert(!is_plain_name(model[i as int]));
            }
            return false;
        }
        i += 1;
    }
    true
}

fn mentions_path(part: &str) -> (r: bool)
    ensures
        r == (known_extension(part@) || is_filesystem_path(part@)),
{
    has_known_extension(part) || looks_like_filesystem_path(part)
}

/// The paths that a text mentions, in order.
pub fn extract_path_like_tokens(text: &str) -> (out: Vec<String>)
    ensures
        texts(out@) == mentions_of(text@),
{
    let all = split_words(text);
    let tokens = trim_each(&all, char_is_path_edge, Ghost(path_edges()));
    let ghost list = words(text@);
    let mut out: Vec<String> = Vec::new();
    let mut i: usize = 0;
    proof {
        assert(texts(tokens@).len() == list.len());
        assert(list.take(0) =~= Seq::<Seq<char>>::empty());
        assert(texts(out@) =~= Seq::<Seq<char>>::empty());
    }
    while i < tokens.len()
        invariant
            i <= tokens@.len(),
            list.len() == tokens@.len(),
            list == words(text@),
            texts(tokens@) == trimmed_each(list, path_edges()),
            texts(out@) == mentions_in(list.take(i as int)),
        decreases tokens@.len() - i,
    {
        let token = tokens[i].as_str();
        proof {
            assert(texts(tokens@)[i as int] == token@);
            assert(list.take(i + 1).drop_last() =~= list.take(i as int));
            assert(list.take(i + 1).last() == list[i as int]);
        }
        if starts_with(token, "http://") || starts_with(token, "https://") {
            proof {
                assert(texts(out@) + word_mentions(list[i as int]) =~= texts(out@));
            }
        } else {
            let parts = filter_texts(
                &trim_each(
                    &split(token, char_is_list_mark, Ghost(list_marks())),
                    char_is_path_edge,
                    Ghost(path_edges()),
                ),
                mentions_path,
                Ghost(path_mentions()),
            );
            let ghost before = texts(out@);
            let ghost found = word_mentions(list[i as int]);
            let mut k: usize = 0;
            proof {
                assert(found == path_texts(texts(parts@)));
                assert(before + found.take(0) =~= before);
            }
            while k < parts.len()
                invariant
                    k <= parts@.len(),
                    found == path_texts(texts(parts@)),
                    texts(out@) == before + found.take(k as int),
                decreases parts@.len() - k,
            {
                broadcast use lemma_texts_push;

                out.push(path_string(parts[k].as_str()));
                proof {
                    lemma_take_push(found, k as int);
                    assert(before + found.take(k as int).push(found[k as int]) =~= (before
                        + found.take(k as int)).push(found[k as int]));
                }
                k += 1;
            }
            proof {
                assert(found.take(found.len() as int) =~= found);
            }
        }
        i += 1;
    }
    proof {
        assert(list.take(list.len() as int) =~= list);
    }
    out
}

/// Fails on the first path of the prompt that the pack does not know.
pub fn validate_paths(context_pack: &ContextPack, enhanced_prompt: &str) -> (r: Result<(), String>)
    ensures
        match first_unknown(
            mentions_of(enhanced_prompt@),
            path_texts(context_pack.known_paths()),
        ) {
            Some(path) => r is Err && r->Err_0@ == "enhanced prompt invented path `"@ + path
                + "`"@,
            None => r is Ok,
        },
{
    let allowed = context_pack.allowed_path_strings();
    let paths = extract_path_like_tokens(enhanced_prompt);
    let ghost known = path_texts(context_pack.known_paths());
    let ghost all = mentions_of(enhanced_prompt@);
    let mut i: usize = 0;
    proof {
        law_sorted_texts(known);
        assert(all.take(0) =~= Seq::<Seq<char>>::empty());
    }
    while i < paths.len()
        invariant
            i <= paths@.len(),
            texts(paths@) == all,
            forall|x: Seq<char>| #[trigger] texts(allowed@).contains(x) <==> known.contains(x),
            first_unknown(all.take(i as int), known) is None,
            all == mentions_of(enhanced_prompt@),
            known == path_texts(context_pack.known_paths()),
        decreases paths@.len() - i,
    {
        proof {
            assert(all[i as int] == paths@[i as int]@);
            assert(all.take(i + 1).drop_last() =~= all.take(i as int));
            assert(all.take(i + 1).last() == all[i as int]);
        }
        if !list_contains(&allowed, paths[i].as_str()) {
            proof {
                lemma_first_unknown_prefix(all, known, i + 1);
            }
            let mut message = "enhanced prompt invented path `".to_owned();
            message.append(paths[i].as_str());
            message.append("`");
            return Err(message);
        }
        i += 1;
    }
    proof {
        assert(all.take(all.len() as int) =~= all);
    }
    Ok(())
}

/// Fails where the prompt is blank or mentions a path that the pack does not know.
pub fn validate_enhanced_prompt(context_pack: &ContextPack, enhanced_prompt: &str) -> (r: Result<
    (),
    String,
>)
    ensures
        is_blank(enhanced_prompt@) ==> r is Err && r->Err_0@ == "enhanced prompt is empty"@,
        !is_blank(enhanced_prompt@) ==> match first_unknown(
            mentions_of(enhanced_prompt@),
            path_texts(context_pack.known_paths()),
        ) {
            Some(path) => r is Err && r->Err_0@ == "enhanced prompt invented path `"@ + path
                + "`"@,
            None => r is Ok,
        },
{
    if blank(enhanced_prompt) {
        return Err("enhanced prompt is empty".to_owned());
    }
    validate_paths(context_pack, enhanced_prompt)
}

// ---------------------------------------------------------------------------
// Laws of mentions
// ---------------------------------------------------------------------------

proof fn lemma_mentions_in(list: Seq<Seq<char>>, k: int, path: Seq<char>)
    requires
        0 <= k < list.len(),
        word_mentions(list[k]).contains(path),
    ensures
        mentions_in(list).contains(path),
    decreases list.len(),
{
    let before = mentions_in(list.drop_last());
    let last = word_mentions(list.last());
    if k < list.len() - 1 {
        assert(list.drop_last()[k] == list[k]);
        lemma_mentions_in(list.drop_last(), k, path);
        let m = choose|m: int| 0 <= m < before.len() && before[m] == path;
        assert((before + last)[m] == path);
    } else {
        let m = choose|m: int| 0 <= m < last.len() && last[m] == path;
        assert((before + last)[before.len() + m] == path);
    }
}

/// Whether `c` separates the entries of a list: a comma, a semicolon, or one of the marks for that
/// in Chinese texts.
pub open spec fn separates(c: char) -> bool {
    ||| c == ','
    ||| c == ';'
    ||| c as int == 0xFF1A
    ||| c as int == 0xFF1B
    ||| c as int == 0xFF0C
    ||| c as int == 0x3001
}

/// No path goes unseen: where a word, without the punctuation around it, is no web address, each
/// entry of the list that it is, without the punctuation around it, is mentioned where it has a known
/// extension or is written like a path, with `/` for every backslash.
pub proof fn law_mentions(text: Seq<char>, i: int, j: int, a: int, b: int)
    requires
        0 <= i < j <= text.len(),
        forall|k: int| i <= k < j ==> !is_white_space(#[trigger] text[k]),
        i > 0 ==> is_white_space(text[i - 1]),
        j < text.len() ==> is_white_space(text[j]),
        ({
            let token = trimmed_where(text.subrange(i, j), path_edges());
            &&& !begins_with(token, "http://"@)
            &&& !begins_with(token, "https://"@)
            &&& 0 <= a <= b <= token.len()
            &&& forall|k: int| a <= k < b ==> !separates(#[trigger] token[k])
            &&& a > 0 ==> separates(token[a - 1])
            &&& b < token.len() ==> separates(token[b])
        }),
    ensures
        ({
            let token = trimmed_where(text.subrange(i, j), path_edges());
            let part = trimmed_where(token.subrange(a, b), path_edges());
            known_extension(part) || is_filesystem_path(part) ==> mentions_of(text).contains(
                path_text(part),
            )
        }),
{
    let word = text.subrange(i, j);
    let token = trimmed_where(word, path_edges());
    let piece = token.subrange(a, b);
    let part = trimmed_where(piece, path_edges());
    law_words(text, i, j);
    assert forall|k: int| 0 <= k < token.len() implies list_marks()(#[trigger] token[k])
        == separates(token[k]) by {
        lemma_separates(token[k]);
    }
    assert forall|k: int| a <= k < b implies !list_marks()(#[trigger] token[k]) by {
        assert(!separates(token[k]));
    }
    law_split_finds(token, list_marks(), a, b);
    let pieces = split_where(token, list_marks());
    let all = trimmed_each(pieces, path_edges());
    let n = choose|n: int| 0 <= n < pieces.len() && pieces[n] == piece;
    assert(all[n] == part);
    assert(all.contains(part));
    lemma_filter_contains(all, path_mentions(), part);
    if known_extension(part) || is_filesystem_path(part) {
        let kept = all.filter(path_mentions());
        let m = choose|m: int| 0 <= m < kept.len() && kept[m] == part;
        assert(path_texts(kept)[m] == path_text(part));
        assert(word_mentions(word).contains(path_text(part)));
        let k = choose|k: int| 0 <= k < words(text).len() && words(text)[k] == word;
        lemma_mentions_in(words(text), k, path_text(part));
    }
}

proof fn lemma_separates(c: char)
    ensures
        is_list_mark(c) == separates(c),
{
}

/// Only what looks like a path is mentioned: each mention is a part of the text with a known
/// extension or that is written like a path, with `/` for every backslash.
pub proof fn law_mentions_are_paths(list: Seq<Seq<char>>, path: Seq<char>)
    requires
        mentions_in(list).contains(path),
    ensures
        exists|part: Seq<char>|
            #[trigger] path_text(part) == path && (known_extension(part) || is_filesystem_path(
                part,
            )),
    decreases list.len(),
{
    if list.len() > 0 {
        let before = mentions_in(list.drop_last());
        let last = word_mentions(list.last());
        let m = choose|m: int| 0 <= m < (before + last).len() && (before + last)[m] == path;
        if m < before.len() {
            assert(before[m] == path);
            law_mentions_are_paths(list.drop_last(), path);
        } else {
            let token = trimmed_where(list.last(), path_edges());
            let all = trimmed_each(split_where(token, list_marks()), path_edges());
            let kept = all.filter(path_mentions());
            let part = kept[m - before.len()];
            assert(kept.contains(part));
            lemma_filter_contains(all, path_mentions(), part);
            assert(path_text(part) == path);
        }
    }
}

/// What is written like a path: something with a backslash, or with a slash that starts with `/`,
/// `./`, `../` or `~/`, or two plain names with a slash between. Without a slash or backslash
/// nothing is.
pub proof fn law_filesystem_path(part: Seq<char>, x: Seq<char>, y: Seq<char>)
    ensures
        !part.contains('/') && !part.contains('\\') ==> !is_filesystem_path(part),
        part.contains('\\') ==> is_filesystem_path(part),
        part.len() > 0 && part[0] == '/' ==> is_filesystem_path(part),
        begins_with(part, "./"@) || begins_with(part, "../"@) || begins_with(part, "~/"@)
            ==> is_filesystem_path(part),
        x.len() > 0 && y.len() > 0 && is_name(x) && is_name(y) ==> is_filesystem_path(
            x + seq!['/'] + y,
        ),
{
    reveal_strlit("./");
    reveal_strlit("../");
    reveal_strlit("~/");
    reveal_strlit("/");
    if part.len() > 0 && part[0] == '/' {
        assert(part.take(1) =~= "/"@);
        assert(part.contains(part[0]));
    }
    if begins_with(part, "./"@) {
        assert(part.take(2)[1] == part[1] && "./"@[1] == '/');
        assert(part.contains(part[1]));
    }
    if begins_with(part, "../"@) {
        assert(part.take(3)[2] == part[2] && "../"@[2] == '/');
        assert(part.contains(part[2]));
    }
    if begins_with(part, "~/"@) {
        assert(part.take(2)[1] == part[1] && "~/"@[1] == '/');
        assert(part.contains(part[1]));
    }
    if x.len() > 0 && y.len() > 0 && is_name(x) && is_name(y) {
        let s = x + seq!['/'] + y;
        let p = path_separators();
        let n = x.len() as int;
        assert(s[n] == '/');
        assert(s.contains(s[n]));
        assert forall|k: int| 0 <= k < n implies !p(#[trigger] s[k]) by {
            assert(s[k] == x[k]);
            assert(is_name_char(x[k]));
        }
        assert forall|k: int| n + 1 <= k < s.len() implies !p(#[trigger] s[k]) by {
            assert(s[k] == y[k - n - 1]);
            assert(is_name_char(y[k - n - 1]));
        }
        lemma_two_pieces(x, y, p, '/');
        let pieces = split_where(s, p);
        let names = pieces.filter(non_empty());
        reveal(Seq::filter);
        assert(pieces =~= Seq::<Seq<char>>::empty().push(x).push(y));
        crate::text::lemma_filter_push(Seq::<Seq<char>>::empty().push(x), y, non_empty());
        crate::text::lemma_filter_push(Seq::<Seq<char>>::empty(), x, non_empty());
        assert(names =~= seq![x, y]);
        assert(is_plain_name(x)) by {
            assert forall|k: int| 0 <= k < x.len() implies is_plain_name_char(#[trigger] x[k]) by {
                assert(is_name_char(x[k]));
                lemma_name_char(x[k]);
            }
        }
        assert(is_plain_name(y)) by {
            assert forall|k: int| 0 <= k < y.len() implies is_plain_name_char(#[trigger] y[k]) by {
                assert(is_name_char(y[k]));
                lemma_name_char(y[k]);
            }
        }
    }
}

/// Whether `c` is an ASCII letter or digit, or one of the marks that names are written with.
pub open spec fn is_name_char(c: char) -> bool {
    'a' <= c <= 'z' || 'A' <= c <= 'Z' || '0' <= c <= '9' || c == '_' || c == '-' || c == '.' || c
        == '@' || c == '+'
}

/// Whether a text is made of such characters.
pub open spec fn is_name(name: Seq<char>) -> bool {
    forall|k: int| 0 <= k < name.len() ==> is_name_char(#[trigger] name[k])
}

proof fn lemma_name_char(c: char)
    requires
        is_name_char(c),
    ensures
        is_plain_name_char(c),
{
    vstd::utf8::char_is_scalar(c);
}

proof fn lemma_two_pieces(x: Seq<char>, y: Seq<char>, p: spec_fn(char) -> bool, mark: char)
    requires
        p(mark),
        forall|k: int| 0 <= k < x.len() ==> !p(#[trigger] x[k]),
        forall|k: int| 0 <= k < y.len() ==> !p(#[trigger] y[k]),
    ensures
        split_where(x + seq![mark] + y, p) == seq![x, y],
    decreases y.len(),
{
    let s = x + seq![mark] + y;
    if y.len() == 0 {
        assert(s.drop_last() =~= x);
        assert(s.last() == mark);
        lemma_one_piece(x, p);
        assert(y =~= Seq::<char>::empty());
        assert(split_where(s, p) =~= seq![x, y]);
    } else {
        let t = y.drop_last();
        assert forall|k: int| 0 <= k < t.len() implies !p(#[trigger] t[k]) by {
            assert(t[k] == y[k]);
        }
        lemma_two_pieces(x, t, p, mark);
        assert(s.drop_last() =~= x + seq![mark] + t);
        assert(s.last() == y.last());
        assert(!p(y[y.len() - 1]));
        assert(t.push(y.last()) =~= y);
        assert(split_where(s, p) =~= seq![x, y]);
    }
}

proof fn lemma_one_piece(x: Seq<char>, p: spec_fn(char) -> bool)
    requires
        forall|k: int| 0 <= k < x.len() ==> !p(#[trigger] x[k]),
    ensures
        split_where(x, p) == seq![x],
    decreases x.len(),
{
    if x.len() == 0 {
        assert(x =~= Seq::<char>::empty());
        assert(split_where(x, p) =~= seq![x]);
    } else {
        let t = x.drop_last();
        assert forall|k: int| 0 <= k < t.len() implies !p(#[trigger] t[k]) by {
            assert(t[k] == x[k]);
        }
        lemma_one_piece(t, p);
        assert(!p(x[x.len() - 1]));
        assert(t.push(x.last()) =~= x);
        assert(split_where(x, p) =~= seq![x]);
    }
}

/// The path that is told of is the first one that is not known.
pub proof fn law_first_unknown_is_first(paths: Seq<Seq<char>>, known: Seq<Seq<char>>, k: int)
    requires
        0 <= k < paths.len(),
        forall|i: int| 0 <= i < k ==> known.contains(#[trigger] paths[i]),
        !known.contains(paths[k]),
    ensures
        first_unknown(paths, known) == Some(paths[k]),
    decreases paths.len(),
{
    let init = paths.drop_last();
    if k < init.len() {
        law_first_unknown_is_first(init, known, k);
    } else {
        law_first_unknown(init, known);
        assert forall|p: Seq<char>| #[trigger] init.contains(p) implies known.contains(p) by {
            let i = choose|i: int| 0 <= i < init.len() && init[i] == p;
            assert(known.contains(paths[i]));
        }
    }
}

/// Whether a path is written in this word: the word is no web address, and the path is a part of it
/// between list marks, without the punctuation around it.
pub open spec fn is_written_in(path: Seq<char>, word: Seq<char>) -> bool {
    let token = trimmed_where(word, path_edges());
    &&& !begins_with(token, "http://"@)
    &&& !begins_with(token, "https://"@)
    &&& exists|a: int, b: int|
        0 <= a <= b <= token.len() && path_text(
            trimmed_where(#[trigger] token.subrange(a, b), path_edges()),
        ) == path && forall|k: int| a <= k < b ==> !separates(#[trigger] token[k])
}

/// Every path that a text mentions is written in one of its words, and no web address is taken for
/// a path.
pub proof fn law_mentions_come_from_words(list: Seq<Seq<char>>, path: Seq<char>)
    requires
        mentions_in(list).contains(path),
    ensures
        exists|i: int| 0 <= i < list.len() && is_written_in(path, #[trigger] list[i]),
    decreases list.len(),
{
    if list.len() > 0 {
        let before = mentions_in(list.drop_last());
        let last = word_mentions(list.last());
        let m = choose|m: int| 0 <= m < (before + last).len() && (before + last)[m] == path;
        if m < before.len() {
            assert(before[m] == path);
            law_mentions_come_from_words(list.drop_last(), path);
            let i = choose|i: int|
                0 <= i < list.drop_last().len() && is_written_in(
                    path,
                    #[trigger] list.drop_last()[i],
                );
            assert(is_written_in(path, list[i]));
        } else {
            let word = list[list.len() - 1];
            let token = trimmed_where(word, path_edges());
            let pieces = split_where(token, list_marks());
            let all = trimmed_each(pieces, path_edges());
            let kept = all.filter(path_mentions());
            let part = kept[m - before.len()];
            assert(kept.contains(part));
            lemma_filter_contains(all, path_mentions(), part);
            let n = choose|n: int| 0 <= n < all.len() && all[n] == part;
            let (a, b) = law_split_piece(token, list_marks(), n);
            assert forall|k: int| a <= k < b implies !separates(#[trigger] token[k]) by {
                assert(!list_marks()(token[k]));
            }
            assert(path_text(trimmed_where(token.subrange(a, b), path_edges())) == path);
            assert(is_written_in(path, word));
        }
    }
}

/// A text with forward slashes only that does not begin like a path is a path only where it is made
/// of names: of letters, digits and the few marks that names have.
pub proof fn law_made_of_names(part: Seq<char>, k: int)
    requires
        is_filesystem_path(part),
        !part.contains('\\'),
        !begins_with(part, "./"@),
        !begins_with(part, "../"@),
        !begins_with(part, "~/"@),
        !begins_with(part, "/"@),
        0 <= k < part.len(),
        part[k] != '/',
    ensures
        is_name_char(part[k]),
{
    let p = path_separators();
    assert(!has_char(part, '\\'));
    let pieces = split_where(part, p);
    let names = pieces.filter(non_empty());
    assert forall|i: int| 0 <= i < part.len() implies (p(#[trigger] part[i]) <==> part[i]
        == '/') by {
        if part[i] == '\\' {
            assert(part.contains('\\'));
        }
    }
    let (a, b) = lemma_run(part, k);
    assert forall|i: int| a <= i < b implies !p(#[trigger] part[i]) by {}
    law_split_finds(part, p, a, b);
    let name = part.subrange(a, b);
    lemma_filter_contains(pieces, non_empty(), name);
    let n = choose|n: int| 0 <= n < names.len() && names[n] == name;
    assert(is_plain_name(names[n]));
    assert(is_plain_name_char(name[k - a]));
    lemma_plain_name_char(part[k]);
}

proof fn lemma_plain_name_char(c: char)
    ensures
        is_plain_name_char(c) == is_name_char(c),
{
    vstd::utf8::char_is_scalar(c);
}

/// The longest run without slashes around a place.
proof fn lemma_run(part: Seq<char>, k: int) -> (r: (int, int))
    requires
        0 <= k < part.len(),
        part[k] != '/',
    ensures
        0 <= r.0 <= k < r.1 <= part.len(),
        forall|i: int| r.0 <= i < r.1 ==> #[trigger] part[i] != '/',
        r.0 > 0 ==> part[r.0 - 1] == '/',
        r.1 < part.len() ==> part[r.1] == '/',
{
    (lemma_run_start(part, k), lemma_run_end(part, k + 1))
}

proof fn lemma_run_start(part: Seq<char>, k: int) -> (a: int)
    requires
        0 <= k < part.len(),
        part[k] != '/',
    ensures
        0 <= a <= k,
        forall|i: int| a <= i <= k ==> #[trigger] part[i] != '/',
        a > 0 ==> part[a - 1] == '/',
    decreases k,
{
    if k == 0 || part[k - 1] == '/' {
        k
    } else {
        lemma_run_start(part, k - 1)
    }
}

proof fn lemma_run_end(part: Seq<char>, k: int) -> (b: int)
    requires
        0 <= k <= part.len(),
    ensures
        k <= b <= part.len(),
        forall|i: int| k <= i < b ==> #[trigger] part[i] != '/',
        b < part.len() ==> part[b] == '/',
    decreases part.len() - k,
{
    if k == part.len() || part[k] == '/' {
        k
    } else {
        lemma_run_end(part, k + 1)
    }
}

} // verus!
