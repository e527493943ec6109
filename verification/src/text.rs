//! Character-level text handling shared by the tag and template code:
//! splitting on Unicode whitespace, joining with spaces, lowercasing,
//! prefix tests and the lexicographic order of strings.
use vstd::prelude::*;

verus! {

/// The Unicode `White_Space` property (PropList.txt), which is what
/// `char::is_whitespace` and `str::split_whitespace` go by.
pub open spec fn is_white_space(c: char) -> bool {
    let n: int = c as int;
    ||| 0x09 <= n <= 0x0D
    ||| n == 0x20
    ||| n == 0x85
    ||| n == 0xA0
    ||| n == 0x1680
    ||| 0x2000 <= n <= 0x200A
    ||| n == 0x2028
    ||| n == 0x2029
    ||| n == 0x202F
    ||| n == 0x205F
    ||| n == 0x3000
}

/// `char::is_whitespace` from std: its documentation defines it as the
/// Unicode `White_Space` property, which `is_white_space` lists.
#[verifier::external_body]
pub(crate) fn char_is_whitespace(c: char) -> (res: bool)
    ensures
        res == is_white_space(c),
{
    c.is_whitespace()
}

/// What `str::to_lowercase` returns for a string: the Unicode full lowercase
/// mapping (context-dependent for the final sigma), too long to write out.
pub uninterp spec fn lowercase(s: Seq<char>) -> Seq<char>;

/// `str::to_lowercase` from std. The contract claims only that the result is
/// a function of the characters of the argument, named `lowercase`.
#[verifier::external_body]
pub(crate) fn to_lowercase(s: &str) -> (res: String)
    ensures
        res@ == lowercase(s@),
{
    s.to_lowercase()
}

/// `String::push` from std: appends one character.
#[verifier::external_body]
pub(crate) fn push_char(s: &mut String, c: char)
    ensures
        final(s)@ == old(s)@.push(c),
{
    s.push(c)
}

/// `String::push_str` from std: appends the characters of `t`.
#[verifier::external_body]
pub(crate) fn push_str(s: &mut String, t: &str)
    ensures
        final(s)@ == old(s)@ + t@,
{
    s.push_str(t)
}

/// The sequence of word views of a vector of character vectors.
pub open spec fn char_views(v: Seq<Vec<char>>) -> Seq<Seq<char>> {
    v.map_values(|w: Vec<char>| w@)
}

/// The sequence of views of a vector of strings.
pub open spec fn string_views(v: Seq<String>) -> Seq<Seq<char>> {
    v.map_values(|s: String| s@)
}

/// The word under construction, as a list of zero or one words.
pub open spec fn flush(cur: Seq<char>) -> Seq<Seq<char>> {
    if cur.len() == 0 {
        seq![]
    } else {
        seq![cur]
    }
}

/// The words of `s` when `cur` holds the characters of a word already begun.
pub open spec fn words_from(s: Seq<char>, cur: Seq<char>) -> Seq<Seq<char>>
    decreases s.len(),
{
    if s.len() == 0 {
        flush(cur)
    } else if is_white_space(s[0]) {
        flush(cur) + words_from(s.drop_first(), Seq::empty())
    } else {
        words_from(s.drop_first(), cur.push(s[0]))
    }
}

/// The words of `s`: its maximal runs of characters that are not
/// whitespace, in order (what `str::split_whitespace` yields).
pub open spec fn words(s: Seq<char>) -> Seq<Seq<char>> {
    words_from(s, Seq::empty())
}

/// Words joined with single spaces (what `[..].join(" ")` builds).
pub open spec fn joined(ws: Seq<Seq<char>>) -> Seq<char>
    decreases ws.len(),
{
    if ws.len() == 0 {
        seq![]
    } else if ws.len() == 1 {
        ws[0]
    } else {
        joined(ws.drop_last()) + seq![' '] + ws.last()
    }
}

/// Number of bytes of the UTF-8 encoding of `s` (what `str::len` counts).
pub open spec fn utf8_len(s: Seq<char>) -> nat {
    vstd::utf8::encode_utf8(s).len()
}

/// The characters of a string, in order.
pub fn chars_of(s: &str) -> (res: Vec<char>)
    ensures
        res@ == s@,
{
    let mut res: Vec<char> = Vec::new();
    for c in it: s.chars()
        invariant
            res@ == it.seq().take(it.index() as int),
            it.seq() == s@,
    {
        res.push(c);
    }
    res
}

/// A string holding the given characters.
pub fn string_from_chars(v: &Vec<char>) -> (res: String)
    ensures
        res@ == v@,
{
    let mut res = String::new();
    let mut i: usize = 0;
    while i < v.len()
        invariant
            i <= v.len(),
            res@ == v@.take(i as int),
        decreases v.len() - i,
    {
        push_char(&mut res, v[i]);
        i = i + 1;
        assert(res@ =~= v@.take(i as int));
    }
    assert(v@.take(v.len() as int) =~= v@);
    res
}

proof fn lemma_skip_step(s: Seq<char>, i: int)
    requires
        0 <= i < s.len(),
    ensures
        s.skip(i).len() > 0,
        s.skip(i)[0] == s[i],
        s.skip(i).drop_first() == s.skip(i + 1),
{
    assert(s.skip(i).drop_first() =~= s.skip(i + 1));
}

/// The words of `s`, each as its characters.
pub fn word_chars(s: &str) -> (res: Vec<Vec<char>>)
    ensures
        char_views(res@) == words(s@),
{
    let cs = chars_of(s);
    let mut out: Vec<Vec<char>> = Vec::new();
    let mut cur: Vec<char> = Vec::new();
    let mut i: usize = 0;
    assert(cs@.skip(0) =~= cs@);
    while i < cs.len()
        invariant
            i <= cs.len(),
            cs@ == s@,
            words(s@) == char_views(out@) + words_from(cs@.skip(i as int), cur@),
        decreases cs.len() - i,
    {
        let c = cs[i];
        proof {
            lemma_skip_step(cs@, i as int);
        }
        if char_is_whitespace(c) {
            if cur.len() > 0 {
                let ghost old_out = out@;
                out.push(cur);
                assert(char_views(out@) =~= char_views(old_out) + seq![cur@]);
            } else {
                assert(flush(cur@) =~= Seq::<Seq<char>>::empty());
            }
            cur = Vec::new();
            assert(words(s@) =~= char_views(out@) + words_from(cs@.skip(i + 1), cur@));
        } else {
            cur.push(c);
        }
        i = i + 1;
    }
    assert(cs@.skip(i as int) =~= Seq::<char>::empty());
    if cur.len() > 0 {
        let ghost old_out = out@;
        out.push(cur);
        assert(char_views(out@) =~= char_views(old_out) + seq![cur@]);
    } else {
        assert(char_views(out@) =~= char_views(out@) + flush(cur@));
    }
    out
}

/// The words of `s`, each as a string.
pub fn split_words(s: &str) -> (res: Vec<String>)
    ensures
        string_views(res@) == words(s@),
{
    let ws = word_chars(s);
    let mut res: Vec<String> = Vec::new();
    let mut i: usize = 0;
    while i < ws.len()
        invariant
            i <= ws.len(),
            char_views(ws@) == words(s@),
            string_views(res@) == char_views(ws@).take(i as int),
        decreases ws.len() - i,
    {
        let w = string_from_chars(&ws[i]);
        let ghost old_res = res@;
        res.push(w);
        assert(string_views(res@) =~= string_views(old_res).push(w@));
        i = i + 1;
        assert(char_views(ws@).take(i as int) =~= char_views(ws@).take(i - 1).push(ws@[i - 1]@));
    }
    assert(char_views(ws@).take(ws.len() as int) =~= char_views(ws@));
    res
}

/// The strings of `ws` joined with single spaces.
pub fn join_with_spaces(ws: &Vec<String>) -> (res: String)
    ensures
        res@ == joined(string_views(ws@)),
{
    let mut res = String::new();
    let mut i: usize = 0;
    while i < ws.len()
        invariant
            i <= ws.len(),
            res@ == joined(string_views(ws@).take(i as int)),
        decreases ws.len() - i,
    {
        let ghost views = string_views(ws@);
        if i > 0 {
            push_char(&mut res, ' ');
        }
        push_str(&mut res, ws[i].as_str());
        i = i + 1;
        assert(views.take(i as int).drop_last() =~= views.take(i - 1));
        assert(res@ =~= joined(views.take(i as int)));
    }
    assert(string_views(ws@).take(ws.len() as int) =~= string_views(ws@));
    res
}

} // verus!

verus! {

proof fn lemma_words_from_plain(a: Seq<char>, b: Seq<char>, cur: Seq<char>)
    requires
        forall|k: int| 0 <= k < a.len() ==> !is_white_space(#[trigger] a[k]),
    ensures
        words_from(a + b, cur) == words_from(b, cur + a),
    decreases a.len(),
{
    if a.len() == 0 {
        assert(a + b =~= b);
        assert(cur + a =~= cur);
    } else {
        assert((a + b)[0] == a[0]);
        assert((a + b).drop_first() =~= a.drop_first() + b);
        assert(cur.push(a[0]) + a.drop_first() =~= cur + a);
        lemma_words_from_plain(a.drop_first(), b, cur.push(a[0]));
    }
}

proof fn lemma_words_from_split(a: Seq<char>, c: char, b: Seq<char>, cur: Seq<char>)
    requires
        is_white_space(c),
    ensures
        words_from(a + seq![c] + b, cur) == words_from(a, cur) + words(b),
    decreases a.len(),
{
    let s = a + seq![c] + b;
    if a.len() == 0 {
        assert(s[0] == c);
        assert(s.drop_first() =~= b);
    } else {
        assert(s[0] == a[0]);
        assert(s.drop_first() =~= a.drop_first() + seq![c] + b);
        if is_white_space(a[0]) {
            lemma_words_from_split(a.drop_first(), c, b, Seq::empty());
            assert(words_from(s, cur) =~= words_from(a, cur) + words(b));
        } else {
            lemma_words_from_split(a.drop_first(), c, b, cur.push(a[0]));
        }
    }
}

/// Splitting words joined with spaces gives them back, when each is
/// non-empty and holds no whitespace.
pub proof fn lemma_split_undoes_join(ws: Seq<Seq<char>>)
    requires
        forall|i: int| 0 <= i < ws.len() ==> (#[trigger] ws[i]).len() > 0,
        forall|i: int, k: int|
            0 <= i < ws.len() && 0 <= k < ws[i].len() ==> !is_white_space(#[trigger] ws[i][k]),
    ensures
        words(joined(ws)) == ws,
    decreases ws.len(),
{
    if ws.len() == 0 {
        assert(words(joined(ws)) =~= ws);
    } else {
        let last = ws.last();
        assert(last == ws[ws.len() - 1]);
        lemma_words_from_plain(last, Seq::empty(), Seq::empty());
        assert(last + Seq::<char>::empty() =~= last);
        assert(Seq::<char>::empty() + last =~= last);
        assert(words(last) =~= seq![last]);
        if ws.len() == 1 {
            assert(ws =~= seq![last]);
        } else {
            let init = ws.drop_last();
            assert forall|i: int| 0 <= i < init.len() implies (#[trigger] init[i]).len() > 0 by {
                assert(init[i] == ws[i]);
            }
            assert forall|i: int, k: int|
                0 <= i < init.len() && 0 <= k < init[i].len() implies !is_white_space(
                #[trigger] init[i][k],
            ) by {
                assert(init[i] == ws[i]);
            }
            lemma_split_undoes_join(init);
            lemma_words_from_split(joined(init), ' ', last, Seq::empty());
            assert(ws =~= init.push(last));
            assert(words(joined(ws)) =~= init + seq![last]);
        }
    }
}

} // verus!

verus! {

/// A non-empty word without whitespace.
pub open spec fn is_plain_word(w: Seq<char>) -> bool {
    w.len() > 0 && forall|k: int| 0 <= k < w.len() ==> !is_white_space(#[trigger] w[k])
}

proof fn lemma_words_from_are_plain(s: Seq<char>, cur: Seq<char>)
    requires
        forall|k: int| 0 <= k < cur.len() ==> !is_white_space(#[trigger] cur[k]),
    ensures
        forall|i: int| 0 <= i < words_from(s, cur).len() ==> is_plain_word(#[trigger] words_from(s, cur)[i]),
    decreases s.len(),
{
    if cur.len() > 0 {
        assert(is_plain_word(cur));
        assert(flush(cur)[0] == cur);
    }
    if s.len() == 0 {
        assert(words_from(s, cur) == flush(cur));
    } else if is_white_space(s[0]) {
        lemma_words_from_are_plain(s.drop_first(), Seq::empty());
        let rest = words_from(s.drop_first(), Seq::empty());
        let all = flush(cur) + rest;
        assert(words_from(s, cur) == all);
        assert forall|i: int| 0 <= i < all.len() implies is_plain_word(#[trigger] all[i]) by {
            if i >= flush(cur).len() {
                assert(all[i] == rest[i - flush(cur).len()]);
            } else {
                assert(all[i] == flush(cur)[i]);
            }
        }
    } else {
        let next = cur.push(s[0]);
        assert forall|k: int| 0 <= k < next.len() implies !is_white_space(#[trigger] next[k]) by {
            if k < cur.len() {
                assert(next[k] == cur[k]);
            }
        }
        lemma_words_from_are_plain(s.drop_first(), next);
        assert(words_from(s, cur) == words_from(s.drop_first(), next));
    }
}

/// Every word is non-empty and holds no whitespace.
pub proof fn lemma_words_are_plain(s: Seq<char>)
    ensures
        forall|i: int| 0 <= i < words(s).len() ==> is_plain_word(#[trigger] words(s)[i]),
{
    lemma_words_from_are_plain(s, Seq::empty());
}

/// Joining the words of a string with single spaces and splitting again
/// gives the same words: normalizing whitespace twice is normalizing once.
pub proof fn lemma_join_of_split_is_stable(s: Seq<char>)
    ensures
        words(joined(words(s))) == words(s),
{
    let ws = words(s);
    lemma_words_are_plain(s);
    assert forall|i: int| 0 <= i < ws.len() implies (#[trigger] ws[i]).len() > 0 by {
        assert(is_plain_word(ws[i]));
    }
    assert forall|i: int, k: int|
        0 <= i < ws.len() && 0 <= k < ws[i].len() implies !is_white_space(#[trigger] ws[i][k]) by {
        assert(is_plain_word(ws[i]));
    }
    lemma_split_undoes_join(ws);
}

} // verus!
