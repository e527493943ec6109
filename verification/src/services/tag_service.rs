//! Tags: turning a tag string into its lowercased tags, collecting the
//! distinct tags of many uploads, and the paging of the tag rebuild.
use vstd::prelude::*;
use crate::text::{
    char_views, lowercase, string_from_chars, string_views, to_lowercase, word_chars, words,
};

verus! {

/// The tags of a tag string: its whitespace-separated words, lowercased.
pub open spec fn sanitized(s: Seq<char>) -> Seq<Seq<char>> {
    words(s).map_values(|w: Seq<char>| lowercase(w))
}

/// Every tag of any of the given tag strings.
pub open spec fn sanitized_set(strs: Seq<Seq<char>>) -> Set<Seq<char>> {
    Set::new(|t: Seq<char>| exists|i: int| 0 <= i < strs.len() && #[trigger] sanitized(strs[i]).contains(t))
}

/// Number of uploads whose tag strings are read per round of the rebuild.
pub const REBUILD_PAGE_SIZE: i64 = 250;

/// Splits a tag string on whitespace and lowercases each tag.
pub fn sanitize_tags(tags: &str) -> (res: Vec<String>)
    ensures
        string_views(res@) == sanitized(tags@),
        res@.len() == words(tags@).len(),
        forall|i: int| 0 <= i < res@.len() ==> res@[i]@ == lowercase(#[trigger] words(tags@)[i]),
{
    let ws = word_chars(tags);
    let mut res: Vec<String> = Vec::new();
    let mut i: usize = 0;
    while i < ws.len()
        invariant
            i <= ws.len(),
            char_views(ws@) == words(tags@),
            string_views(res@) == sanitized(tags@).take(i as int),
        decreases ws.len() - i,
    {
        let word = string_from_chars(&ws[i]);
        let lowered = to_lowercase(word.as_str());
        let ghost old_res = res@;
        res.push(lowered);
        assert(string_views(res@) =~= string_views(old_res).push(lowered@));
        i = i + 1;
        assert(sanitized(tags@).take(i as int) =~= sanitized(tags@).take(i - 1).push(
            sanitized(tags@)[i - 1],
        ));
    }
    assert(sanitized(tags@).take(ws.len() as int) =~= sanitized(tags@));
    proof {
        lemma_sanitized_is_lowercased_words(tags@);
        assert forall|i: int| 0 <= i < res@.len() implies res@[i]@ == lowercase(
            #[trigger] words(tags@)[i],
        ) by {
            assert(string_views(res@)[i] == res@[i]@);
        }
    }
    res
}

/// The tags of a tag string are its words, each lowercased, position by
/// position: as many tags as words, the i-th tag the lowercase of the i-th
/// word.
pub proof fn lemma_sanitized_is_lowercased_words(s: Seq<char>)
    ensures
        sanitized(s).len() == words(s).len(),
        forall|i: int| 0 <= i < words(s).len() ==> sanitized(s)[i] == lowercase(#[trigger] words(s)[i]),
{
}

/// A set of distinct tags.
pub struct TagBuffer {
    tags: Vec<String>,
}

impl View for TagBuffer {
    type V = Set<Seq<char>>;

    open spec fn view(&self) -> Set<Seq<char>> {
        self.tag_set()
    }
}

impl TagBuffer {
    /// The tags held.
    pub closed spec fn tag_set(&self) -> Set<Seq<char>> {
        Set::new(|t: Seq<char>| string_views(self.tags@).contains(t))
    }

    /// No tag is held twice.
    pub closed spec fn wf(&self) -> bool {
        string_views(self.tags@).no_duplicates()
    }

    /// An empty set of tags.
    pub fn new() -> (res: Self)
        ensures
            res.wf(),
            res@ == Set::<Seq<char>>::empty(),
    {
        let res = TagBuffer { tags: Vec::new() };
        assert(res@ =~= Set::<Seq<char>>::empty());
        res
    }

    /// Whether `tag` is held.
    pub fn contains(&self, tag: &String) -> (res: bool)
        ensures
            res == self@.contains(tag@),
    {
        let mut i: usize = 0;
        while i < self.tags.len()
            invariant
                i <= self.tags.len(),
                forall|k: int| 0 <= k < i ==> self.tags@[k]@ != tag@,
            decreases self.tags.len() - i,
        {
            if self.tags[i] == *tag {
                assert(string_views(self.tags@)[i as int] == tag@);
                return true;
            }
            i = i + 1;
        }
        assert(!string_views(self.tags@).contains(tag@)) by {
            if string_views(self.tags@).contains(tag@) {
                let k = choose|k: int|
                    0 <= k < self.tags.len() && string_views(self.tags@)[k] == tag@;
                assert(self.tags@[k]@ == tag@);
            }
        }
        false
    }

    /// Adds `tag`; a tag that is held already stays held once.
    pub fn insert(&mut self, tag: String)
        requires
            old(self).wf(),
        ensures
            final(self).wf(),
            final(self)@ == old(self)@.insert(tag@),
    {
        if self.contains(&tag) {
            assert(self@ =~= self@.insert(tag@));
            return;
        }
        let ghost before = string_views(self.tags@);
        let ghost tv = tag@;
        self.tags.push(tag);
        assert(string_views(self.tags@) =~= before.push(tv));
        assert(string_views(self.tags@).no_duplicates()) by {
            let after = string_views(self.tags@);
            assert forall|i: int, j: int|
                0 <= i < after.len() && 0 <= j < after.len() && i != j implies after[i]
                != after[j] by {
                if i == before.len() as int {
                    assert(before[j] == after[j]);
                } else if j == before.len() as int {
                    assert(before[i] == after[i]);
                }
            }
        }
        assert forall|t: Seq<char>| self@.contains(t) <==> old(self)@.insert(tv).contains(t) by {
            let after = string_views(self.tags@);
            if after.contains(t) && t != tv {
                let k = choose|k: int| 0 <= k < after.len() && after[k] == t;
                assert(before[k] == t);
            }
            if before.contains(t) {
                let k = choose|k: int| 0 <= k < before.len() && before[k] == t;
                assert(after[k] == t);
            }
            if t == tv {
                assert(after[before.len() as int] == t);
            }
        }
        assert(self@ =~= old(self)@.insert(tv));
    }

    /// The tags held, each once, in no particular order.
    pub fn to_vec(&self) -> (res: Vec<String>)
        requires
            self.wf(),
        ensures
            string_views(res@).no_duplicates(),
            forall|t: Seq<char>| #[trigger] string_views(res@).contains(t) <==> self@.contains(t),
    {
        let res = self.tags.clone();
        assert(string_views(res@) =~= string_views(self.tags@));
        res
    }
}

proof fn lemma_sanitized_set_step(strs: Seq<Seq<char>>, i: int)
    requires
        0 <= i < strs.len(),
    ensures
        sanitized_set(strs.take(i + 1)) == sanitized_set(strs.take(i)).union(
            Set::new(|t: Seq<char>| sanitized(strs[i]).contains(t)),
        ),
{
    let a = sanitized_set(strs.take(i + 1));
    let b = sanitized_set(strs.take(i)).union(
        Set::new(|t: Seq<char>| sanitized(strs[i]).contains(t)),
    );
    assert forall|t: Seq<char>| a.contains(t) <==> b.contains(t) by {
        if a.contains(t) {
            let k = choose|k: int| 0 <= k < i + 1 && #[trigger] sanitized(strs.take(i + 1)[k]).contains(t);
            if k < i {
                assert(strs.take(i)[k] == strs[k]);
                assert(sanitized(strs.take(i)[k]).contains(t));
            }
        }
        if sanitized_set(strs.take(i)).contains(t) {
            let k = choose|k: int| 0 <= k < i && #[trigger] sanitized(strs.take(i)[k]).contains(t);
            assert(strs.take(i + 1)[k] == strs[k]);
            assert(sanitized(strs.take(i + 1)[k]).contains(t));
        }
        if sanitized(strs[i]).contains(t) {
            assert(strs.take(i + 1)[i] == strs[i]);
            assert(sanitized(strs.take(i + 1)[i]).contains(t));
        }
    }
    assert(a =~= b);
}

/// Adds every tag of every tag string to `buffer`.
pub fn dedupe_tags(tag_strings: &Vec<String>, buffer: &mut TagBuffer)
    requires
        old(buffer).wf(),
    ensures
        final(buffer).wf(),
        final(buffer)@ == old(buffer)@.union(sanitized_set(string_views(tag_strings@))),
{
    let ghost strs = string_views(tag_strings@);
    let ghost start = buffer@;
    let mut i: usize = 0;
    assert(sanitized_set(strs.take(0)) =~= Set::<Seq<char>>::empty());
    assert(start =~= start.union(sanitized_set(strs.take(0))));
    while i < tag_strings.len()
        invariant
            i <= tag_strings.len(),
            strs == string_views(tag_strings@),
            buffer.wf(),
            buffer@ == start.union(sanitized_set(strs.take(i as int))),
        decreases tag_strings.len() - i,
    {
        let tags = sanitize_tags(tag_strings[i].as_str());
        assert(strs[i as int] == tag_strings@[i as int]@);
        let ghost before = buffer@;
        let mut j: usize = 0;
        assert(before =~= before.union(Set::new(|t: Seq<char>| string_views(tags@).take(0).contains(t))));
        while j < tags.len()
            invariant
                j <= tags.len(),
                buffer.wf(),
                buffer@ == before.union(
                    Set::new(|t: Seq<char>| string_views(tags@).take(j as int).contains(t)),
                ),
            decreases tags.len() - j,
        {
            let t = tags[j].clone();
            let ghost prev = buffer@;
            buffer.insert(t);
            j = j + 1;
            assert(buffer@ =~= before.union(
                Set::new(|u: Seq<char>| string_views(tags@).take(j as int).contains(u)),
            )) by {
                let tv = string_views(tags@);
                let cur = tv.take(j as int);
                let prevs = tv.take(j - 1);
                assert(cur =~= prevs.push(tv[j - 1]));
                assert forall|u: Seq<char>| cur.contains(u) <==> (prevs.contains(u) || u == tv[j - 1]) by {
                    if cur.contains(u) && u != tv[j - 1] {
                        let k = choose|k: int| 0 <= k < cur.len() && cur[k] == u;
                        assert(prevs[k] == u);
                    }
                    if prevs.contains(u) {
                        let k = choose|k: int| 0 <= k < prevs.len() && prevs[k] == u;
                        assert(cur[k] == u);
                    }
                    if u == tv[j - 1] {
                        assert(cur[j - 1] == u);
                    }
                }
            }
        }
        proof {
            lemma_sanitized_set_step(strs, i as int);
            assert(string_views(tags@).take(tags.len() as int) =~= string_views(tags@));
            assert(Set::new(|t: Seq<char>| string_views(tags@).contains(t)) =~= Set::new(
                |t: Seq<char>| sanitized(strs[i as int]).contains(t),
            ));
        }
        i = i + 1;
        assert(buffer@ =~= start.union(sanitized_set(strs.take(i as int))));
    }
    assert(strs.take(tag_strings.len() as int) =~= strs);
}

/// One round of the tag rebuild, given the tag strings of the uploads read
/// from `offset` on.
pub struct RebuildStep {
    /// The distinct tags of the round's tag strings.
    pub tags: TagBuffer,
    /// Where the next round reads from.
    pub next_offset: i64,
    /// Whether fewer than a full page came back, which ends the rebuild.
    pub finished: bool,
}

/// Decides one round of the rebuild: the distinct tags to insert, the next
/// offset, and whether this was the last round.
pub fn rebuild_step(offset: i64, tag_strings: &Vec<String>) -> (res: RebuildStep)
    requires
        0 <= offset,
        offset + tag_strings.len() <= i64::MAX,
    ensures
        res.tags.wf(),
        res.tags@ == sanitized_set(string_views(tag_strings@)),
        res.next_offset == offset + tag_strings.len(),
        res.finished == (tag_strings.len() < REBUILD_PAGE_SIZE),
{
    let mut buffer = TagBuffer::new();
    dedupe_tags(tag_strings, &mut buffer);
    assert(buffer@ =~= sanitized_set(string_views(tag_strings@)));
    let record_count: i64 = tag_strings.len() as i64;
    RebuildStep {
        tags: buffer,
        next_offset: offset + record_count,
        finished: record_count < REBUILD_PAGE_SIZE,
    }
}

} // verus!

verus! {

/// Adding the same tag strings a second time changes nothing.
pub proof fn lemma_dedupe_idempotent(before: Set<Seq<char>>, strs: Seq<Seq<char>>)
    ensures
        before.union(sanitized_set(strs)).union(sanitized_set(strs)) == before.union(
            sanitized_set(strs),
        ),
{
    assert(before.union(sanitized_set(strs)).union(sanitized_set(strs)) =~= before.union(
        sanitized_set(strs),
    ));
}

/// Collecting tags page by page gives the tags of all the pages: the tags of
/// two lists of tag strings read one after the other are those of the
/// joined list.
pub proof fn lemma_sanitized_set_concat(a: Seq<Seq<char>>, b: Seq<Seq<char>>)
    ensures
        sanitized_set(a + b) == sanitized_set(a).union(sanitized_set(b)),
{
    let ab = a + b;
    assert forall|t: Seq<char>|
        sanitized_set(ab).contains(t) <==> sanitized_set(a).union(sanitized_set(b)).contains(t) by {
        if sanitized_set(ab).contains(t) {
            let k = choose|k: int| 0 <= k < ab.len() && #[trigger] sanitized(ab[k]).contains(t);
            if k < a.len() {
                assert(ab[k] == a[k]);
                assert(sanitized(a[k]).contains(t));
            } else {
                assert(ab[k] == b[k - a.len()]);
                assert(sanitized(b[k - a.len()]).contains(t));
            }
        }
        if sanitized_set(a).contains(t) {
            let k = choose|k: int| 0 <= k < a.len() && #[trigger] sanitized(a[k]).contains(t);
            assert(ab[k] == a[k]);
            assert(sanitized(ab[k]).contains(t));
        }
        if sanitized_set(b).contains(t) {
            let k = choose|k: int| 0 <= k < b.len() && #[trigger] sanitized(b[k]).contains(t);
            assert(ab[k + a.len()] == b[k]);
            assert(sanitized(ab[k + a.len()]).contains(t));
        }
    }
    assert(sanitized_set(ab) =~= sanitized_set(a).union(sanitized_set(b)));
}

} // verus!
