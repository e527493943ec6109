//! The front page: which page of uploads to show, and the tags that the
//! uploads on it carry.
use vstd::prelude::*;
use crate::order::{insert_sorted, strictly_sorted};
use crate::text::{char_views, string_from_chars, string_views, word_chars, words};

verus! {

/// An ASCII digit.
pub open spec fn is_digit(c: char) -> bool {
    '0' as int <= c as int <= '9' as int
}

/// The number that a sequence of ASCII digits writes in decimal.
pub open spec fn decimal_value(ds: Seq<char>) -> int
    decreases ds.len(),
{
    if ds.len() == 0 {
        0
    } else {
        decimal_value(ds.drop_last()) * 10 + (ds.last() as int - '0' as int)
    }
}

/// The value of a decimal numeral without its sign, if it is one.
pub open spec fn unsigned_numeral(ds: Seq<char>) -> Option<int> {
    if ds.len() > 0 && forall|i: int| 0 <= i < ds.len() ==> is_digit(#[trigger] ds[i]) {
        Some(decimal_value(ds))
    } else {
        None
    }
}

/// What `str::parse::<i64>` gives: an optional `+` or `-` followed by one or
/// more ASCII digits, whose value fits in an `i64`; anything else is an
/// error (`None`).
pub open spec fn parsed_i64(s: Seq<char>) -> Option<i64> {
    let negative = s.len() > 0 && s[0] == '-';
    let signed = s.len() > 0 && (s[0] == '-' || s[0] == '+');
    let digits = if signed {
        s.drop_first()
    } else {
        s
    };
    match unsigned_numeral(digits) {
        Some(v) => {
            let value = if negative {
                -v
            } else {
                v
            };
            if i64::MIN <= value <= i64::MAX {
                Some(value as i64)
            } else {
                None
            }
        },
        None => None,
    }
}

/// `str::parse::<i64>` from std, with the error turned into `None`. Its
/// documentation gives the grammar that `parsed_i64` states: an optional
/// sign, then only digits, and an error when the value overflows.
#[verifier::external_body]
fn parse_i64(s: &str) -> (res: Option<i64>)
    ensures
        res == parsed_i64(s@),
{
    s.parse::<i64>().ok()
}

/// The page to show: the `page` parameter read as a number, or 1 when it
/// is missing or not a number.
pub fn current_page(page: Option<&str>) -> (res: i64)
    ensures
        page is None ==> res == 1,
        page matches Some(p) ==> res == (match parsed_i64(p@) {
            Some(n) => n,
            None => 1,
        }),
{
    match page {
        Some(p) => match parse_i64(p) {
            Some(n) => n,
            None => 1,
        },
        None => 1,
    }
}

/// `t` is a word of one of the strings.
pub open spec fn is_word_of(strs: Seq<Seq<char>>, t: Seq<char>) -> bool {
    exists|i: int| 0 <= i < strs.len() && #[trigger] words(strs[i]).contains(t)
}

/// The words of all the tag strings, each once, in ascending order (what
/// sorting and deduplicating all the words gives).
pub fn index_tags(tag_strings: &Vec<String>) -> (res: Vec<String>)
    ensures
        strictly_sorted(string_views(res@)),
        forall|t: Seq<char>|
            #[trigger] string_views(res@).contains(t) <==> is_word_of(string_views(tag_strings@), t),
{
    let ghost strs = string_views(tag_strings@);
    let mut acc: Vec<Vec<char>> = Vec::new();
    let mut i: usize = 0;
    while i < tag_strings.len()
        invariant
            i <= tag_strings.len(),
            strs == string_views(tag_strings@),
            strictly_sorted(char_views(acc@)),
            forall|t: Seq<char>|
                #[trigger] char_views(acc@).contains(t) <==> is_word_of(strs.take(i as int), t),
        decreases tag_strings.len() - i,
    {
        let ws = word_chars(tag_strings[i].as_str());
        let ghost before = char_views(acc@);
        let ghost wv = char_views(ws@);
        assert(wv == words(strs[i as int]));
        let mut j: usize = 0;
        while j < ws.len()
            invariant
                j <= ws.len(),
                wv == char_views(ws@),
                strictly_sorted(char_views(acc@)),
                forall|t: Seq<char>|
                    #[trigger] char_views(acc@).contains(t) <==> (before.contains(t)
                        || wv.take(j as int).contains(t)),
            decreases ws.len() - j,
        {
            let ghost prev = char_views(acc@);
            insert_sorted(&mut acc, ws[j].clone());
            proof {
                let cur = wv.take(j + 1);
                let old_take = wv.take(j as int);
                assert(cur =~= old_take.push(wv[j as int]));
                assert forall|t: Seq<char>| cur.contains(t) <==> (old_take.contains(t) || t == wv[j as int]) by {
                    if cur.contains(t) && t != wv[j as int] {
                        let k = choose|k: int| 0 <= k < cur.len() && cur[k] == t;
                        assert(old_take[k] == t);
                    }
                    if old_take.contains(t) {
                        let k = choose|k: int| 0 <= k < old_take.len() && old_take[k] == t;
                        assert(cur[k] == t);
                    }
                    if t == wv[j as int] {
                        assert(cur[j as int] == t);
                    }
                }
            }
            j = j + 1;
        }
        proof {
            assert(wv.take(ws.len() as int) =~= wv);
            assert forall|t: Seq<char>|
                is_word_of(strs.take(i + 1), t) <==> (is_word_of(strs.take(i as int), t)
                    || wv.contains(t)) by {
                if is_word_of(strs.take(i + 1), t) {
                    let k = choose|k: int|
                        0 <= k < i + 1 && #[trigger] words(strs.take(i + 1)[k]).contains(t);
                    if k < i {
                        assert(strs.take(i as int)[k] == strs[k]);
                        assert(words(strs.take(i as int)[k]).contains(t));
                    }
                }
                if is_word_of(strs.take(i as int), t) {
                    let k = choose|k: int|
                        0 <= k < i && #[trigger] words(strs.take(i as int)[k]).contains(t);
                    assert(strs.take(i + 1)[k] == strs[k]);
                    assert(words(strs.take(i + 1)[k]).contains(t));
                }
                if wv.contains(t) {
                    assert(strs.take(i + 1)[i as int] == strs[i as int]);
                    assert(words(strs.take(i + 1)[i as int]).contains(t));
                }
            }
        }
        i = i + 1;
    }
    assert(strs.take(tag_strings.len() as int) =~= strs);
    let mut res: Vec<String> = Vec::new();
    let mut k: usize = 0;
    while k < acc.len()
        invariant
            k <= acc.len(),
            string_views(res@) == char_views(acc@).take(k as int),
        decreases acc.len() - k,
    {
        let s = string_from_chars(&acc[k]);
        let ghost old_res = res@;
        res.push(s);
        assert(string_views(res@) =~= string_views(old_res).push(s@));
        k = k + 1;
        assert(char_views(acc@).take(k as int) =~= char_views(acc@).take(k - 1).push(
            char_views(acc@)[k - 1],
        ));
    }
    assert(char_views(acc@).take(acc.len() as int) =~= char_views(acc@));
    res
}

} // verus!
