//! Links: picking them out of pasted text, and the identity used to spot a
//! link that is already staged or queued.

use vstd::prelude::*;
use crate::text::{
    Class, before, chars_of, find, find_in, first_of, from_lo, lemma_trim_end_in, lowercase,
    sooner, starts_with, strip_all, string_of, strip_all_in, first_piece_end, trim_end_class_in,
    trim_end_in, word_spans, words, to_lowercase,
};

verus! {

/// A link as the dashboard shows it: scheme, `www.`, query and trailing
/// slashes dropped.
pub open spec fn short_url_of(url: Seq<char>) -> Seq<char> {
    let s = strip_all(strip_all(strip_all(url, "https://"@), "http://"@), "www."@);
    trim_end_in(before(s, '?'), Class::Slash)
}

/// Two links are the same reel when these agree: the short form, lowercased.
pub open spec fn link_key(url: Seq<char>) -> Seq<char> {
    lowercase(short_url_of(url))
}

/// Text that starts like a web link.
pub open spec fn is_link(t: Seq<char>) -> bool {
    starts_with(t, "http://"@) || starts_with(t, "https://"@)
}

/// Bytes one character takes in UTF-8.
pub open spec fn utf8_width(c: char) -> nat {
    let u = c as u32;
    if u < 0x80 {
        1
    } else if u < 0x800 {
        2
    } else if u < 0x10000 {
        3
    } else {
        4
    }
}

/// Bytes a text takes in UTF-8 (what `String::len` counts).
pub open spec fn utf8_len(s: Seq<char>) -> nat
    decreases s.len(),
{
    if s.len() == 0 {
        0
    } else {
        utf8_len(s.drop_last()) + utf8_width(s.last())
    }
}

/// Where a link starts inside a word: the first `http://` or `https://` in it.
pub open spec fn link_start(w: Seq<char>) -> Option<int> {
    first_of(find(w, "http://"@), find(w, "https://"@))
}

/// The link a word holds: from where it starts, without the punctuation
/// prose leaves on the end of a word.
pub open spec fn link_in(w: Seq<char>) -> Seq<char> {
    match link_start(w) {
        Some(p) => trim_end_in(w.skip(p), Class::Closing),
        None => seq![],
    }
}

/// The links among `ws`, in order: from each word that holds one (brackets
/// or quotes before it are left out), the link, kept if more than 12 bytes
/// remain.
pub open spec fn links_in(ws: Seq<Seq<char>>) -> Seq<Seq<char>>
    decreases ws.len(),
{
    if ws.len() == 0 {
        seq![]
    } else {
        let rest = links_in(ws.drop_last());
        let w = ws.last();
        if link_start(w) is Some && utf8_len(link_in(w)) > 12 {
            rest.push(link_in(w))
        } else {
            rest
        }
    }
}

/// Every link in a piece of pasted text.
pub open spec fn urls_in(text: Seq<char>) -> Seq<Seq<char>> {
    links_in(words(text))
}

proof fn lemma_utf8_len_prefix(s: Seq<char>, k: int)
    requires
        0 <= k <= s.len(),
    ensures
        utf8_len(s.take(k)) <= utf8_len(s),
    decreases s.len(),
{
    if k < s.len() {
        lemma_utf8_len_prefix(s.drop_last(), k);
        assert(s.drop_last().take(k) =~= s.take(k));
    } else {
        assert(s.take(k) =~= s);
    }
}

/// Whether `cs[lo..hi]` takes more than `n` bytes in UTF-8.
fn utf8_longer_than(cs: &Vec<char>, lo: usize, hi: usize, n: usize) -> (b: bool)
    requires
        lo <= hi <= cs@.len(),
    ensures
        b == (utf8_len(cs@.subrange(lo as int, hi as int)) > n),
{
    let mut acc: usize = 0;
    let mut i = lo;
    while i < hi
        invariant
            lo <= i <= hi <= cs@.len(),
            acc == utf8_len(cs@.subrange(lo as int, i as int)),
            acc <= n,
        decreases hi - i,
    {
        let u = cs[i] as u32;
        let w: usize = if u < 0x80 {
            1
        } else if u < 0x800 {
            2
        } else if u < 0x10000 {
            3
        } else {
            4
        };
        assert(cs@.subrange(lo as int, i + 1).drop_last() =~= cs@.subrange(lo as int, i as int));
        if w > n - acc {
            proof {
                lemma_utf8_len_prefix(cs@.subrange(lo as int, hi as int), i + 1 - lo);
                assert(cs@.subrange(lo as int, hi as int).take(i + 1 - lo) =~= cs@.subrange(
                    lo as int,
                    i + 1,
                ));
            }
            return true;
        }
        acc = acc + w;
        i += 1;
    }
    false
}

/// The link as the dashboard shows it: scheme, `www.`, query and trailing
/// slashes dropped.
pub fn short_url(url: &str) -> (r: &str)
    ensures
        r@ == short_url_of(url@),
{
    let cs = chars_of(url);
    let n = cs.len();
    let https = chars_of("https://");
    let http = chars_of("http://");
    let www = chars_of("www.");
    proof {
        reveal_strlit("https://");
        reveal_strlit("http://");
        reveal_strlit("www.");
    }
    let a = strip_all_in(&cs, 0, n, &https);
    let b = strip_all_in(&cs, a, n, &http);
    let c = strip_all_in(&cs, b, n, &www);
    let e = first_piece_end(&cs, c, n, '?');
    let f = trim_end_class_in(&cs, c, e, Class::Slash);
    assert(cs@.subrange(0, n as int) =~= url@);
    url.substring_char(c, f)
}

/// Identity for duplicate checks: scheme, www, query and trailing slash
/// dropped, then lowercased.
pub fn normalize(url: &str) -> (r: String)
    ensures
        r@ == link_key(url@),
{
    let short = short_url(url);
    let cs = chars_of(short);
    let e = trim_end_class_in(&cs, 0, cs.len(), Class::Slash);
    proof {
        let s = strip_all(strip_all(strip_all(url@, "https://"@), "http://"@), "www."@);
        lemma_trim_end_in(before(s, '?'), Class::Slash);
        assert(cs@.subrange(0, cs@.len() as int) =~= cs@);
    }
    let piece = short.substring_char(0, e);
    to_lowercase(piece)
}

/// Every link in a piece of pasted text, in the order they appear.
pub fn extract_urls(text: &str) -> (r: Vec<String>)
    ensures
        r@.len() == urls_in(text@).len(),
        forall|i: int| 0 <= i < r@.len() ==> (#[trigger] r@[i])@ == urls_in(text@)[i],
{
    let cs = chars_of(text);
    let n = cs.len();
    let spans = word_spans(&cs, 0, n);
    let https = chars_of("https://");
    let http = chars_of("http://");
    assert(cs@.subrange(0, n as int) =~= text@);
    let ghost ws = words(text@);
    let mut r: Vec<String> = Vec::new();
    for t in 0..spans.len()
        invariant
            cs@ == text@,
            n == cs@.len(),
            https@ == "https://"@,
            http@ == "http://"@,
            ws == words(text@),
            spans@.len() == ws.len(),
            forall|i: int|
                0 <= i < spans@.len() ==> {
                    &&& 0 <= (#[trigger] spans@[i]).0 <= spans@[i].1 <= n
                    &&& cs@.subrange(spans@[i].0 as int, spans@[i].1 as int) == ws[i]
                },
            r@.len() == links_in(ws.take(t as int)).len(),
            forall|i: int| 0 <= i < r@.len() ==> (#[trigger] r@[i])@ == links_in(ws.take(t as int))[i],
    {
        let (a, b) = spans[t];
        let ghost w = cs@.subrange(a as int, b as int);
        assert(ws.take(t + 1).drop_last() =~= ws.take(t as int));
        assert(ws.take(t + 1).last() == w);
        let k1 = find_in(&cs, a, b, &http);
        let k2 = find_in(&cs, a, b, &https);
        let start = sooner(k1, k2);
        proof {
            assert(from_lo(k1, a) == find(w, http@));
            assert(from_lo(k2, a) == find(w, https@));
            assert(from_lo(start, a) == link_start(w));
        }
        if let Some(p) = start {
            let e = trim_end_class_in(&cs, p, b, Class::Closing);
            assert(cs@.subrange(p as int, b as int) =~= w.skip(p - a));
            if utf8_longer_than(&cs, p, e, 12) {
                r.push(string_of(&cs, p, e));
            }
        }
    }
    assert(ws.take(spans@.len() as int) =~= ws);
    r
}

} // verus!
