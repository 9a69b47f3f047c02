//! Finding the `http://` and `https://` addresses in a card description.
use vstd::prelude::*;
use crate::text::{chars_of, is_whitespace, is_whitespace_spec, occurs_at, occurs_at_exec};

verus! {

/// The characters that `trim_url_tail` drops from the end of an address.
pub open spec fn is_url_tail_char(c: char) -> bool {
    ||| c == '.' ||| c == ',' ||| c == ';' ||| c == ':' ||| c == '!' ||| c == '?'
    ||| c == '"' ||| c == '\'' ||| c == ']' ||| c == '}' ||| c == '>' ||| c == '。'
    ||| c == '、' ||| c == '！' ||| c == '？' ||| c == '」' ||| c == '』' ||| c == '】'
    ||| c == '）' ||| c == ')'
}

/// The opening bracket that a closing bracket pairs with.
pub open spec fn opening_bracket(c: char) -> Option<char> {
    if c == ')' {
        Some('(')
    } else if c == '）' {
        Some('（')
    } else if c == ']' {
        Some('[')
    } else if c == '}' {
        Some('{')
    } else {
        None
    }
}

/// How many times `c` stands in `s`.
pub open spec fn count_char(s: Seq<char>, c: char) -> nat
    decreases s.len(),
{
    if s.len() == 0 {
        0
    } else {
        count_char(s.drop_last(), c) + if s.last() == c {
            1nat
        } else {
            0nat
        }
    }
}

/// `url` without the punctuation and closing brackets that followed it in the text.
///
/// A closing bracket stays when the address itself opened more of its kind than it closed
/// before it.
pub open spec fn trim_url_tail_spec(url: Seq<char>) -> Seq<char>
    decreases url.len(),
{
    if url.len() == 0 {
        url
    } else {
        let last = url.last();
        let body = url.drop_last();
        if !is_url_tail_char(last) {
            url
        } else if opening_bracket(last) is Some && count_char(body, opening_bracket(last)->0)
            > count_char(body, last) {
            url
        } else {
            trim_url_tail_spec(body)
        }
    }
}

pub open spec fn https_scheme() -> Seq<char> {
    seq!['h', 't', 't', 'p', 's', ':', '/', '/']
}

pub open spec fn http_scheme() -> Seq<char> {
    seq!['h', 't', 't', 'p', ':', '/', '/']
}

/// The first index at or after `i` where `pat` stands in `s`.
pub open spec fn find_from(s: Seq<char>, pat: Seq<char>, i: int) -> Option<int>
    decreases s.len() - i,
{
    if i < 0 || i >= s.len() || i + pat.len() > s.len() {
        None
    } else if occurs_at(s, pat, i) {
        Some(i)
    } else {
        find_from(s, pat, i + 1)
    }
}

/// Where the earliest address scheme at or after `pos` starts, and its length.
pub open spec fn next_scheme(s: Seq<char>, pos: int) -> Option<(int, int)> {
    match (find_from(s, https_scheme(), pos), find_from(s, http_scheme(), pos)) {
        (Some(a), Some(b)) => if a <= b {
            Some((a, 8int))
        } else {
            Some((b, 7int))
        },
        (Some(a), None) => Some((a, 8int)),
        (None, Some(b)) => Some((b, 7int)),
        (None, None) => None,
    }
}

/// The first white space at or after `i`, or the end of `s`.
pub open spec fn first_whitespace_from(s: Seq<char>, i: int) -> int
    decreases s.len() - i,
{
    if i < 0 || i >= s.len() {
        s.len() as int
    } else if is_whitespace_spec(s[i]) {
        i
    } else {
        first_whitespace_from(s, i + 1)
    }
}

/// Some span in `found` holds the same text as `url`.
pub open spec fn span_text_in(s: Seq<char>, found: Seq<(int, int)>, url: Seq<char>) -> bool {
    exists|k: int| 0 <= k < found.len() && s.subrange(found[k].0, found[k].1) == url
}

/// The spans of the addresses from `pos` on, added to `found`.
pub open spec fn url_spans_from(s: Seq<char>, pos: int, found: Seq<(int, int)>) -> Seq<(int, int)>
    decreases s.len() - pos,
{
    if pos < 0 || pos >= s.len() {
        found
    } else {
        match next_scheme(s, pos) {
            None => found,
            Some((start, scheme_len)) => {
                let end = first_whitespace_from(s, start);
                let url = trim_url_tail_spec(s.subrange(start, end));
                let next_found = if url.len() > scheme_len && !span_text_in(s, found, url) {
                    found.push((start, start + url.len()))
                } else {
                    found
                };
                if pos < end && end <= s.len() {
                    url_spans_from(s, end, next_found)
                } else {
                    next_found
                }
            },
        }
    }
}

/// The spans, as character indices, of the addresses in `s`, each distinct text once, in
/// the order they are written.
pub open spec fn url_spans(s: Seq<char>) -> Seq<(int, int)> {
    url_spans_from(s, 0, seq![])
}

/// The addresses in `s`, in the order they are written, each once.
pub open spec fn find_urls_spec(s: Seq<char>) -> Seq<Seq<char>> {
    url_spans(s).map_values(|span: (int, int)| s.subrange(span.0, span.1))
}

proof fn lemma_count_char_step(s: Seq<char>, lo: int, k: int, c: char)
    requires
        0 <= lo <= k < s.len(),
    ensures
        count_char(s.subrange(lo, k + 1), c) == count_char(s.subrange(lo, k), c) + if s[k] == c {
            1nat
        } else {
            0nat
        },
{
    assert(s.subrange(lo, k + 1).drop_last() =~= s.subrange(lo, k));
}

/// How many times `c` stands in `v[lo..hi]`.
fn count_in(v: &Vec<char>, lo: usize, hi: usize, c: char) -> (r: usize)
    requires
        lo <= hi <= v@.len(),
    ensures
        r == count_char(v@.subrange(lo as int, hi as int), c),
{
    let mut n: usize = 0;
    let mut k: usize = lo;
    assert(v@.subrange(lo as int, lo as int).len() == 0);
    while k < hi
        invariant
            lo <= k <= hi <= v@.len(),
            n == count_char(v@.subrange(lo as int, k as int), c),
            n <= k - lo,
        decreases hi - k,
    {
        proof {
            lemma_count_char_step(v@, lo as int, k as int, c);
        }
        if v[k] == c {
            n += 1;
        }
        k += 1;
    }
    n
}

fn is_url_tail_char_exec(c: char) -> (r: bool)
    ensures
        r == is_url_tail_char(c),
{
    c == '.' || c == ',' || c == ';' || c == ':' || c == '!' || c == '?' || c == '"' || c == '\''
        || c == ']' || c == '}' || c == '>' || c == '。' || c == '、' || c == '！' || c == '？'
        || c == '」' || c == '』' || c == '】' || c == '）' || c == ')'
}

fn opening_bracket_exec(c: char) -> (r: Option<char>)
    ensures
        r == opening_bracket(c),
{
    if c == ')' {
        Some('(')
    } else if c == '）' {
        Some('（')
    } else if c == ']' {
        Some('[')
    } else if c == '}' {
        Some('{')
    } else {
        None
    }
}

/// The end of `v[start..end]` once `trim_url_tail_spec` has dropped its tail.
fn trimmed_url_end(v: &Vec<char>, start: usize, end: usize) -> (r: usize)
    requires
        start <= end <= v@.len(),
    ensures
        start <= r <= end,
        v@.subrange(start as int, r as int) == trim_url_tail_spec(
            v@.subrange(start as int, end as int),
        ),
{
    let mut j: usize = end;
    while j > start
        invariant
            start <= j <= end <= v@.len(),
            trim_url_tail_spec(v@.subrange(start as int, j as int)) == trim_url_tail_spec(
                v@.subrange(start as int, end as int),
            ),
        decreases j - start,
    {
        let ghost url = v@.subrange(start as int, j as int);
        assert(url.drop_last() =~= v@.subrange(start as int, j - 1));
        assert(url.last() == v@[j - 1]);
        let last = v[j - 1];
        if !is_url_tail_char_exec(last) {
            return j;
        }
        if let Some(opening) = opening_bracket_exec(last) {
            let opened = count_in(v, start, j - 1, opening);
            let closed = count_in(v, start, j - 1, last);
            if opened > closed {
                return j;
            }
        }
        j -= 1;
    }
    assert(v@.subrange(start as int, j as int).len() == 0);
    j
}

/// `url` without the punctuation and unpaired closing brackets that followed it.
///
/// "詳しくは https://example.com/a 。" keeps `https://example.com/a`; a `)` stays when the
/// address opened a `(` of its own.
pub fn trim_url_tail<'a>(url: &'a str) -> (r: &'a str)
    ensures
        r@ == trim_url_tail_spec(url@),
{
    let v = chars_of(url);
    let end = trimmed_url_end(&v, 0, v.len());
    assert(v@.subrange(0, v@.len() as int) =~= v@);
    url.substring_char(0, end)
}

proof fn lemma_find_from_found(s: Seq<char>, pat: Seq<char>, i: int)
    requires
        find_from(s, pat, i) is Some,
    ensures
        i <= find_from(s, pat, i)->0,
        occurs_at(s, pat, find_from(s, pat, i)->0),
    decreases s.len() - i,
{
    if !(i < 0 || i >= s.len() || i + pat.len() > s.len()) && !occurs_at(s, pat, i) {
        lemma_find_from_found(s, pat, i + 1);
    }
}

/// The first index at or after `i` where `pat` stands in `s`.
fn find_from_exec(s: &Vec<char>, pat: &Vec<char>, i: usize) -> (r: Option<usize>)
    ensures
        match find_from(s@, pat@, i as int) {
            Some(k) => r == Some(k as usize),
            None => r is None,
        },
{
    let mut k: usize = i;
    while k < s.len() && pat.len() <= s.len() - k
        invariant
            i <= k,
            find_from(s@, pat@, k as int) == find_from(s@, pat@, i as int),
        decreases s.len() - k,
    {
        if occurs_at_exec(s, pat, k) {
            return Some(k);
        }
        k += 1;
    }
    None
}

fn first_whitespace_from_exec(s: &Vec<char>, i: usize) -> (r: usize)
    requires
        i <= s@.len(),
    ensures
        r == first_whitespace_from(s@, i as int),
        i <= r <= s@.len(),
        r < s@.len() ==> is_whitespace_spec(s@[r as int]),
{
    let mut k: usize = i;
    while k < s.len() && !is_whitespace(s[k])
        invariant
            i <= k <= s@.len(),
            first_whitespace_from(s@, k as int) == first_whitespace_from(s@, i as int),
        decreases s.len() - k,
    {
        k += 1;
    }
    k
}

/// Whether `v[a1..b1]` and `v[a2..b2]` hold the same text.
fn same_text(v: &Vec<char>, a1: usize, b1: usize, a2: usize, b2: usize) -> (r: bool)
    requires
        a1 <= b1 <= v@.len(),
        a2 <= b2 <= v@.len(),
    ensures
        r == (v@.subrange(a1 as int, b1 as int) == v@.subrange(a2 as int, b2 as int)),
{
    if b1 - a1 != b2 - a2 {
        assert(v@.subrange(a1 as int, b1 as int).len() != v@.subrange(a2 as int, b2 as int).len());
        return false;
    }
    let mut k: usize = 0;
    while k < b1 - a1
        invariant
            a1 <= b1 <= v@.len(),
            a2 <= b2 <= v@.len(),
            b1 - a1 == b2 - a2,
            k <= b1 - a1,
            forall|j: int|
                0 <= j < k ==> #[trigger] v@.subrange(a1 as int, b1 as int)[j] == v@.subrange(
                    a2 as int,
                    b2 as int,
                )[j],
        decreases b1 - a1 - k,
    {
        assert(v@.subrange(a1 as int, b1 as int)[k as int] == v@[a1 + k]);
        assert(v@.subrange(a2 as int, b2 as int)[k as int] == v@[a2 + k]);
        if v[a1 + k] != v[a2 + k] {
            assert(v@.subrange(a1 as int, b1 as int)[k as int] != v@.subrange(
                a2 as int,
                b2 as int,
            )[k as int]);
            return false;
        }
        k += 1;
    }
    assert(v@.subrange(a1 as int, b1 as int) =~= v@.subrange(a2 as int, b2 as int));
    true
}

proof fn lemma_trim_shorter(url: Seq<char>)
    ensures
        trim_url_tail_spec(url).len() <= url.len(),
    decreases url.len(),
{
    if url.len() > 0 {
        lemma_trim_shorter(url.drop_last());
    }
}

proof fn lemma_first_whitespace_bounds(s: Seq<char>, i: int)
    requires
        0 <= i,
    ensures
        i <= first_whitespace_from(s, i) || i >= s.len(),
        first_whitespace_from(s, i) <= s.len(),
    decreases s.len() - i,
{
    if i < s.len() && !is_whitespace_spec(s[i]) {
        lemma_first_whitespace_bounds(s, i + 1);
    }
}

/// Spans that lie within `0..n`, each ending before the next one starts.
pub open spec fn spans_ordered(spans: Seq<(int, int)>, n: int) -> bool {
    &&& forall|k: int| 0 <= k < spans.len() ==> 0 <= (#[trigger] spans[k]).0 <= spans[k].1 <= n
    &&& forall|i: int, j: int| 0 <= i < j < spans.len() ==> (#[trigger] spans[i]).1 <= (#[trigger] spans[j]).0
}

proof fn lemma_url_spans_from_ordered(s: Seq<char>, pos: int, found: Seq<(int, int)>)
    requires
        0 <= pos,
        spans_ordered(found, s.len() as int),
        forall|k: int| 0 <= k < found.len() ==> (#[trigger] found[k]).1 <= pos,
    ensures
        spans_ordered(url_spans_from(s, pos, found), s.len() as int),
    decreases s.len() - pos,
{
    if pos < s.len() {
        match next_scheme(s, pos) {
            None => {},
            Some((start, scheme_len)) => {
                if find_from(s, https_scheme(), pos) is Some {
                    lemma_find_from_found(s, https_scheme(), pos);
                }
                if find_from(s, http_scheme(), pos) is Some {
                    lemma_find_from_found(s, http_scheme(), pos);
                }
                assert(pos <= start < s.len()) by {
                    if find_from(s, https_scheme(), pos) is Some {
                        assert(find_from(s, https_scheme(), pos)->0 + https_scheme().len() <= s.len());
                    }
                }
                let end = first_whitespace_from(s, start);
                lemma_first_whitespace_bounds(s, start);
                let url = trim_url_tail_spec(s.subrange(start, end));
                lemma_trim_shorter(s.subrange(start, end));
                let next_found = if url.len() > scheme_len && !span_text_in(s, found, url) {
                    found.push((start, start + url.len()))
                } else {
                    found
                };
                assert(spans_ordered(next_found, s.len() as int));
                if pos < end && end <= s.len() {
                    lemma_url_spans_from_ordered(s, end, next_found);
                }
            },
        }
    }
}

/// The addresses' spans lie within the text, each ending before the next one starts.
pub proof fn lemma_url_spans_ordered(s: Seq<char>)
    ensures
        spans_ordered(url_spans(s), s.len() as int),
{
    lemma_url_spans_from_ordered(s, 0, seq![]);
}

pub open spec fn spans_as_int(spans: Seq<(usize, usize)>) -> Seq<(int, int)> {
    spans.map_values(|p: (usize, usize)| (p.0 as int, p.1 as int))
}

/// The spans, as character indices into `v`, of the addresses it holds.
pub fn url_spans_exec(v: &Vec<char>) -> (r: Vec<(usize, usize)>)
    ensures
        spans_as_int(r@) == url_spans(v@),
        forall|k: int| 0 <= k < r@.len() ==> (#[trigger] r@[k]).0 <= r@[k].1 <= v@.len(),
{
    let https: Vec<char> = vec!['h', 't', 't', 'p', 's', ':', '/', '/'];
    let http: Vec<char> = vec!['h', 't', 't', 'p', ':', '/', '/'];
    assert(https@ =~= https_scheme());
    assert(http@ =~= http_scheme());
    let mut found: Vec<(usize, usize)> = Vec::new();
    let mut pos: usize = 0;
    assert(spans_as_int(found@) =~= seq![]);
    while pos < v.len()
        invariant
            pos <= v@.len(),
            https@ == https_scheme(),
            http@ == http_scheme(),
            url_spans_from(v@, pos as int, spans_as_int(found@)) == url_spans(v@),
            forall|k: int| 0 <= k < found@.len() ==> (#[trigger] found@[k]).0 <= found@[k].1 <= v@.len(),
        decreases v.len() - pos,
    {
        let a = find_from_exec(v, &https, pos);
        let b = find_from_exec(v, &http, pos);
        let (start, scheme_len): (usize, usize) = match (a, b) {
            (Some(a), Some(b)) => if a <= b {
                (a, 8)
            } else {
                (b, 7)
            },
            (Some(a), None) => (a, 8),
            (None, Some(b)) => (b, 7),
            (None, None) => {
                return found;
            },
        };
        proof {
            if a is Some {
                lemma_find_from_found(v@, https_scheme(), pos as int);
            }
            if b is Some {
                lemma_find_from_found(v@, http_scheme(), pos as int);
            }
            assert(v@.subrange(start as int, start + scheme_len)[0] == v@[start as int]);
            assert(v@[start as int] == 'h');
        }
        let end = first_whitespace_from_exec(v, start);
        proof {
            assert(!is_whitespace_spec(v@[start as int]));
            assert(end > start);
        }
        let url_end = trimmed_url_end(v, start, end);
        let ghost url = v@.subrange(start as int, url_end as int);
        let ghost old_found = spans_as_int(found@);
        if url_end - start > scheme_len {
            let mut seen = false;
            let mut k: usize = 0;
            while k < found.len()
                invariant
                    k <= found@.len(),
                    start <= url_end <= v@.len(),
                    url == v@.subrange(start as int, url_end as int),
                    old_found == spans_as_int(found@),
                    forall|j: int| 0 <= j < found@.len() ==> (#[trigger] found@[j]).0 <= found@[j].1 <= v@.len(),
                    seen == exists|j: int|
                        0 <= j < k && v@.subrange((#[trigger] old_found[j]).0, old_found[j].1) == url,
                decreases found@.len() - k,
            {
                let (f0, f1) = found[k];
                assert(old_found[k as int] == (f0 as int, f1 as int));
                if same_text(v, f0, f1, start, url_end) {
                    seen = true;
                }
                k += 1;
            }
            if !seen {
                found.push((start, url_end));
                assert(spans_as_int(found@) =~= old_found.push((start as int, url_end as int)));
            }
        }
        pos = end;
    }
    found
}

/// The `http://` and `https://` addresses in `text`, in the order they are written, each
/// distinct address once. An address ends at white space and loses trailing punctuation;
/// a scheme with nothing after it is no address.
pub fn find_urls<'a>(text: &'a str) -> (r: Vec<&'a str>)
    ensures
        r@.map_values(|u: &str| u@) == find_urls_spec(text@),
{
    let v = chars_of(text);
    let spans = url_spans_exec(&v);
    let mut out: Vec<&'a str> = Vec::new();
    let mut k: usize = 0;
    while k < spans.len()
        invariant
            v@ == text@,
            k <= spans@.len(),
            spans_as_int(spans@) == url_spans(text@),
            forall|j: int| 0 <= j < spans@.len() ==> (#[trigger] spans@[j]).0 <= spans@[j].1 <= v@.len(),
            out@.len() == k,
            forall|j: int| 0 <= j < k ==> (#[trigger] out@[j])@ == text@.subrange(
                spans@[j].0 as int,
                spans@[j].1 as int,
            ),
        decreases spans@.len() - k,
    {
        let (a, b) = spans[k];
        out.push(text.substring_char(a, b));
        k += 1;
    }
    assert(out@.map_values(|u: &str| u@) =~= find_urls_spec(text@)) by {
        assert forall|j: int| 0 <= j < out@.len() implies out@.map_values(|u: &str| u@)[j]
            == find_urls_spec(text@)[j] by {
            assert(url_spans(text@)[j] == (spans@[j].0 as int, spans@[j].1 as int));
        }
    }
    out
}

} // verus!
