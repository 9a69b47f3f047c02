//! Where the addresses of a description stand, in bytes: what the description editor
//! underlines and opens on a modified click.
use vstd::prelude::*;
use vstd::utf8::{encode_scalar, encode_utf8};
use std::ops::Range;
use crate::model::urls::{url_spans, url_spans_exec};
use crate::text::chars_of;

verus! {

/// The byte offset of the `k`-th character of `s` in its UTF-8 encoding.
pub open spec fn byte_offset(s: Seq<char>, k: int) -> int {
    encode_utf8(s.take(k)).len() as int
}

/// The byte ranges of the addresses in `s`, as `url_spans` finds them.
pub open spec fn link_ranges_spec(s: Seq<char>) -> Seq<(int, int)> {
    url_spans(s).map_values(|span: (int, int)| (byte_offset(s, span.0), byte_offset(s, span.1)))
}

pub proof fn lemma_encode_concat(a: Seq<char>, b: Seq<char>)
    ensures
        encode_utf8(a + b) == encode_utf8(a) + encode_utf8(b),
    decreases a.len(),
{
    if a.len() == 0 {
        assert(a + b =~= b);
        assert(encode_utf8(a) =~= Seq::<u8>::empty());
        assert(encode_utf8(a) + encode_utf8(b) =~= encode_utf8(b));
    } else {
        assert((a + b).drop_first() =~= a.drop_first() + b);
        assert((a + b)[0] == a[0]);
        lemma_encode_concat(a.drop_first(), b);
        assert(encode_utf8(a + b) =~= encode_scalar(a[0] as u32) + (encode_utf8(a.drop_first())
            + encode_utf8(b)));
    }
}

proof fn lemma_byte_offset_step(s: Seq<char>, k: int)
    requires
        0 <= k < s.len(),
    ensures
        byte_offset(s, k + 1) == byte_offset(s, k) + encode_scalar(s[k] as u32).len(),
        byte_offset(s, k + 1) <= byte_offset(s, s.len() as int),
{
    assert(s.take(k + 1) =~= s.take(k) + seq![s[k]]);
    lemma_encode_concat(s.take(k), seq![s[k]]);
    assert(seq![s[k]].drop_first() =~= Seq::<char>::empty());
    assert(encode_utf8(seq![s[k]]) =~= encode_scalar(s[k] as u32) + encode_utf8(
        Seq::<char>::empty(),
    ));
    assert(s.take(s.len() as int) =~= s.take(k + 1) + s.skip(k + 1));
    lemma_encode_concat(s.take(k + 1), s.skip(k + 1));
}

/// The number of bytes that `c` takes in UTF-8 (`char::len_utf8`).
fn char_utf8_len(c: char) -> (r: usize)
    ensures
        r == encode_scalar(c as u32).len(),
{
    let code = c as u32;
    if code < 0x80 {
        1
    } else if code < 0x800 {
        2
    } else if code < 0x10000 {
        3
    } else {
        4
    }
}

/// The byte offset of every character of `v`, and of its end.
fn byte_offsets(text: &str, v: &Vec<char>) -> (r: Vec<usize>)
    requires
        v@ == text@,
    ensures
        r@.len() == v@.len() + 1,
        forall|k: int| 0 <= k <= v@.len() ==> #[trigger] r@[k] == byte_offset(v@, k),
{
    let total = text.as_bytes().len();
    assert(v@.take(v@.len() as int) =~= v@);
    assert(v@.take(0) =~= Seq::<char>::empty());
    let mut offsets: Vec<usize> = Vec::new();
    offsets.push(0);
    let mut k: usize = 0;
    let mut at: usize = 0;
    while k < v.len()
        invariant
            v@ == text@,
            total == byte_offset(v@, v@.len() as int),
            k <= v@.len(),
            at == byte_offset(v@, k as int),
            offsets@.len() == k + 1,
            forall|j: int| 0 <= j <= k ==> #[trigger] offsets@[j] == byte_offset(v@, j),
        decreases v.len() - k,
    {
        proof {
            lemma_byte_offset_step(v@, k as int);
        }
        at = at + char_utf8_len(v[k]);
        offsets.push(at);
        k += 1;
    }
    offsets
}

/// The byte ranges of the addresses in `text`, in the order they are written, each distinct
/// address once.
pub fn link_ranges(text: &str) -> (r: Vec<Range<usize>>)
    ensures
        r@.map_values(|range: Range<usize>| (range.start as int, range.end as int))
            == link_ranges_spec(text@),
{
    let v = chars_of(text);
    let spans = url_spans_exec(&v);
    let offsets = byte_offsets(text, &v);
    let mut out: Vec<Range<usize>> = Vec::new();
    let mut k: usize = 0;
    while k < spans.len()
        invariant
            v@ == text@,
            offsets@.len() == v@.len() + 1,
            forall|j: int| 0 <= j <= v@.len() ==> #[trigger] offsets@[j] == byte_offset(v@, j),
            forall|j: int|
                0 <= j < spans@.len() ==> (#[trigger] spans@[j]).0 <= spans@[j].1 <= v@.len(),
            k <= spans@.len(),
            out@.len() == k,
            forall|j: int|
                0 <= j < k ==> (#[trigger] out@[j]).start == offsets@[spans@[j].0 as int]
                    && out@[j].end == offsets@[spans@[j].1 as int],
        decreases spans@.len() - k,
    {
        let (a, b) = spans[k];
        out.push(Range { start: offsets[a], end: offsets[b] });
        k += 1;
    }
    proof {
        let lhs = out@.map_values(|range: Range<usize>| (range.start as int, range.end as int));
        assert forall|j: int| 0 <= j < out@.len() implies lhs[j] == link_ranges_spec(text@)[j] by {
            assert(url_spans(text@)[j] == (spans@[j].0 as int, spans@[j].1 as int));
        }
        assert(lhs =~= link_ranges_spec(text@));
    }
    out
}

/// The first address whose range holds `offset`, its ends included.
pub open spec fn link_at_spec(s: Seq<char>, offset: int) -> Option<(int, int)>
    decreases link_ranges_spec(s).len(),
{
    first_range_holding(link_ranges_spec(s), offset)
}

pub open spec fn first_range_holding(ranges: Seq<(int, int)>, offset: int) -> Option<(int, int)>
    decreases ranges.len(),
{
    if ranges.len() == 0 {
        None
    } else if ranges[0].0 <= offset <= ranges[0].1 {
        Some(ranges[0])
    } else {
        first_range_holding(ranges.drop_first(), offset)
    }
}

/// The byte range of the address at byte `offset`, when there is one. Both ends count, so
/// that a press on the first character or just after the last one opens it.
pub fn link_at(text: &str, offset: usize) -> (r: Option<Range<usize>>)
    ensures
        match link_at_spec(text@, offset as int) {
            Some(range) => r matches Some(found) && found.start == range.0 && found.end
                == range.1,
            None => r is None,
        },
{
    let ranges = link_ranges(text);
    let ghost all = ranges@.map_values(|range: Range<usize>| (range.start as int, range.end as int));
    let mut k: usize = 0;
    assert(all.skip(0) =~= all);
    while k < ranges.len()
        invariant
            k <= ranges@.len(),
            all == ranges@.map_values(|range: Range<usize>| (range.start as int, range.end as int)),
            all == link_ranges_spec(text@),
            first_range_holding(all.skip(k as int), offset as int) == first_range_holding(
                all,
                offset as int,
            ),
        decreases ranges@.len() - k,
    {
        let range = &ranges[k];
        assert(all.skip(k as int)[0] == all[k as int]);
        assert(all.skip(k as int).drop_first() =~= all.skip(k + 1));
        if range.start <= offset && offset <= range.end {
            return Some(Range { start: range.start, end: range.end });
        }
        k += 1;
    }
    assert(all.skip(k as int).len() == 0);
    None
}

// ---------------------------------------------------------------------------------------
// The runs that the editor colours.

pub open spec fn max_int(a: int, b: int) -> int {
    if a >= b {
        a
    } else {
        b
    }
}

pub open spec fn min_of(a: int, b: int) -> int {
    if a <= b {
        a
    } else {
        b
    }
}

/// The runs from `at` to `end`, from link `i` on: each link clipped to `start..end`, the
/// stretches between them plain, links that clip to nothing left out.
pub open spec fn runs_from(links: Seq<(int, int)>, i: int, at: int, start: int, end: int) -> Seq<
    (int, int, bool),
>
    decreases links.len() - i,
{
    if i < 0 || i >= links.len() {
        if at < end {
            seq![(at, end, false)]
        } else {
            seq![]
        }
    } else {
        let s = max_int(links[i].0, start);
        let e = min_of(links[i].1, end);
        if s >= e {
            runs_from(links, i + 1, at, start, end)
        } else {
            let gap: Seq<(int, int, bool)> = if at < s {
                seq![(at, s, false)]
            } else {
                seq![]
            };
            gap + seq![(s, e, true)] + runs_from(links, i + 1, e, start, end)
        }
    }
}

/// The runs of the range `start..end`, given the links: `true` marks a link.
pub open spec fn runs_spec(links: Seq<(int, int)>, start: int, end: int) -> Seq<(int, int, bool)> {
    runs_from(links, 0, start, start, end)
}

/// Runs that cover `from..to` without gap or overlap, none of them empty.
pub open spec fn covers(runs: Seq<(int, int, bool)>, from: int, to: int) -> bool {
    if runs.len() == 0 {
        from >= to
    } else {
        &&& runs[0].0 == from
        &&& runs.last().1 == to
        &&& forall|k: int| 0 <= k < runs.len() ==> (#[trigger] runs[k]).0 < runs[k].1
        &&& forall|k: int| 0 <= k < runs.len() - 1 ==> (#[trigger] runs[k]).1 == runs[k + 1].0
    }
}

/// Links in the order they are written, none starting before the previous one ends.
pub open spec fn in_text_order(links: Seq<(int, int)>) -> bool {
    forall|i: int, j: int| 0 <= i < j < links.len() ==> (#[trigger] links[i]).1 <= (#[trigger] links[j]).0
}

proof fn lemma_runs_cover(links: Seq<(int, int)>, i: int, at: int, start: int, end: int)
    requires
        in_text_order(links),
        0 <= i,
        start <= at,
        at <= end || (start > end && at == start),
        forall|j: int| i <= j < links.len() ==> max_int((#[trigger] links[j]).0, start) >= at,
    ensures
        covers(runs_from(links, i, at, start, end), at, end),
    decreases links.len() - i,
{
    if i < links.len() {
        let s = max_int(links[i].0, start);
        let e = min_of(links[i].1, end);
        if s >= e {
            lemma_runs_cover(links, i + 1, at, start, end);
        } else {
            assert forall|j: int| i + 1 <= j < links.len() implies max_int((#[trigger] links[j]).0, start)
                >= e by {
                assert(links[i].1 <= links[j].0);
            }
            lemma_runs_cover(links, i + 1, e, start, end);
            let rest = runs_from(links, i + 1, e, start, end);
            let gap: Seq<(int, int, bool)> = if at < s {
                seq![(at, s, false)]
            } else {
                seq![]
            };
            let all = gap + seq![(s, e, true)] + rest;
            assert(all == runs_from(links, i, at, start, end));
            let g = gap.len() as int;
            assert(all[g] == (s, e, true));
            assert forall|k: int| 0 <= k < all.len() implies (#[trigger] all[k]).0 < all[k].1 by {
                if k > g {
                    assert(all[k] == rest[k - g - 1]);
                }
            }
            assert forall|k: int| 0 <= k < all.len() - 1 implies (#[trigger] all[k]).1 == all[k + 1].0 by {
                if k > g {
                    assert(all[k] == rest[k - g - 1]);
                    assert(all[k + 1] == rest[k - g]);
                } else if k == g {
                    assert(all[k + 1] == rest[0]);
                }
            }
            if rest.len() > 0 {
                assert(all.last() == rest.last());
            }
        }
    }
}

/// Laid over the range `start..end`, the runs of links in text order cover it from end to
/// end, each run starting where the one before ended and none of them empty; an empty range
/// has no run.
pub proof fn law_runs_cover_the_range(links: Seq<(int, int)>, start: int, end: int)
    requires
        in_text_order(links),
    ensures
        covers(runs_spec(links, start, end), start, end),
{
    lemma_runs_cover(links, 0, start, start, end);
}

/// The addresses of a text are in text order.
pub proof fn law_link_ranges_in_text_order(s: Seq<char>)
    ensures
        in_text_order(link_ranges_spec(s)),
{
    crate::model::urls::lemma_url_spans_ordered(s);
    let r = link_ranges_spec(s);
    assert forall|i: int, j: int| 0 <= i < j < r.len() implies (#[trigger] r[i]).1 <= (#[trigger] r[j]).0 by {
        let a = url_spans(s)[i];
        let b = url_spans(s)[j];
        lemma_byte_offset_monotone(s, a.1, b.0);
    }
}

/// Byte offsets grow with the character count.
proof fn lemma_byte_offset_monotone(s: Seq<char>, a: int, b: int)
    requires
        0 <= a <= b <= s.len(),
    ensures
        byte_offset(s, a) <= byte_offset(s, b),
    decreases b - a,
{
    if a < b {
        lemma_byte_offset_step(s, b - 1);
        lemma_byte_offset_monotone(s, a, b - 1);
    }
}

/// The runs the description editor colours over the byte range `start..end`: each link
/// clipped to the range, marked `true`, and the stretches between them, marked `false`.
pub fn link_runs(links: &Vec<Range<usize>>, start: usize, end: usize) -> (r: Vec<(Range<usize>, bool)>)
    ensures
        r@.map_values(|run: (Range<usize>, bool)| (run.0.start as int, run.0.end as int, run.1))
            == runs_spec(
            links@.map_values(|range: Range<usize>| (range.start as int, range.end as int)),
            start as int,
            end as int,
        ),
{
    let ghost ls = links@.map_values(|range: Range<usize>| (range.start as int, range.end as int));
    let ghost whole = runs_spec(ls, start as int, end as int);
    let mut runs: Vec<(Range<usize>, bool)> = Vec::new();
    let mut at = start;
    let mut i: usize = 0;
    while i < links.len()
        invariant
            ls == links@.map_values(|range: Range<usize>| (range.start as int, range.end as int)),
            whole == runs_spec(ls, start as int, end as int),
            i <= links@.len(),
            runs@.map_values(|run: (Range<usize>, bool)| (run.0.start as int, run.0.end as int, run.1))
                + runs_from(ls, i as int, at as int, start as int, end as int) == whole,
        decreases links.len() - i,
    {
        let ghost before = runs@;
        let link = &links[i];
        assert(ls[i as int] == (link.start as int, link.end as int));
        let s = if link.start >= start {
            link.start
        } else {
            start
        };
        let e = if link.end <= end {
            link.end
        } else {
            end
        };
        if s < e {
            let ghost from = at as int;
            if at < s {
                runs.push((Range { start: at, end: s }, false));
            }
            runs.push((Range { start: s, end: e }, true));
            at = e;
            proof {
                let view = |run: (Range<usize>, bool)| (run.0.start as int, run.0.end as int, run.1);
                let gap: Seq<(int, int, bool)> = if from < s {
                    seq![(from, s as int, false)]
                } else {
                    seq![]
                };
                assert(runs@.map_values(view) =~= before.map_values(view) + gap + seq![
                    (s as int, e as int, true),
                ]);
            }
        }
        i += 1;
    }
    if at < end {
        runs.push((Range { start: at, end }, false));
    }
    proof {
        let view = |run: (Range<usize>, bool)| (run.0.start as int, run.0.end as int, run.1);
        assert(runs@.map_values(view) =~= whole);
    }
    runs
}

} // verus!
