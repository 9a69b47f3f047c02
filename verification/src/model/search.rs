//! Reading what the user types: search text, card numbers, WIP limits and due dates.
use vstd::prelude::*;
use crate::date::{chrono_parse_date, parse_iso_date, DueDate};
use crate::model::types::{BoardError, Card, CardId, CardView, DueStatus, SOON_THRESHOLD_DAYS};
use crate::text::{
    chars_of, contains_chars, contains_spec, is_blank, is_blank_spec, lemma_trim_blank,
    string_from_chars, trim, trim_spec,
};

verus! {

/// The characters that `char::to_lowercase` yields for `c`.
pub uninterp spec fn lowercase_of(c: char) -> Seq<char>;

/// ASCII upper case letters to lower case; every other character unchanged.
pub open spec fn ascii_lower(c: char) -> char {
    if 'A' <= c && c <= 'Z' {
        ((c as u32) + 32) as char
    } else {
        c
    }
}

/// Calls `char::to_lowercase` and collects what it yields. The contract names the result;
/// of its value it states only the ASCII case, which the standard library documents as the
/// ASCII lower case mapping.
#[verifier::external_body]
fn char_to_lowercase(c: char) -> (r: Vec<char>)
    ensures
        r@ == lowercase_of(c),
        (c as u32) < 128 ==> r@ == seq![ascii_lower(c)],
{
    c.to_lowercase().collect()
}

/// Calls `char::from_u32`: the character with code point `code`, when it is a Unicode scalar
/// value, as the standard library documents.
#[verifier::external_body]
fn char_from_u32(code: u32) -> (r: Option<char>)
    ensures
        (code < 0xd800 || (0xe000 <= code && code <= 0x10ffff)) ==> r == Some(code as char),
        !(code < 0xd800 || (0xe000 <= code && code <= 0x10ffff)) ==> r is None,
{
    char::from_u32(code)
}

/// Full-width ASCII and the ideographic space, folded to their ASCII forms.
pub open spec fn fold_width(c: char) -> char {
    if c == '\u{3000}' {
        ' '
    } else if '\u{ff01}' <= c && c <= '\u{ff5e}' {
        ((c as u32) - 0xfee0) as char
    } else {
        c
    }
}

/// What lower-casing `c` gives: the ASCII lower case for an ASCII character, and what
/// `char::to_lowercase` yields for any other.
pub open spec fn lower_spec(c: char) -> Seq<char> {
    if (c as u32) < 128 {
        seq![ascii_lower(c)]
    } else {
        lowercase_of(c)
    }
}

/// The search form of `s`: widths folded, then every character lower-cased.
pub open spec fn normalize_spec(s: Seq<char>) -> Seq<char>
    decreases s.len(),
{
    if s.len() == 0 {
        seq![]
    } else {
        normalize_spec(s.drop_last()) + lower_spec(fold_width(s.last()))
    }
}

fn fold_width_exec(c: char) -> (r: char)
    ensures
        r == fold_width(c),
{
    if c == '\u{3000}' {
        ' '
    } else if '\u{ff01}' <= c && c <= '\u{ff5e}' {
        let code = (c as u32) - 0xfee0;
        match char_from_u32(code) {
            Some(folded) => folded,
            None => c,
        }
    } else {
        c
    }
}

/// Folds full-width ASCII and the ideographic space to ASCII and lower-cases, so that a
/// search ignores width and case.
pub fn normalize_search_text(value: &str) -> (r: String)
    ensures
        r@ == normalize_spec(value@),
{
    let chars = chars_of(value);
    let mut out: Vec<char> = Vec::new();
    let mut i: usize = 0;
    while i < chars.len()
        invariant
            chars@ == value@,
            i <= chars.len(),
            out@ == normalize_spec(value@.take(i as int)),
        decreases chars.len() - i,
    {
        let folded = fold_width_exec(chars[i]);
        let mut lower = char_to_lowercase(folded);
        proof {
            assert(value@.take(i + 1).drop_last() =~= value@.take(i as int));
        }
        out.append(&mut lower);
        i += 1;
    }
    assert(value@.take(chars.len() as int) =~= value@);
    string_from_chars(&out)
}

pub open spec fn is_ascii_digit(c: char) -> bool {
    '0' <= c && c <= '9'
}

pub open spec fn all_ascii_digits(s: Seq<char>) -> bool {
    forall|i: int| 0 <= i < s.len() ==> is_ascii_digit(#[trigger] s[i])
}

/// The value of a run of decimal digits.
pub open spec fn digits_value(s: Seq<char>) -> int
    decreases s.len(),
{
    if s.len() == 0 {
        0
    } else {
        digits_value(s.drop_last()) * 10 + ((s.last() as u32) - ('0' as u32))
    }
}

/// What `str::parse::<i64>` gives: an optional sign, one or more ASCII digits, and a value
/// in range.
pub open spec fn parse_i64_spec(s: Seq<char>) -> Option<i64> {
    let signed = s.len() > 0 && (s[0] == '-' || s[0] == '+');
    let digits = if signed { s.drop_first() } else { s };
    let magnitude = digits_value(digits);
    let value = if s.len() > 0 && s[0] == '-' { -magnitude } else { magnitude };
    if digits.len() == 0 || !all_ascii_digits(digits) {
        None
    } else if i64::MIN <= value && value <= i64::MAX {
        Some(value as i64)
    } else {
        None
    }
}

proof fn lemma_digits_value_nonneg(s: Seq<char>)
    requires
        all_ascii_digits(s),
    ensures
        digits_value(s) >= 0,
    decreases s.len(),
{
    if s.len() > 0 {
        assert(all_ascii_digits(s.drop_last()) && is_ascii_digit(s.last())) by {
            assert forall|i: int| 0 <= i < s.drop_last().len() implies is_ascii_digit(
                #[trigger] s.drop_last()[i],
            ) by {
                assert(s.drop_last()[i] == s[i]);
            }
            assert(is_ascii_digit(s[s.len() - 1]));
        }
        lemma_digits_value_nonneg(s.drop_last());
    }
}

/// The integer that `s` spells, as `str::parse::<i64>` reads it.
pub fn parse_i64(s: &Vec<char>) -> (r: Option<i64>)
    ensures
        r == parse_i64_spec(s@),
{
    let negative = s.len() > 0 && s[0] == '-';
    let start: usize = if s.len() > 0 && (s[0] == '-' || s[0] == '+') { 1 } else { 0 };
    let ghost digits = if start == 1 { s@.drop_first() } else { s@ };
    if start >= s.len() {
        assert(digits.len() == 0);
        return None;
    }
    // The magnitude read so far, while it stays within 2^63.
    let mut magnitude: i128 = 0;
    let mut too_large = false;
    let mut i: usize = start;
    while i < s.len()
        invariant
            start <= i <= s.len(),
            digits == (if start == 1 { s@.drop_first() } else { s@ }),
            (start == 1) == (s@.len() > 0 && (s@[0] == '-' || s@[0] == '+')),
            digits.len() == s@.len() - start,
            forall|k: int| 0 <= k < digits.len() ==> #[trigger] digits[k] == s@[k + start],
            all_ascii_digits(digits.take(i - start)),
            too_large ==> digits_value(digits.take(i - start)) > 0x8000_0000_0000_0000,
            !too_large ==> magnitude == digits_value(digits.take(i - start)),
            0 <= magnitude <= 0x8000_0000_0000_0000,
        decreases s.len() - i,
    {
        let c = s[i];
        let ghost prefix = digits.take(i - start);
        let ghost next = digits.take(i - start + 1);
        assert(next.drop_last() =~= prefix);
        assert(next.last() == c);
        if !('0' <= c && c <= '9') {
            assert(digits[i - start] == c);
            assert(!is_ascii_digit(digits[i - start]));
            return None;
        }
        assert(all_ascii_digits(next)) by {
            assert forall|k: int| 0 <= k < next.len() implies is_ascii_digit(#[trigger] next[k]) by {
                if k < prefix.len() {
                    assert(next[k] == prefix[k]);
                }
            }
        }
        let d = (c as u32 - '0' as u32) as i128;
        if too_large {
            proof {
                lemma_digits_value_nonneg(prefix);
            }
        } else {
            let candidate = magnitude * 10 + d;
            if candidate > 0x8000_0000_0000_0000 {
                too_large = true;
            } else {
                magnitude = candidate;
            }
        }
        i += 1;
    }
    assert(digits.take(s.len() - start) =~= digits);
    if too_large {
        return None;
    }
    if negative {
        let value = -magnitude;
        if value < i64::MIN as i128 {
            None
        } else {
            Some(value as i64)
        }
    } else {
        if magnitude > i64::MAX as i128 {
            None
        } else {
            Some(magnitude as i64)
        }
    }
}

/// What `parse_wip_limit` answers for the text `value`.
pub open spec fn parse_wip_limit_spec(value: Seq<char>) -> Result<Option<i64>, Seq<char>> {
    let text = trim_spec(value);
    if text.len() == 0 {
        Ok(None)
    } else {
        match parse_i64_spec(text) {
            Some(limit) => if limit > 0 {
                Ok(Some(limit))
            } else {
                Err(text)
            },
            None => Err(text),
        }
    }
}

/// Reads a WIP limit: blank means no limit, otherwise a whole number of at least 1.
///
/// A refusal carries the trimmed text.
pub fn parse_wip_limit(value: &str) -> (r: Result<Option<i64>, BoardError>)
    ensures
        match parse_wip_limit_spec(value@) {
            Ok(limit) => r == Ok::<Option<i64>, BoardError>(limit),
            Err(text) => r matches Err(BoardError::InvalidWipLimit(shown)) && shown@ == text,
        },
{
    let text = trim(value);
    if text.is_empty() {
        return Ok(None);
    }
    let chars = chars_of(text);
    match parse_i64(&chars) {
        Some(limit) => {
            if limit <= 0 {
                Err(BoardError::InvalidWipLimit(text.to_owned()))
            } else {
                Ok(Some(limit))
            }
        },
        None => Err(BoardError::InvalidWipLimit(text.to_owned())),
    }
}

/// What `parse_card_number_query` answers for the query `query`.
pub open spec fn card_number_spec(query: Seq<char>) -> Option<CardId> {
    let text = trim_spec(normalize_spec(query));
    if text.len() > 0 && text[0] == '#' {
        let digits = text.drop_first();
        if digits.len() > 0 && all_ascii_digits(digits) {
            parse_i64_spec(digits)
        } else {
            None
        }
    } else {
        None
    }
}

/// Reads a search query of the form `#12` as the card number 12.
///
/// Only a `#` followed by nothing but digits counts; width and surrounding blanks are
/// ignored.
pub fn parse_card_number_query(query: &str) -> (r: Option<CardId>)
    ensures
        r == card_number_spec(query@),
{
    let normalized = normalize_search_text(query);
    let text = trim(normalized.as_str());
    let chars = chars_of(text);
    if chars.len() == 0 || chars[0] != '#' {
        return None;
    }
    let mut digits: Vec<char> = Vec::new();
    let mut i: usize = 1;
    while i < chars.len()
        invariant
            1 <= i <= chars.len(),
            chars@ == trim_spec(normalize_spec(query@)),
            chars@[0] == '#',
            digits@ == chars@.subrange(1, i as int),
            all_ascii_digits(digits@),
        decreases chars.len() - i,
    {
        let c = chars[i];
        if !('0' <= c && c <= '9') {
            assert(chars@.drop_first()[i - 1] == c);
            assert(!is_ascii_digit(chars@.drop_first()[i - 1]));
            return None;
        }
        digits.push(c);
        i += 1;
    }
    assert(digits@ =~= chars@.drop_first());
    if digits.len() == 0 {
        return None;
    }
    parse_i64(&digits)
}

/// Whether `card` answers the search `query`: a card number matches that card alone;
/// otherwise the normalized query must stand in the normalized title or description.
pub open spec fn card_matches_spec(card: CardView, query: Seq<char>) -> bool {
    match card_number_spec(query) {
        Some(id) => card.id == id,
        None => {
            let q = normalize_spec(query);
            q.len() == 0 || contains_spec(normalize_spec(card.title), q) || contains_spec(
                normalize_spec(card.description),
                q,
            )
        },
    }
}

pub fn card_matches_search(card: &Card, query: &str) -> (r: bool)
    ensures
        r == card_matches_spec(card@, query@),
{
    if let Some(card_id) = parse_card_number_query(query) {
        return card.id == card_id;
    }
    let normalized = normalize_search_text(query);
    let q = chars_of(normalized.as_str());
    if q.len() == 0 {
        return true;
    }
    let title = normalize_search_text(card.title.as_str());
    if contains_chars(&chars_of(title.as_str()), &q) {
        return true;
    }
    let description = normalize_search_text(card.description.as_str());
    contains_chars(&chars_of(description.as_str()), &q)
}

/// How a due date `days` days from today is shown.
pub open spec fn due_status_of_days(days: int) -> DueStatus {
    if days <= -1 {
        DueStatus::Overdue(-days as i64)
    } else if days == 0 {
        DueStatus::Today
    } else if days <= SOON_THRESHOLD_DAYS {
        DueStatus::Soon(days as i64)
    } else {
        DueStatus::Upcoming(days as i64)
    }
}

/// Classifies a due date against `today`: overdue by how many days, today, soon (within
/// three days) or later; no date gives `NoDate`.
pub fn due_status(due_date: Option<DueDate>, today: DueDate) -> (r: DueStatus)
    ensures
        r == match due_date {
            None => DueStatus::NoDate,
            Some(due) => due_status_of_days(due.days_from_ce - today.days_from_ce),
        },
{
    let due = match due_date {
        None => return DueStatus::NoDate,
        Some(due) => due,
    };
    let days: i64 = due.days_from_ce as i64 - today.days_from_ce as i64;
    if days <= -1 {
        DueStatus::Overdue(-days)
    } else if days == 0 {
        DueStatus::Today
    } else if days <= SOON_THRESHOLD_DAYS {
        DueStatus::Soon(days)
    } else {
        DueStatus::Upcoming(days)
    }
}

/// Reads a due date typed as `YYYY-MM-DD`; blank means no date. A refusal carries the
/// trimmed text.
pub fn parse_due_date(value: &str) -> (r: Result<Option<DueDate>, BoardError>)
    ensures
        is_blank_spec(value@) ==> r == Ok::<Option<DueDate>, BoardError>(None),
        !is_blank_spec(value@) ==> match chrono_parse_date(trim_spec(value@), "%Y-%m-%d"@) {
            Some(days) => r == Ok::<Option<DueDate>, BoardError>(
                Some(DueDate { days_from_ce: days }),
            ),
            None => r matches Err(BoardError::InvalidDueDate(shown)) && shown@ == trim_spec(
                value@,
            ),
        },
{
    proof {
        lemma_trim_blank(value@);
    }
    let text = trim(value);
    if text.is_empty() {
        return Ok(None);
    }
    match parse_iso_date(text) {
        Some(date) => Ok(Some(date)),
        None => Err(BoardError::InvalidDueDate(text.to_owned())),
    }
}

} // verus!

verus! {

/// Two texts whose characters search alike, one for one, have the same search form.
proof fn lemma_normalize_alike(s: Seq<char>, t: Seq<char>)
    requires
        s.len() == t.len(),
        forall|i: int| 0 <= i < s.len() ==> lower_spec(fold_width(#[trigger] s[i])) == lower_spec(fold_width(t[i])),
    ensures
        normalize_spec(s) == normalize_spec(t),
    decreases s.len(),
{
    if s.len() > 0 {
        let (s0, t0) = (s.drop_last(), t.drop_last());
        assert forall|i: int| 0 <= i < s0.len() implies lower_spec(fold_width(#[trigger] s0[i])) == lower_spec(
            fold_width(t0[i]),
        ) by {
            assert(s0[i] == s[i] && t0[i] == t[i]);
        }
        lemma_normalize_alike(s0, t0);
        assert(lower_spec(fold_width(s[s.len() - 1])) == lower_spec(fold_width(t[t.len() - 1])));
    }
}

/// Folding the width of a character twice is folding it once.
proof fn lemma_fold_width_twice(c: char)
    ensures
        fold_width(fold_width(c)) == fold_width(c),
{
}

/// A text and its half-width form have the same search form.
pub proof fn lemma_normalize_ignores_width(s: Seq<char>)
    ensures
        normalize_spec(s.map_values(|c: char| fold_width(c))) == normalize_spec(s),
{
    let t = s.map_values(|c: char| fold_width(c));
    assert forall|i: int| 0 <= i < t.len() implies lower_spec(fold_width(#[trigger] t[i])) == lower_spec(
        fold_width(s[i]),
    ) by {
        lemma_fold_width_twice(s[i]);
    }
    lemma_normalize_alike(t, s);
}

/// A text and its form with ASCII capitals lowered have the same search form.
pub proof fn lemma_normalize_ignores_ascii_case(s: Seq<char>)
    ensures
        normalize_spec(s.map_values(|c: char| ascii_lower(c))) == normalize_spec(s),
{
    let t = s.map_values(|c: char| ascii_lower(c));
    assert forall|i: int| 0 <= i < t.len() implies lower_spec(fold_width(#[trigger] t[i])) == lower_spec(
        fold_width(s[i]),
    ) by {
        let c = s[i];
        if 'A' <= c && c <= 'Z' {
            assert((ascii_lower(c) as u32) < 128);
            assert(ascii_lower(ascii_lower(c)) == ascii_lower(c));
        }
    }
    lemma_normalize_alike(t, s);
}

/// Which cards a search matches depends on the query only through its search form.
pub proof fn lemma_match_by_search_form(card: CardView, q1: Seq<char>, q2: Seq<char>)
    requires
        normalize_spec(q1) == normalize_spec(q2),
    ensures
        card_matches_spec(card, q1) == card_matches_spec(card, q2),
{
}

/// Search ignores width: a query and its half-width form match the same cards, and a card
/// whose title and description are written in full-width letters matches as though they
/// were half-width.
pub proof fn law_search_ignores_width(card: CardView, query: Seq<char>)
    ensures
        card_matches_spec(card, query.map_values(|c: char| fold_width(c))) == card_matches_spec(card, query),
        card_matches_spec(
            CardView {
                title: card.title.map_values(|c: char| fold_width(c)),
                description: card.description.map_values(|c: char| fold_width(c)),
                ..card
            },
            query,
        ) == card_matches_spec(card, query),
{
    lemma_normalize_ignores_width(query);
    lemma_match_by_search_form(card, query.map_values(|c: char| fold_width(c)), query);
    lemma_normalize_ignores_width(card.title);
    lemma_normalize_ignores_width(card.description);
}

/// Search ignores the case of ASCII letters: a query and its lower-case form match the same
/// cards, and so do a card's title and description in either case.
pub proof fn law_search_ignores_ascii_case(card: CardView, query: Seq<char>)
    ensures
        card_matches_spec(card, query.map_values(|c: char| ascii_lower(c))) == card_matches_spec(card, query),
        card_matches_spec(
            CardView {
                title: card.title.map_values(|c: char| ascii_lower(c)),
                description: card.description.map_values(|c: char| ascii_lower(c)),
                ..card
            },
            query,
        ) == card_matches_spec(card, query),
{
    lemma_normalize_ignores_ascii_case(query);
    lemma_match_by_search_form(card, query.map_values(|c: char| ascii_lower(c)), query);
    lemma_normalize_ignores_ascii_case(card.title);
    lemma_normalize_ignores_ascii_case(card.description);
}

} // verus!

verus! {

/// The search form of two texts put together is their search forms put together: the
/// form is made character by character.
pub proof fn law_normalize_concat(a: Seq<char>, b: Seq<char>)
    ensures
        normalize_spec(a + b) == normalize_spec(a) + normalize_spec(b),
    decreases b.len(),
{
    if b.len() == 0 {
        assert(a + b =~= a);
        assert(normalize_spec(a) + normalize_spec(b) =~= normalize_spec(a));
    } else {
        let init = b.drop_last();
        law_normalize_concat(a, init);
        assert((a + b).drop_last() =~= a + init);
        assert((a + b).last() == b.last());
        assert(normalize_spec(a) + normalize_spec(init) + lower_spec(fold_width(b.last()))
            =~= normalize_spec(a) + (normalize_spec(init) + lower_spec(fold_width(b.last()))));
    }
}

} // verus!
