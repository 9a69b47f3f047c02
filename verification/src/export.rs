//! A board written out as Markdown, the file name offered for an export, and the small
//! formatting rules the board screen shares with it.
use vstd::prelude::*;
use crate::date::{chrono_iso_text, chrono_ymd_of_days, DueDate};
use crate::model::board::{find_column_index, find_tag_index};
use crate::model::spec::{column_index, lemma_column_index, lemma_tag_index, tag_index};
use crate::model::types::{
    cards_view, columns_view, items_view, tags_view, Board, BoardState, Card, CardView,
    ChecklistItem, ChecklistItemView, Column, ColumnView, Tag, TagId, TagView,
};
use crate::text::{chars_of, decimal, decimal_text, is_blank, is_blank_spec, is_whitespace_spec, string_from_chars, trim_spec};

verus! {

// ---------------------------------------------------------------------------------------
// Building text.

/// The texts of `parts`, one after the other.
pub open spec fn flatten(parts: Seq<Seq<char>>) -> Seq<char>
    decreases parts.len(),
{
    if parts.len() == 0 {
        seq![]
    } else {
        flatten(parts.drop_last()) + parts.last()
    }
}

proof fn lemma_flatten_push(parts: Seq<Seq<char>>, last: Seq<char>)
    ensures
        flatten(parts.push(last)) == flatten(parts) + last,
{
    assert(parts.push(last).drop_last() =~= parts);
}

fn push_text(out: &mut Vec<char>, s: &str)
    ensures
        final(out)@ == old(out)@ + s@,
{
    let v = chars_of(s);
    push_chars(out, &v);
}

fn push_chars(out: &mut Vec<char>, v: &Vec<char>)
    ensures
        final(out)@ == old(out)@ + v@,
{
    let ghost start = out@;
    let mut i: usize = 0;
    while i < v.len()
        invariant
            i <= v@.len(),
            out@ == start + v@.take(i as int),
        decreases v.len() - i,
    {
        out.push(v[i]);
        i += 1;
        assert(out@ =~= start + v@.take(i as int));
    }
    assert(v@.take(i as int) =~= v@);
}

// ---------------------------------------------------------------------------------------
// Inline text.

/// One character as Markdown shows it literally: a backslash doubled, a line break as a
/// space, and `*`, `_`, `` ` ``, `[` and `]` escaped.
pub open spec fn escape_char(c: char) -> Seq<char> {
    if c == '\\' {
        seq!['\\', '\\']
    } else if c == '\r' || c == '\n' {
        seq![' ']
    } else if c == '*' || c == '_' || c == '`' || c == '[' || c == ']' {
        seq!['\\', c]
    } else {
        seq![c]
    }
}

/// Text as Markdown shows it literally, on one line.
pub open spec fn markdown_inline_spec(s: Seq<char>) -> Seq<char>
    decreases s.len(),
{
    if s.len() == 0 {
        seq![]
    } else {
        markdown_inline_spec(s.drop_last()) + escape_char(s.last())
    }
}

fn push_inline(out: &mut Vec<char>, s: &str)
    ensures
        final(out)@ == old(out)@ + markdown_inline_spec(s@),
{
    let v = chars_of(s);
    push_inline_chars(out, &v);
}

fn push_inline_chars(out: &mut Vec<char>, v: &Vec<char>)
    ensures
        final(out)@ == old(out)@ + markdown_inline_spec(v@),
{
    let ghost start = out@;
    let mut i: usize = 0;
    while i < v.len()
        invariant
            i <= v@.len(),
            out@ == start + markdown_inline_spec(v@.take(i as int)),
        decreases v.len() - i,
    {
        assert(v@.take(i + 1).drop_last() =~= v@.take(i as int));
        let c = v[i];
        let ghost before = out@;
        if c == '\\' {
            out.push('\\');
            out.push('\\');
        } else if c == '\r' || c == '\n' {
            out.push(' ');
        } else if c == '*' || c == '_' || c == '`' || c == '[' || c == ']' {
            out.push('\\');
            out.push(c);
        } else {
            out.push(c);
        }
        assert(out@ =~= before + escape_char(c));
        i += 1;
        assert(out@ =~= start + markdown_inline_spec(v@.take(i as int)));
    }
    assert(v@.take(i as int) =~= v@);
}

/// Text as Markdown shows it literally, on one line.
pub fn markdown_inline(value: &str) -> (r: String)
    ensures
        r@ == markdown_inline_spec(value@),
{
    let mut out: Vec<char> = Vec::new();
    push_inline(&mut out, value);
    assert(out@ =~= markdown_inline_spec(value@));
    string_from_chars(&out)
}

// ---------------------------------------------------------------------------------------
// Lines.

/// A line without the `\r` of a `\r\n` ending.
pub open spec fn without_cr(line: Seq<char>) -> Seq<char> {
    if line.len() > 0 && line.last() == '\r' {
        line.drop_last()
    } else {
        line
    }
}

/// The lines of `s` from place `i` on, `line` being the text read since the last line break
/// (`str::lines`): split at each `\n`, the `\r` of a `\r\n` dropped, and no line after a
/// final `\n`.
pub open spec fn lines_from(s: Seq<char>, i: int, line: Seq<char>) -> Seq<Seq<char>>
    decreases s.len() - i,
{
    if i < 0 || i >= s.len() {
        if line.len() > 0 {
            seq![line]
        } else {
            seq![]
        }
    } else if s[i] == '\n' {
        seq![without_cr(line)] + lines_from(s, i + 1, seq![])
    } else {
        lines_from(s, i + 1, line.push(s[i]))
    }
}

/// The lines of `s`.
pub open spec fn lines_of(s: Seq<char>) -> Seq<Seq<char>> {
    lines_from(s, 0, seq![])
}

/// One quoted line.
pub open spec fn quoted_line(line: Seq<char>) -> Seq<char> {
    "  > "@ + markdown_inline_spec(line) + "\n"@
}

/// The quoted description: each line as `  > ` and the line, escaped.
pub open spec fn quoted_lines(lines: Seq<Seq<char>>) -> Seq<char>
    decreases lines.len(),
{
    if lines.len() == 0 {
        seq![]
    } else {
        quoted_line(lines[0]) + quoted_lines(lines.drop_first())
    }
}

proof fn lemma_quoted_first(line: Seq<char>, rest: Seq<Seq<char>>)
    ensures
        quoted_lines(seq![line] + rest) == quoted_line(line) + quoted_lines(rest),
{
    assert((seq![line] + rest).drop_first() =~= rest);
}

/// Writes the quoted lines of `v`.
fn push_quoted(out: &mut Vec<char>, v: &Vec<char>)
    ensures
        final(out)@ == old(out)@ + quoted_lines(lines_of(v@)),
{
    let ghost start = out@;
    let mut line: Vec<char> = Vec::new();
    let mut i: usize = 0;
    while i < v.len()
        invariant
            i <= v@.len(),
            start + quoted_lines(lines_of(v@)) == out@ + quoted_lines(lines_from(v@, i as int, line@)),
        decreases v.len() - i,
    {
        if v[i] == '\n' {
            let ghost old_line = line@;
            let mut end = line.len();
            if end > 0 && line[end - 1] == '\r' {
                end = end - 1;
            }
            let mut kept: Vec<char> = Vec::new();
            let mut k: usize = 0;
            while k < end
                invariant
                    k <= end <= line@.len(),
                    kept@ == line@.take(k as int),
                decreases end - k,
            {
                kept.push(line[k]);
                k += 1;
                assert(kept@ =~= line@.take(k as int));
            }
            assert(kept@ =~= without_cr(old_line));
            let ghost before = out@;
            push_text(out, "  > ");
            push_inline_chars(out, &kept);
            push_text(out, "\n");
            proof {
                lemma_quoted_first(kept@, lines_from(v@, i + 1, seq![]));
                assert(out@ =~= before + quoted_line(kept@));
            }
            line = Vec::new();
            assert(line@ =~= Seq::<char>::empty());
            assert(out@ + quoted_lines(lines_from(v@, i + 1, line@)) =~= before + quoted_lines(
                lines_from(v@, i as int, old_line),
            ));
        } else {
            line.push(v[i]);
        }
        i += 1;
    }
    if line.len() > 0 {
        let ghost before = out@;
        push_text(out, "  > ");
        push_inline_chars(out, &line);
        push_text(out, "\n");
        proof {
            lemma_quoted_first(line@, Seq::<Seq<char>>::empty());
            assert(seq![line@] + Seq::<Seq<char>>::empty() =~= seq![line@]);
        }
        assert(out@ =~= before + quoted_lines(lines_from(v@, i as int, line@)));
    } else {
        assert(quoted_lines(lines_from(v@, i as int, line@)) =~= Seq::<char>::empty());
    }
}

// ---------------------------------------------------------------------------------------
// A card.

/// The names of the tags of `ids` that the board has, escaped, in the card's order.
pub open spec fn tag_names(ids: Seq<TagId>, tags: Seq<TagView>) -> Seq<Seq<char>>
    decreases ids.len(),
{
    if ids.len() == 0 {
        seq![]
    } else {
        let rest = tag_names(ids.drop_last(), tags);
        match tag_index(tags, ids.last()) {
            Some(t) => rest.push(markdown_inline_spec(tags[t].name)),
            None => rest,
        }
    }
}

/// `names` with `, ` between them.
pub open spec fn comma_joined(names: Seq<Seq<char>>) -> Seq<char>
    decreases names.len(),
{
    if names.len() == 0 {
        seq![]
    } else if names.len() == 1 {
        names[0]
    } else {
        comma_joined(names.drop_last()) + ", "@ + names.last()
    }
}

/// The facts listed under a card: its column (for an archived card), due date, tags, and
/// that it is archived.
pub open spec fn card_facts(card: CardView, tags: Seq<TagView>, column_name: Option<Seq<char>>) -> Seq<
    Seq<char>,
> {
    let names = tag_names(card.tag_ids, tags);
    (match column_name {
        Some(name) => seq!["カラム: "@ + markdown_inline_spec(name)],
        None => seq![],
    }) + (match card.due_date {
        Some(d) => seq!["期限: "@ + chrono_iso_text(d.days_from_ce)],
        None => seq![],
    }) + (if names.len() > 0 {
        seq!["タグ: "@ + comma_joined(names)]
    } else {
        seq![]
    }) + (if card.archived_at is Some {
        seq!["アーカイブ済み"@]
    } else {
        seq![]
    })
}

/// Each fact as a list item.
pub open spec fn fact_lines(facts: Seq<Seq<char>>) -> Seq<char>
    decreases facts.len(),
{
    if facts.len() == 0 {
        seq![]
    } else {
        fact_lines(facts.drop_last()) + "  - "@ + facts.last() + "\n"@
    }
}

/// Each checklist item as a task: `[x]` when checked.
pub open spec fn checklist_lines(items: Seq<ChecklistItemView>) -> Seq<char>
    decreases items.len(),
{
    if items.len() == 0 {
        seq![]
    } else {
        checklist_lines(items.drop_last()) + "  - ["@ + seq![
            if items.last().checked {
                'x'
            } else {
                ' '
            },
        ] + "] "@ + markdown_inline_spec(items.last().text) + "\n"@
    }
}

/// A card in the Markdown: its title in bold, its facts, its description quoted unless it
/// is blank, its checklist, and a blank line.
pub open spec fn card_markdown(card: CardView, tags: Seq<TagView>, column_name: Option<Seq<char>>) -> Seq<
    char,
> {
    "- **"@ + markdown_inline_spec(card.title) + "**\n"@ + fact_lines(
        card_facts(card, tags, column_name),
    ) + (if is_blank_spec(card.description) {
        seq![]
    } else {
        quoted_lines(lines_of(card.description))
    }) + checklist_lines(card.checklist_items) + "\n"@
}

fn push_fact(out: &mut Vec<char>, facts: &mut Vec<Vec<char>>, fact: Vec<char>)
    ensures
        final(facts)@.len() == old(facts)@.len() + 1,
        forall|i: int| 0 <= i < old(facts)@.len() ==> final(facts)@[i]@ == old(facts)@[i]@,
        final(facts)@[old(facts)@.len() as int]@ == fact@,
        final(out)@ == old(out)@,
{
    facts.push(fact);
}

pub open spec fn facts_view(facts: Seq<Vec<char>>) -> Seq<Seq<char>> {
    Seq::new(facts.len(), |i: int| facts[i]@)
}

fn push_card(out: &mut Vec<char>, card: &Card, tags: &Vec<Tag>, column_name: Option<&str>)
    ensures
        final(out)@ == old(out)@ + card_markdown(card@, tags_view(tags@), match column_name {
            Some(n) => Some(n@),
            None => None,
        }),
{
    let ghost start = out@;
    let ghost cv = card@;
    let ghost tv = tags_view(tags@);
    let ghost cn = match column_name {
        Some(n) => Some(n@),
        None => None::<Seq<char>>,
    };
    push_text(out, "- **");
    push_inline(out, card.title.as_str());
    push_text(out, "**\n");
    let ghost after_title = out@;
    assert(after_title =~= start + ("- **"@ + markdown_inline_spec(cv.title) + "**\n"@));
    let mut facts: Vec<Vec<char>> = Vec::new();
    match column_name {
        Some(name) => {
            let mut fact = chars_of("カラム: ");
            push_inline(&mut fact, name);
            facts.push(fact);
        },
        None => {},
    }
    match card.due_date {
        Some(d) => {
            let mut fact = chars_of("期限: ");
            push_text(&mut fact, d.iso_text().as_str());
            facts.push(fact);
        },
        None => {},
    }
    let names = tag_names_of(&card.tag_ids, tags);
    if names.len() > 0 {
        let mut fact = chars_of("タグ: ");
        let mut i: usize = 0;
        while i < names.len()
            invariant
                i <= names@.len(),
                fact@ == "タグ: "@ + comma_joined(facts_view(names@).take(i as int)),
            decreases names.len() - i,
        {
            let ghost taken = facts_view(names@).take(i as int + 1);
            assert(taken.drop_last() =~= facts_view(names@).take(i as int));
            if i > 0 {
                push_text(&mut fact, ", ");
            } else {
                assert(facts_view(names@).take(i as int) =~= Seq::<Seq<char>>::empty());
                assert(taken.len() == 1);
            }
            push_chars(&mut fact, &names[i]);
            i += 1;
            assert(fact@ =~= "タグ: "@ + comma_joined(facts_view(names@).take(i as int)));
        }
        assert(facts_view(names@).take(i as int) =~= facts_view(names@));
        facts.push(fact);
    }
    if card.archived_at.is_some() {
        facts.push(chars_of("アーカイブ済み"));
    }
    assert(facts_view(facts@) =~= card_facts(cv, tv, cn));
    let mut i: usize = 0;
    while i < facts.len()
        invariant
            i <= facts@.len(),
            facts_view(facts@) == card_facts(cv, tv, cn),
            out@ == after_title + fact_lines(facts_view(facts@).take(i as int)),
        decreases facts.len() - i,
    {
        assert(facts_view(facts@).take(i + 1).drop_last() =~= facts_view(facts@).take(i as int));
        push_text(out, "  - ");
        push_chars(out, &facts[i]);
        push_text(out, "\n");
        i += 1;
        assert(out@ =~= after_title + fact_lines(facts_view(facts@).take(i as int)));
    }
    assert(facts_view(facts@).take(i as int) =~= facts_view(facts@));
    let ghost after_facts = out@;
    assert(after_facts == after_title + fact_lines(card_facts(cv, tv, cn)));
    if !is_blank(card.description.as_str()) {
        let v = chars_of(card.description.as_str());
        push_quoted(out, &v);
    }
    let ghost after_quote = out@;
    assert(after_quote =~= after_facts + (if is_blank_spec(cv.description) {
        Seq::<char>::empty()
    } else {
        quoted_lines(lines_of(cv.description))
    }));
    let mut k: usize = 0;
    while k < card.checklist_items.len()
        invariant
            k <= card.checklist_items@.len(),
            cv == card@,
            out@ == after_quote + checklist_lines(cv.checklist_items.take(k as int)),
        decreases card.checklist_items.len() - k,
    {
        assert(cv.checklist_items.take(k + 1).drop_last() =~= cv.checklist_items.take(k as int));
        assert(cv.checklist_items[k as int] == card.checklist_items@[k as int]@);
        push_text(out, "  - [");
        out.push(
            if card.checklist_items[k].checked {
                'x'
            } else {
                ' '
            },
        );
        push_text(out, "] ");
        push_inline(out, card.checklist_items[k].text.as_str());
        push_text(out, "\n");
        k += 1;
        assert(out@ =~= after_quote + checklist_lines(cv.checklist_items.take(k as int)));
    }
    assert(cv.checklist_items.take(k as int) =~= cv.checklist_items);
    let ghost before_end = out@;
    assert(before_end == after_quote + checklist_lines(cv.checklist_items));
    push_text(out, "\n");
    assert(out@ =~= start + card_markdown(cv, tv, cn));
}

/// The escaped names of the tags of `ids` that `tags` has, in order.
fn tag_names_of(ids: &Vec<TagId>, tags: &Vec<Tag>) -> (r: Vec<Vec<char>>)
    ensures
        facts_view(r@) == tag_names(ids@, tags_view(tags@)),
{
    let mut r: Vec<Vec<char>> = Vec::new();
    let mut i: usize = 0;
    while i < ids.len()
        invariant
            i <= ids@.len(),
            facts_view(r@) == tag_names(ids@.take(i as int), tags_view(tags@)),
        decreases ids.len() - i,
    {
        assert(ids@.take(i + 1).drop_last() =~= ids@.take(i as int));
        proof {
            lemma_tag_index(tags_view(tags@), ids@[i as int], 0);
        }
        match find_tag_index(tags, ids[i]) {
            Some(t) => {
                let mut name: Vec<char> = Vec::new();
                push_inline(&mut name, tags[t].name.as_str());
                let ghost before = r@;
                r.push(name);
                assert(facts_view(r@) =~= facts_view(before).push(name@));
            },
            None => {},
        }
        i += 1;
    }
    assert(ids@.take(i as int) =~= ids@);
    r
}

// ---------------------------------------------------------------------------------------
// A board.

/// A column in the Markdown: its name as a heading, then its cards, or a note that it has
/// none.
pub open spec fn column_markdown(column: ColumnView, tags: Seq<TagView>) -> Seq<char> {
    "## "@ + markdown_inline_spec(column.name) + "\n\n"@ + if column.cards.len() == 0 {
        "カードはありません。\n\n"@
    } else {
        flatten(Seq::new(column.cards.len(), |k: int| card_markdown(column.cards[k], tags, None)))
    }
}

/// The name of the column with id `column_id`, if the board has one.
pub open spec fn column_name_spec(columns: Seq<ColumnView>, column_id: i64) -> Option<Seq<char>> {
    match column_index(columns, column_id) {
        Some(c) => Some(columns[c].name),
        None => None,
    }
}

/// A board in Markdown: its name as the title, each column with its cards, and then the
/// archive, each archived card with the name of its column.
pub open spec fn board_markdown(b: BoardState) -> Seq<char> {
    "# "@ + markdown_inline_spec(b.name) + "\n\n"@ + flatten(
        Seq::new(b.columns.len(), |c: int| column_markdown(b.columns[c], b.tags)),
    ) + if b.archived_cards.len() == 0 {
        seq![]
    } else {
        "## アーカイブ\n\n"@ + flatten(
            Seq::new(
                b.archived_cards.len(),
                |i: int|
                    card_markdown(
                        b.archived_cards[i],
                        b.tags,
                        column_name_spec(b.columns, b.archived_cards[i].column_id),
                    ),
            ),
        )
    }
}

fn push_column(out: &mut Vec<char>, column: &Column, tags: &Vec<Tag>)
    ensures
        final(out)@ == old(out)@ + column_markdown(column@, tags_view(tags@)),
{
    let ghost start = out@;
    let ghost cv = column@;
    let ghost tv = tags_view(tags@);
    push_text(out, "## ");
    push_inline(out, column.name.as_str());
    push_text(out, "\n\n");
    if column.cards.len() == 0 {
        push_text(out, "カードはありません。\n\n");
        assert(out@ =~= start + column_markdown(cv, tv));
        return;
    }
    let ghost head = out@;
    let ghost parts = Seq::new(cv.cards.len(), |k: int| card_markdown(cv.cards[k], tv, None));
    let mut k: usize = 0;
    while k < column.cards.len()
        invariant
            k <= column.cards@.len(),
            cv == column@,
            tv == tags_view(tags@),
            parts == Seq::new(cv.cards.len(), |j: int| card_markdown(cv.cards[j], tv, None)),
            out@ == head + flatten(parts.take(k as int)),
        decreases column.cards.len() - k,
    {
        assert(parts.take(k + 1) =~= parts.take(k as int).push(parts[k as int]));
        proof {
            lemma_flatten_push(parts.take(k as int), parts[k as int]);
        }
        assert(cv.cards[k as int] == column.cards@[k as int]@);
        push_card(out, &column.cards[k], tags, None);
        k += 1;
    }
    assert(parts.take(k as int) =~= parts);
    assert(out@ =~= start + column_markdown(cv, tv));
}

/// The board in Markdown.
pub fn render_board_markdown(board: &Board) -> (r: String)
    ensures
        r@ == board_markdown(board@),
{
    let ghost b = board@;
    let mut out: Vec<char> = Vec::new();
    push_text(&mut out, "# ");
    push_inline(&mut out, board.name.as_str());
    push_text(&mut out, "\n\n");
    let ghost head = out@;
    let ghost parts = Seq::new(b.columns.len(), |c: int| column_markdown(b.columns[c], b.tags));
    let mut c: usize = 0;
    while c < board.columns.len()
        invariant
            c <= board.columns@.len(),
            b == board@,
            parts == Seq::new(b.columns.len(), |j: int| column_markdown(b.columns[j], b.tags)),
            out@ == head + flatten(parts.take(c as int)),
        decreases board.columns.len() - c,
    {
        assert(parts.take(c + 1) =~= parts.take(c as int).push(parts[c as int]));
        proof {
            lemma_flatten_push(parts.take(c as int), parts[c as int]);
        }
        assert(b.columns[c as int] == board.columns@[c as int]@);
        push_column(&mut out, &board.columns[c], &board.tags);
        c += 1;
    }
    assert(parts.take(c as int) =~= parts);
    let ghost middle = out@;
    if board.archived_cards.len() > 0 {
        push_text(&mut out, "## アーカイブ\n\n");
        let ghost top = out@;
        let ghost archived = Seq::new(
            b.archived_cards.len(),
            |i: int|
                card_markdown(
                    b.archived_cards[i],
                    b.tags,
                    column_name_spec(b.columns, b.archived_cards[i].column_id),
                ),
        );
        let mut i: usize = 0;
        while i < board.archived_cards.len()
            invariant
                i <= board.archived_cards@.len(),
                b == board@,
                archived == Seq::new(
                    b.archived_cards.len(),
                    |j: int|
                        card_markdown(
                            b.archived_cards[j],
                            b.tags,
                            column_name_spec(b.columns, b.archived_cards[j].column_id),
                        ),
                ),
                out@ == top + flatten(archived.take(i as int)),
            decreases board.archived_cards.len() - i,
        {
            assert(archived.take(i + 1) =~= archived.take(i as int).push(archived[i as int]));
            proof {
                lemma_flatten_push(archived.take(i as int), archived[i as int]);
                lemma_column_index(b.columns, b.archived_cards[i as int].column_id);
            }
            assert(b.archived_cards[i as int] == board.archived_cards@[i as int]@);
            let card = &board.archived_cards[i];
            let name = match find_column_index(&board.columns, card.column_id) {
                Some(c) => {
                    assert(b.columns[c as int] == board.columns@[c as int]@);
                    Some(board.columns[c].name.as_str())
                },
                None => None,
            };
            push_card(&mut out, card, &board.tags, name);
            i += 1;
        }
        assert(archived.take(i as int) =~= archived);
    }
    assert(out@ =~= board_markdown(b));
    string_from_chars(&out)
}

// ---------------------------------------------------------------------------------------
// The export's file name.

/// A control character (`char::is_control`): the C0 and C1 controls and DEL.
pub open spec fn is_control(c: char) -> bool {
    (c as u32) <= 0x1f || (0x7f <= (c as u32) && (c as u32) <= 0x9f)
}

/// A character that cannot stand in a file name: a control character or a slash.
pub open spec fn unsafe_in_name(c: char) -> bool {
    is_control(c) || c == '/' || c == '\\'
}

/// `s` without the dots at either end.
pub open spec fn trim_dots(s: Seq<char>) -> Seq<char>
    decreases s.len(),
{
    if s.len() > 0 && s[0] == '.' {
        trim_dots(s.drop_first())
    } else if s.len() > 0 && s.last() == '.' {
        trim_dots(s.drop_last())
    } else {
        s
    }
}

/// The file name offered for exporting a board: its name with unsafe characters as `_`,
/// without surrounding whitespace and dots, or `board` when nothing is left; then a dot and
/// the extension.
pub open spec fn export_name_spec(board_name: Seq<char>, extension: Seq<char>) -> Seq<char> {
    let mapped = board_name.map_values(|c: char| if unsafe_in_name(c) { '_' } else { c });
    let stem = trim_dots(trim_spec(mapped));
    (if stem.len() == 0 {
        "board"@
    } else {
        stem
    }) + "."@ + extension
}

pub fn suggested_export_name(board_name: &str, extension: &str) -> (r: String)
    ensures
        r@ == export_name_spec(board_name@, extension@),
{
    let v = chars_of(board_name);
    let mut mapped: Vec<char> = Vec::new();
    let mut i: usize = 0;
    while i < v.len()
        invariant
            i <= v@.len(),
            v@ == board_name@,
            mapped@ == board_name@.take(i as int).map_values(
                |c: char|
                    if unsafe_in_name(c) {
                        '_'
                    } else {
                        c
                    },
            ),
        decreases v.len() - i,
    {
        let c = v[i];
        let code = c as u32;
        let unsafe_char = code <= 0x1f || (0x7f <= code && code <= 0x9f) || c == '/' || c == '\\';
        mapped.push(
            if unsafe_char {
                '_'
            } else {
                c
            },
        );
        i += 1;
        assert(mapped@ =~= board_name@.take(i as int).map_values(
            |c: char|
                if unsafe_in_name(c) {
                    '_'
                } else {
                    c
                },
        ));
    }
    assert(board_name@.take(i as int) =~= board_name@);
    let (lo, hi) = crate::text::trim_bounds(&mapped);
    let mut start = lo;
    let mut end = hi;
    proof {
        assert(mapped@.subrange(start as int, end as int) == trim_spec(mapped@));
    }
    while start < end && (mapped[start] == '.' || mapped[end - 1] == '.')
        invariant
            start <= end <= mapped@.len(),
            trim_dots(mapped@.subrange(start as int, end as int)) == trim_dots(trim_spec(mapped@)),
        decreases end - start,
    {
        let ghost s = mapped@.subrange(start as int, end as int);
        if mapped[start] == '.' {
            assert(s.drop_first() =~= mapped@.subrange(start + 1, end as int));
            start += 1;
        } else {
            assert(s.drop_last() =~= mapped@.subrange(start as int, end - 1));
            end -= 1;
        }
    }
    let mut stem: Vec<char> = Vec::new();
    let mut k: usize = start;
    while k < end
        invariant
            start <= k <= end <= mapped@.len(),
            stem@ == mapped@.subrange(start as int, k as int),
        decreases end - k,
    {
        stem.push(mapped[k]);
        k += 1;
        assert(stem@ =~= mapped@.subrange(start as int, k as int));
    }
    assert(trim_dots(stem@) == stem@);
    let mut out = if stem.len() == 0 {
        chars_of("board")
    } else {
        stem
    };
    push_text(&mut out, ".");
    push_text(&mut out, extension);
    string_from_chars(&out)
}

// ---------------------------------------------------------------------------------------
// Tag colours and short dates.

/// The value of a hexadecimal digit.
pub open spec fn hex_value(c: char) -> Option<u32> {
    if '0' <= c && c <= '9' {
        Some((c as u32 - '0' as u32) as u32)
    } else if 'a' <= c && c <= 'f' {
        Some((c as u32 - 'a' as u32 + 10) as u32)
    } else if 'A' <= c && c <= 'F' {
        Some((c as u32 - 'A' as u32 + 10) as u32)
    } else {
        None
    }
}

/// The number that the hexadecimal digits of `s` write (`u32::from_str_radix(s, 16)`, for a
/// text whose digits fit): a leading `+` is allowed, anything else not a digit is refused.
pub open spec fn hex_number(s: Seq<char>) -> Option<int> {
    let digits = if s.len() > 0 && s[0] == '+' {
        s.drop_first()
    } else {
        s
    };
    if digits.len() == 0 {
        None
    } else {
        hex_digits(digits)
    }
}

pub open spec fn hex_digits(s: Seq<char>) -> Option<int>
    decreases s.len(),
{
    if s.len() == 0 {
        Some(0)
    } else {
        match (hex_digits(s.drop_last()), hex_value(s.last())) {
            (Some(v), Some(d)) => Some(v * 16 + d),
            _ => None,
        }
    }
}

/// The colour a tag is drawn in: its six hexadecimal digits, with or without leading `#`
/// and surrounding whitespace, else slate grey.
pub open spec fn tag_color_spec(color: Seq<char>) -> u32 {
    let value = strip_hashes(trim_spec(color));
    if utf8_len(value) == 6 {
        match hex_number(value) {
            Some(v) => v as u32,
            None => 0x64748b,
        }
    } else {
        0x64748b
    }
}

/// `s` without the `#` characters at its start.
pub open spec fn strip_hashes(s: Seq<char>) -> Seq<char>
    decreases s.len(),
{
    if s.len() > 0 && s[0] == '#' {
        strip_hashes(s.drop_first())
    } else {
        s
    }
}

/// The number of bytes of `s` in UTF-8.
pub open spec fn utf8_len(s: Seq<char>) -> int
    decreases s.len(),
{
    if s.len() == 0 {
        0
    } else {
        utf8_len(s.drop_last()) + char_utf8_len(s.last())
    }
}

pub open spec fn char_utf8_len(c: char) -> int {
    if (c as u32) < 0x80 {
        1
    } else if (c as u32) < 0x800 {
        2
    } else if (c as u32) < 0x10000 {
        3
    } else {
        4
    }
}

/// Sixteen to the power `n`.
pub open spec fn pow16(n: nat) -> int
    decreases n,
{
    if n == 0 {
        1
    } else {
        16 * pow16((n - 1) as nat)
    }
}

proof fn lemma_pow16_grows(n: nat)
    ensures
        pow16(n) >= 1,
    decreases n,
{
    if n > 0 {
        lemma_pow16_grows((n - 1) as nat);
    }
}

fn hex_digit_value(c: char) -> (r: Option<u32>)
    ensures
        r == hex_value(c),
{
    if '0' <= c && c <= '9' {
        Some(c as u32 - '0' as u32)
    } else if 'a' <= c && c <= 'f' {
        Some(c as u32 - 'a' as u32 + 10)
    } else if 'A' <= c && c <= 'F' {
        Some(c as u32 - 'A' as u32 + 10)
    } else {
        None
    }
}

fn char_bytes(c: char) -> (r: usize)
    ensures
        r == char_utf8_len(c),
{
    let code = c as u32;
    if code < 0x80 {
        1
    } else if code < 0x800 {
        2
    } else if code < 0x10000 {
        3
    } else {
        4
    }
}

pub fn tag_color_value(color: &str) -> (r: u32)
    ensures
        r == tag_color_spec(color@),
{
    let v = chars_of(color);
    let (lo, hi) = crate::text::trim_bounds(&v);
    let mut start = lo;
    proof {
        assert(v@.subrange(lo as int, hi as int) == trim_spec(color@));
    }
    while start < hi && v[start] == '#'
        invariant
            lo <= start <= hi <= v@.len(),
            v@ == color@,
            strip_hashes(v@.subrange(start as int, hi as int)) == strip_hashes(trim_spec(color@)),
        decreases hi - start,
    {
        assert(v@.subrange(start as int, hi as int).drop_first() =~= v@.subrange(start + 1, hi as int));
        start += 1;
    }
    let ghost value = v@.subrange(start as int, hi as int);
    assert(strip_hashes(value) == value);
    assert(value == strip_hashes(trim_spec(color@)));
    let mut bytes: usize = 0;
    let mut k: usize = start;
    while k < hi
        invariant
            start <= k <= hi <= v@.len(),
            value == v@.subrange(start as int, hi as int),
            value == strip_hashes(trim_spec(color@)),
            bytes == utf8_len(v@.subrange(start as int, k as int)),
            bytes <= 10,
        decreases hi - k,
    {
        assert(v@.subrange(start as int, k + 1).drop_last() =~= v@.subrange(start as int, k as int));
        if bytes > 6 {
            proof {
                lemma_utf8_len_grows(value, (k - start) as int);
                assert(value.take((k - start) as int) =~= v@.subrange(start as int, k as int));
            }
            return 0x64748b;
        }
        bytes = bytes + char_bytes(v[k]);
        k += 1;
    }
    assert(v@.subrange(start as int, k as int) =~= value);
    if bytes != 6 {
        return 0x64748b;
    }
    let mut digits_start = start;
    if start < hi && v[start] == '+' {
        digits_start = start + 1;
    }
    let ghost digits = v@.subrange(digits_start as int, hi as int);
    assert(digits =~= (if value.len() > 0 && value[0] == '+' {
        value.drop_first()
    } else {
        value
    }));
    if digits_start >= hi {
        return 0x64748b;
    }
    assert(digits.len() <= 6) by {
        lemma_utf8_len_at_least_len(value);
    }
    let mut total: u32 = 0;
    let mut i: usize = digits_start;
    while i < hi
        invariant
            digits_start <= i <= hi <= v@.len(),
            hi - digits_start <= 6,
            value == strip_hashes(trim_spec(color@)),
            utf8_len(value) == 6,
            digits == v@.subrange(digits_start as int, hi as int),
            digits == (if value.len() > 0 && value[0] == '+' {
                value.drop_first()
            } else {
                value
            }),
            digits.len() > 0,
            hex_digits(v@.subrange(digits_start as int, i as int)) == Some(total as int),
            total < pow16((i - digits_start) as nat),
        decreases hi - i,
    {
        let ghost prefix = v@.subrange(digits_start as int, i + 1);
        assert(prefix.drop_last() =~= v@.subrange(digits_start as int, i as int));
        match hex_digit_value(v[i]) {
            Some(d) => {
                proof {
                    lemma_pow_le_six((i - digits_start) as int);
                    assert(pow16((i + 1 - digits_start) as nat) == 16 * pow16((i - digits_start) as nat));
                    assert(total * 16 + d < pow16((i + 1 - digits_start) as nat)) by (nonlinear_arith)
                        requires
                            total < pow16((i - digits_start) as nat),
                            d < 16,
                            pow16((i + 1 - digits_start) as nat) == 16 * pow16((i - digits_start) as nat),
                    ;
                    lemma_pow_le_six((i + 1 - digits_start) as int);
                }
                total = total * 16 + d;
            },
            None => {
                proof {
                    assert(digits[(i - digits_start) as int] == v@[i as int]);
                    lemma_hex_none_persists(digits, (i - digits_start) as int);
                }
                return 0x64748b;
            },
        }
        i += 1;
    }
    assert(v@.subrange(digits_start as int, i as int) =~= digits);
    total
}

proof fn lemma_pow_le_six(n: int)
    requires
        0 <= n <= 6,
    ensures
        pow16(n as nat) <= 0x1000000,
    decreases 6 - n,
{
    reveal_with_fuel(pow16, 7);
    if n < 6 {
        lemma_pow_le_six(n + 1);
        lemma_pow16_grows(n as nat);
    }
}

proof fn lemma_hex_none_persists(s: Seq<char>, n: int)
    requires
        0 <= n < s.len(),
        hex_value(s[n]) is None,
    ensures
        hex_digits(s) is None,
    decreases s.len(),
{
    if n < s.len() - 1 {
        assert(s.drop_last()[n] == s[n]);
        lemma_hex_none_persists(s.drop_last(), n);
    }
}

proof fn lemma_utf8_len_grows(s: Seq<char>, n: int)
    requires
        0 <= n <= s.len(),
    ensures
        utf8_len(s.take(n)) <= utf8_len(s),
    decreases s.len() - n,
{
    if n < s.len() {
        lemma_utf8_len_grows(s, n + 1);
        assert(s.take(n + 1).drop_last() =~= s.take(n));
    } else {
        assert(s.take(n) =~= s);
    }
}

proof fn lemma_utf8_len_at_least_len(s: Seq<char>)
    ensures
        utf8_len(s) >= s.len(),
    decreases s.len(),
{
    if s.len() > 0 {
        lemma_utf8_len_at_least_len(s.drop_last());
    }
}

/// A due date as the board shows it: month/day within today's year, else
/// year/month/day with two-digit month and day. `None` when chrono's calendar cannot hold
/// one of the dates.
pub open spec fn display_date_spec(date: DueDate, today: DueDate) -> Option<Seq<char>> {
    match (chrono_ymd_of_days(date.days_from_ce), chrono_ymd_of_days(today.days_from_ce)) {
        (Some((y, m, d)), Some((ty, _, _))) => Some(
            if y == ty {
                decimal(m as int) + "/"@ + decimal(d as int)
            } else {
                decimal(y as int) + "/"@ + two_digits(m as int) + "/"@ + two_digits(d as int)
            },
        ),
        _ => None,
    }
}

/// A number below 100 with at least two digits.
pub open spec fn two_digits(n: int) -> Seq<char> {
    if 0 <= n < 10 {
        "0"@ + decimal(n)
    } else {
        decimal(n)
    }
}

fn two_digit_text(n: u32) -> (r: String)
    ensures
        r@ == two_digits(n as int),
{
    if n < 10 {
        crate::text::join_text("0", decimal_text(n as i64).as_str())
    } else {
        decimal_text(n as i64)
    }
}

pub fn display_date(date: DueDate, today: DueDate) -> (r: Option<String>)
    ensures
        match r {
            Some(text) => display_date_spec(date, today) == Some(text@),
            None => display_date_spec(date, today) is None,
        },
{
    let (y, m, d) = match date.ymd() {
        Some(parts) => parts,
        None => return None,
    };
    let (ty, _, _) = match today.ymd() {
        Some(parts) => parts,
        None => return None,
    };
    if y == ty {
        let head = crate::text::join_text(decimal_text(m as i64).as_str(), "/");
        Some(crate::text::join_text(head.as_str(), decimal_text(d as i64).as_str()))
    } else {
        let year = crate::text::join_text(decimal_text(y as i64).as_str(), "/");
        let month = crate::text::join_text(year.as_str(), two_digit_text(m).as_str());
        let slash = crate::text::join_text(month.as_str(), "/");
        Some(crate::text::join_text(slash.as_str(), two_digit_text(d).as_str()))
    }
}

/// How many items of a checklist are checked.
pub open spec fn checked_count(items: Seq<ChecklistItemView>) -> int
    decreases items.len(),
{
    if items.len() == 0 {
        0
    } else {
        checked_count(items.drop_last()) + if items.last().checked {
            1int
        } else {
            0int
        }
    }
}

/// One mark per item, filled for a checked item.
pub open spec fn progress_marks(items: Seq<ChecklistItemView>) -> Seq<char> {
    Seq::new(items.len(), |i: int| if items[i].checked { '■' } else { '□' })
}

/// The progress shown on a card: the marks, then "checked/total".
pub open spec fn checklist_progress_spec(items: Seq<ChecklistItemView>) -> Seq<char> {
    progress_marks(items) + seq![' '] + decimal(checked_count(items)) + seq!['/'] + decimal(
        items.len() as int,
    )
}

/// The progress of a checklist as a card shows it, such as `■□ 1/2`.
pub fn checklist_progress(items: &Vec<ChecklistItem>) -> (r: String)
    requires
        items@.len() <= i64::MAX,
    ensures
        r@ == checklist_progress_spec(items_view(items@)),
{
    let ghost view = items_view(items@);
    let mut marks: Vec<char> = Vec::new();
    let mut checked: i64 = 0;
    let mut i: usize = 0;
    while i < items.len()
        invariant
            view == items_view(items@),
            items@.len() <= i64::MAX,
            i <= items@.len(),
            marks@ == progress_marks(view).take(i as int),
            checked == checked_count(view.take(i as int)),
            0 <= checked <= i,
        decreases items.len() - i,
    {
        assert(view[i as int] == items@[i as int]@);
        assert(view.take(i + 1).drop_last() =~= view.take(i as int));
        if items[i].checked {
            marks.push('■');
            checked = checked + 1;
        } else {
            marks.push('□');
        }
        i += 1;
        assert(marks@ =~= progress_marks(view).take(i as int));
    }
    assert(view.take(i as int) =~= view);
    assert(progress_marks(view).take(i as int) =~= progress_marks(view));
    marks.push(' ');
    let mut out = string_from_chars(&marks);
    out.append(decimal_text(checked).as_str());
    out.append("/");
    out.append(decimal_text(items.len() as i64).as_str());
    proof {
        reveal_strlit("/");
    }
    out
}

} // verus!

verus! {

/// `p` stands somewhere in `s`, with text before and after it.
pub open spec fn stands_in(p: Seq<char>, s: Seq<char>) -> bool {
    exists|before: Seq<char>, after: Seq<char>| s == before + p + after
}

proof fn lemma_stands_between(before: Seq<char>, p: Seq<char>, after: Seq<char>)
    ensures
        stands_in(p, before + p + after),
{
    assert(before + p + after == before + p + after);
}

proof fn lemma_stands_within(p: Seq<char>, m: Seq<char>, s: Seq<char>)
    requires
        stands_in(p, m),
        stands_in(m, s),
    ensures
        stands_in(p, s),
{
    let (a1, z1) = choose|a: Seq<char>, z: Seq<char>| m == a + p + z;
    let (a2, z2) = choose|a: Seq<char>, z: Seq<char>| s == a + m + z;
    assert(s =~= (a2 + a1) + p + (z1 + z2));
}

/// Each part stands in the parts put together.
proof fn lemma_part_stands(parts: Seq<Seq<char>>, i: int)
    requires
        0 <= i < parts.len(),
    ensures
        stands_in(parts[i], flatten(parts)),
    decreases parts.len(),
{
    let init = parts.drop_last();
    if i == parts.len() - 1 {
        lemma_stands_between(flatten(init), parts[i], seq![]);
        assert(flatten(init) + parts[i] + Seq::<char>::empty() =~= flatten(parts));
    } else {
        lemma_part_stands(init, i);
        assert(init[i] == parts[i]);
        lemma_stands_between(seq![], flatten(init), parts.last());
        assert(Seq::<char>::empty() + flatten(init) + parts.last() =~= flatten(parts));
        lemma_stands_within(parts[i], flatten(init), flatten(parts));
    }
}

/// Each checklist item's task line stands in the checklist's lines: `[x]` before the text
/// of a checked item, `[ ]` before that of one that is not.
proof fn lemma_task_line_stands(items: Seq<ChecklistItemView>, k: int)
    requires
        0 <= k < items.len(),
    ensures
        items[k].checked ==> stands_in(
            "  - [x] "@ + markdown_inline_spec(items[k].text) + "\n"@,
            checklist_lines(items),
        ),
        !items[k].checked ==> stands_in(
            "  - [ ] "@ + markdown_inline_spec(items[k].text) + "\n"@,
            checklist_lines(items),
        ),
    decreases items.len(),
{
    reveal_strlit("  - [x] ");
    reveal_strlit("  - [ ] ");
    reveal_strlit("  - [");
    reveal_strlit("] ");
    let init = items.drop_last();
    let last = items.last();
    let mark = if last.checked { 'x' } else { ' ' };
    let line = "  - ["@ + seq![mark] + "] "@ + markdown_inline_spec(last.text) + "\n"@;
    assert(checklist_lines(items) == checklist_lines(init) + line);
    if k == items.len() - 1 {
        if last.checked {
            assert(line =~= "  - [x] "@ + markdown_inline_spec(last.text) + "\n"@);
        } else {
            assert(line =~= "  - [ ] "@ + markdown_inline_spec(last.text) + "\n"@);
        }
        lemma_stands_between(checklist_lines(init), line, seq![]);
        assert(checklist_lines(init) + line + Seq::<char>::empty() =~= checklist_lines(items));
    } else {
        lemma_task_line_stands(init, k);
        assert(init[k] == items[k]);
        lemma_stands_between(seq![], checklist_lines(init), line);
        assert(Seq::<char>::empty() + checklist_lines(init) + line =~= checklist_lines(items));
        let task = if items[k].checked {
            "  - [x] "@ + markdown_inline_spec(items[k].text) + "\n"@
        } else {
            "  - [ ] "@ + markdown_inline_spec(items[k].text) + "\n"@
        };
        lemma_stands_within(task, checklist_lines(init), checklist_lines(items));
    }
}

/// In the board's Markdown, every checklist item of every card in a column is a task
/// whose box is ticked exactly as the item is: `- [x]` before the text of a checked item,
/// `- [ ]` before that of one that is not.
pub proof fn law_task_boxes_follow_the_checks(b: BoardState, c: int, k: int, i: int)
    requires
        0 <= c < b.columns.len(),
        0 <= k < b.columns[c].cards.len(),
        0 <= i < b.columns[c].cards[k].checklist_items.len(),
    ensures
        ({
            let item = b.columns[c].cards[k].checklist_items[i];
            &&& item.checked ==> stands_in(
                "  - [x] "@ + markdown_inline_spec(item.text) + "\n"@,
                board_markdown(b),
            )
            &&& !item.checked ==> stands_in(
                "  - [ ] "@ + markdown_inline_spec(item.text) + "\n"@,
                board_markdown(b),
            )
        }),
{
    let card = b.columns[c].cards[k];
    let item = card.checklist_items[i];
    let task = if item.checked {
        "  - [x] "@ + markdown_inline_spec(item.text) + "\n"@
    } else {
        "  - [ ] "@ + markdown_inline_spec(item.text) + "\n"@
    };
    lemma_task_line_stands(card.checklist_items, i);
    // The checklist stands in the card.
    let head = "- **"@ + markdown_inline_spec(card.title) + "**\n"@ + fact_lines(card_facts(card, b.tags, None))
        + (if is_blank_spec(card.description) {
        seq![]
    } else {
        quoted_lines(lines_of(card.description))
    });
    lemma_stands_between(head, checklist_lines(card.checklist_items), "\n"@);
    assert(card_markdown(card, b.tags, None) == head + checklist_lines(card.checklist_items) + "\n"@);
    lemma_stands_within(task, checklist_lines(card.checklist_items), card_markdown(card, b.tags, None));
    // The card stands in its column.
    let cards = Seq::new(b.columns[c].cards.len(), |j: int| card_markdown(b.columns[c].cards[j], b.tags, None));
    lemma_part_stands(cards, k);
    lemma_stands_within(task, card_markdown(card, b.tags, None), flatten(cards));
    let col_head = "## "@ + markdown_inline_spec(b.columns[c].name) + "\n\n"@;
    lemma_stands_between(col_head, flatten(cards), seq![]);
    assert(column_markdown(b.columns[c], b.tags) =~= col_head + flatten(cards) + Seq::<char>::empty());
    lemma_stands_within(task, flatten(cards), column_markdown(b.columns[c], b.tags));
    // The column stands in the board.
    let columns = Seq::new(b.columns.len(), |j: int| column_markdown(b.columns[j], b.tags));
    lemma_part_stands(columns, c);
    lemma_stands_within(task, column_markdown(b.columns[c], b.tags), flatten(columns));
    let board_head = "# "@ + markdown_inline_spec(b.name) + "\n\n"@;
    let rest = board_markdown(b).subrange((board_head + flatten(columns)).len() as int, board_markdown(b).len() as int);
    assert(board_markdown(b) =~= board_head + flatten(columns) + rest);
    lemma_stands_between(board_head, flatten(columns), rest);
    lemma_stands_within(task, flatten(columns), board_markdown(b));
}

/// The same holds of the archive: every checklist item of an archived card is a task whose
/// box is ticked exactly as the item is.
pub proof fn law_archived_task_boxes_follow_the_checks(b: BoardState, a: int, i: int)
    requires
        0 <= a < b.archived_cards.len(),
        0 <= i < b.archived_cards[a].checklist_items.len(),
    ensures
        ({
            let item = b.archived_cards[a].checklist_items[i];
            &&& item.checked ==> stands_in(
                "  - [x] "@ + markdown_inline_spec(item.text) + "\n"@,
                board_markdown(b),
            )
            &&& !item.checked ==> stands_in(
                "  - [ ] "@ + markdown_inline_spec(item.text) + "\n"@,
                board_markdown(b),
            )
        }),
{
    let card = b.archived_cards[a];
    let name = column_name_spec(b.columns, card.column_id);
    let item = card.checklist_items[i];
    let task = if item.checked {
        "  - [x] "@ + markdown_inline_spec(item.text) + "\n"@
    } else {
        "  - [ ] "@ + markdown_inline_spec(item.text) + "\n"@
    };
    lemma_task_line_stands(card.checklist_items, i);
    let head = "- **"@ + markdown_inline_spec(card.title) + "**\n"@ + fact_lines(card_facts(card, b.tags, name))
        + (if is_blank_spec(card.description) {
        seq![]
    } else {
        quoted_lines(lines_of(card.description))
    });
    lemma_stands_between(head, checklist_lines(card.checklist_items), "\n"@);
    assert(card_markdown(card, b.tags, name) == head + checklist_lines(card.checklist_items) + "\n"@);
    lemma_stands_within(task, checklist_lines(card.checklist_items), card_markdown(card, b.tags, name));
    let cards = Seq::new(
        b.archived_cards.len(),
        |j: int| card_markdown(b.archived_cards[j], b.tags, column_name_spec(b.columns, b.archived_cards[j].column_id)),
    );
    lemma_part_stands(cards, a);
    lemma_stands_within(task, card_markdown(card, b.tags, name), flatten(cards));
    let columns = Seq::new(b.columns.len(), |j: int| column_markdown(b.columns[j], b.tags));
    let before = "# "@ + markdown_inline_spec(b.name) + "\n\n"@ + flatten(columns) + "## アーカイブ\n\n"@;
    assert(board_markdown(b) =~= before + flatten(cards) + Seq::<char>::empty());
    lemma_stands_between(before, flatten(cards), seq![]);
    lemma_stands_within(task, flatten(cards), board_markdown(b));
}

} // verus!
