//! What the commands show: every value that they speak of, in its order.

use crate::cards;
use crate::cli;
use crate::config::{ColumnView, ConfigView};
use crate::document::CommentView;
use crate::markdown::{ItemView, SectionView};
use crate::model::CardView;
use crate::store;
use crate::store::IssueView;
use crate::text;
use crate::text::CharClass;
use vstd::prelude::*;

verus! {

/// Whether parts stand in a text at the given places, each behind the one before it.
pub open spec fn is_laid(s: Seq<char>, parts: Seq<Seq<char>>, at: Seq<int>) -> bool {
    &&& at.len() == parts.len()
    &&& forall|i: int| 0 <= i < at.len() ==> text::occurs_at(s, #[trigger] parts[i], at[i])
    &&& forall|i: int, j: int|
        0 <= i < j < at.len() ==> #[trigger] at[i] + parts[i].len() <= #[trigger] at[j]
}

/// Whether a text shows parts, in their order.
pub open spec fn shows(s: Seq<char>, parts: Seq<Seq<char>>) -> bool {
    exists|at: Seq<int>| is_laid(s, parts, at)
}

proof fn lemma_inside(a: Seq<char>, part: Seq<char>, b: Seq<char>)
    ensures
        text::occurs_at(a + part + b, part, a.len() as int),
        text::occurs(a + part + b, part),
{
    assert((a + part + b).subrange(a.len() as int, (a.len() + part.len()) as int) =~= part);
    assert(text::occurs_at(a + part + b, part, a.len() as int));
}

proof fn lemma_around(a: Seq<char>, s: Seq<char>, b: Seq<char>, parts: Seq<Seq<char>>)
    requires
        shows(s, parts),
    ensures
        shows(a + s + b, parts),
{
    let at = choose|at: Seq<int>| is_laid(s, parts, at);
    let moved = Seq::new(at.len(), |i: int| at[i] + a.len());
    let t = a + s + b;
    assert forall|i: int| 0 <= i < moved.len() implies text::occurs_at(
        t,
        #[trigger] parts[i],
        moved[i],
    ) by {
        assert(text::occurs_at(s, parts[i], at[i]));
        assert(t.subrange(moved[i], moved[i] + parts[i].len()) =~= s.subrange(
            at[i],
            at[i] + parts[i].len(),
        ));
    }
    assert(is_laid(t, parts, moved));
}

proof fn lemma_more(s: Seq<char>, parts: Seq<Seq<char>>, more: Seq<char>, part: Seq<char>)
    requires
        shows(s, parts),
        text::occurs(more, part),
    ensures
        shows(s + more, parts.push(part)),
{
    lemma_around(Seq::empty(), s, more, parts);
    let t = s + more;
    let at = choose|at: Seq<int>| is_laid(s, parts, at);
    let i = choose|i: int| text::occurs_at(more, part, i);
    let last = s.len() + i;
    let all = at.push(last);
    let more_parts = parts.push(part);
    assert(t.subrange(last, last + part.len()) =~= more.subrange(i, i + part.len()));
    assert forall|j: int| 0 <= j < all.len() implies text::occurs_at(
        t,
        #[trigger] more_parts[j],
        all[j],
    ) by {
        if j < at.len() {
            assert(text::occurs_at(s, parts[j], at[j]));
            assert(t.subrange(at[j], at[j] + parts[j].len()) =~= s.subrange(
                at[j],
                at[j] + parts[j].len(),
            ));
        }
    }
    assert forall|j: int, k: int| 0 <= j < k < all.len() implies #[trigger] all[j]
        + more_parts[j].len() <= #[trigger] all[k] by {
        assert(text::occurs_at(s, parts[j], at[j]));
        if k < at.len() {
            assert(at[j] + parts[j].len() <= at[k]);
        }
    }
    assert(is_laid(t, more_parts, all));
}

proof fn lemma_rows(
    rows: spec_fn(nat) -> Seq<char>,
    row: spec_fn(int) -> Seq<char>,
    parts: Seq<Seq<char>>,
    n: nat,
)
    requires
        n <= parts.len(),
        rows(0) == Seq::<char>::empty(),
        forall|k: nat| k < parts.len() ==> #[trigger] rows(k + 1) == rows(k) + row(k as int),
        forall|k: int| 0 <= k < parts.len() ==> text::occurs(#[trigger] row(k), parts[k]),
    ensures
        shows(rows(n), parts.take(n as int)),
    decreases n,
{
    if n == 0 {
        assert(is_laid(rows(0), parts.take(0), Seq::empty()));
    } else {
        let k = (n - 1) as nat;
        lemma_rows(rows, row, parts, k);
        assert(rows(k + 1) == rows(k) + row(k as int));
        lemma_more(rows(k), parts.take(k as int), row(k as int), parts[k as int]);
        assert(parts.take(n as int) =~= parts.take(k as int).push(parts[k as int]));
    }
}

/// The ids of cards.
pub open spec fn ids(cards: Seq<CardView>) -> Seq<Seq<char>> {
    cards.map_values(|card: CardView| card.metadata.id)
}

/// The statuses of cards.
pub open spec fn statuses(cards: Seq<CardView>) -> Seq<Seq<char>> {
    cards.map_values(|card: CardView| card.metadata.status)
}

/// The titles of cards.
pub open spec fn titles(cards: Seq<CardView>) -> Seq<Seq<char>> {
    cards.map_values(|card: CardView| card.metadata.title)
}

proof fn lemma_table_row(card: CardView, a: nat, b: nat)
    ensures
        text::occurs(cli::table_row(card, a, b), card.metadata.id),
        text::occurs(cli::table_row(card, a, b), card.metadata.status),
        text::occurs(cli::table_row(card, a, b), card.metadata.title),
{
    let row = cli::table_row(card, a, b);
    let id = card.metadata.id;
    let status = card.metadata.status;
    let title = card.metadata.title;
    let first = text::spaces(a - id.len()) + "  "@;
    let second = text::spaces(b - status.len()) + "  "@;
    let end = cli::progress_text(card.body) + "\n"@;
    assert(row =~= Seq::<char>::empty() + id + (first + status + second + title + end));
    lemma_inside(Seq::empty(), id, first + status + second + title + end);
    assert(row =~= (id + first) + status + (second + title + end));
    lemma_inside(id + first, status, second + title + end);
    assert(row =~= (id + first + status + second) + title + end);
    lemma_inside(id + first + status + second, title, end);
}

/// A table of cards shows the id, the status and the title of every card, in their order.
pub proof fn tables_show_every_card(cards: Seq<CardView>)
    ensures
        shows(cli::card_table(cards), ids(cards)),
        shows(cli::card_table(cards), statuses(cards)),
        shows(cli::card_table(cards), titles(cards)),
{
    let n = cards.len();
    if n == 0 {
        let t = cli::card_table(cards);
        assert(is_laid(t, ids(cards), Seq::empty()));
        assert(is_laid(t, statuses(cards), Seq::empty()));
        assert(is_laid(t, titles(cards), Seq::empty()));
    } else {
        let a = cli::id_width(cards, n);
        let b = cli::status_width(cards, n);
        let rows = |k: nat| cli::table_rows(cards, a, b, k);
        let row = |k: int| cli::table_row(cards[k], a, b);
        assert forall|k: int| 0 <= k < n implies text::occurs(#[trigger] row(k), ids(cards)[k])
            && text::occurs(row(k), statuses(cards)[k]) && text::occurs(
            row(k),
            titles(cards)[k],
        ) by {
            lemma_table_row(cards[k], a, b);
        }
        lemma_rows(rows, row, ids(cards), n);
        lemma_rows(rows, row, statuses(cards), n);
        lemma_rows(rows, row, titles(cards), n);
        assert(ids(cards).take(n as int) =~= ids(cards));
        assert(statuses(cards).take(n as int) =~= statuses(cards));
        assert(titles(cards).take(n as int) =~= titles(cards));
        let head = text::padded_right("ID"@, a) + "  "@ + text::padded_right("STATUS"@, b)
            + "  TITLE\n"@;
        assert(cli::card_table(cards) =~= head + rows(n) + Seq::<char>::empty());
        lemma_around(head, rows(n), Seq::empty(), ids(cards));
        lemma_around(head, rows(n), Seq::empty(), statuses(cards));
        lemma_around(head, rows(n), Seq::empty(), titles(cards));
    }
}

/// An item as it is read in a line: its box, checked or not, and its text.
pub open spec fn boxed(item: ItemView) -> Seq<char> {
    (if item.checked {
        "[x] "@
    } else {
        "[ ] "@
    }) + item.text + "\n"@
}

proof fn lemma_item_row(item: ItemView)
    ensures
        text::occurs(cli::item_row(item), boxed(item)),
{
    reveal_strlit(" [x] ");
    reveal_strlit("[x] ");
    reveal_strlit(" [ ] ");
    reveal_strlit("[ ] ");
    let head = text::padded_left(text::decimal(item.global_index), 3) + " "@ + text::padded_right(
        crate::markdown::item_label(item),
        20,
    ) + " "@ + text::padded_left(text::decimal(item.index), 3) + seq![' '];
    assert(" [x] "@ =~= seq![' '] + "[x] "@);
    assert(" [ ] "@ =~= seq![' '] + "[ ] "@);
    assert(cli::item_row(item) =~= head + boxed(item) + Seq::<char>::empty());
    lemma_inside(head, boxed(item), Seq::empty());
}

/// A checklist shows the box and the text of every item, in their order.
pub proof fn checklists_show_every_item(items: Seq<ItemView>)
    ensures
        shows(
            cli::item_rows(items, items.len()),
            items.map_values(|item: ItemView| boxed(item)),
        ),
{
    let n = items.len();
    let parts = items.map_values(|item: ItemView| boxed(item));
    let rows = |k: nat| cli::item_rows(items, k);
    let row = |k: int| cli::item_row(items[k]);
    assert forall|k: int| 0 <= k < n implies text::occurs(#[trigger] row(k), parts[k]) by {
        lemma_item_row(items[k]);
    }
    lemma_rows(rows, row, parts, n);
    assert(parts.take(n as int) =~= parts);
}

/// A heading as Markdown writes it.
pub open spec fn headed(section: SectionView) -> Seq<char> {
    Seq::new(section.level as nat, |i: int| '#') + seq![' '] + section.title
}

/// A list of sections shows the heading of every section, in their order.
pub proof fn lists_show_every_section(sections: Seq<SectionView>)
    ensures
        shows(
            cli::section_rows(sections, sections.len()),
            sections.map_values(|section: SectionView| headed(section)),
        ),
{
    let n = sections.len();
    let parts = sections.map_values(|section: SectionView| headed(section));
    let rows = |k: nat| cli::section_rows(sections, k);
    let row = |k: int| cli::section_row(sections[k]);
    assert forall|k: int| 0 <= k < n implies text::occurs(#[trigger] row(k), parts[k]) by {
        reveal_strlit(" ");
        assert(" "@ =~= seq![' ']);
        assert(row(k) =~= Seq::<char>::empty() + headed(sections[k]) + "\n"@);
        lemma_inside(Seq::empty(), headed(sections[k]), "\n"@);
    }
    lemma_rows(rows, row, parts, n);
    assert(parts.take(n as int) =~= parts);
}

/// The text of an issue behind the file it is in.
pub open spec fn reported(issue: IssueView) -> Seq<char> {
    issue.path + ": "@ + issue.message
}

/// A report shows the file and the message of every issue, in their order.
pub proof fn reports_show_every_issue(issues: Seq<IssueView>)
    ensures
        shows(
            cli::issue_lines(issues, issues.len()),
            issues.map_values(|issue: IssueView| reported(issue)),
        ),
{
    let n = issues.len();
    let parts = issues.map_values(|issue: IssueView| reported(issue));
    let rows = |k: nat| cli::issue_lines(issues, k);
    let row = |k: int| reported(issues[k]) + "\n"@;
    assert forall|k: int| 0 <= k < n implies text::occurs(#[trigger] row(k), parts[k]) by {
        assert(row(k) =~= Seq::<char>::empty() + reported(issues[k]) + "\n"@);
        lemma_inside(Seq::empty(), reported(issues[k]), "\n"@);
    }
    assert forall|k: nat| k < n implies #[trigger] rows(k + 1) == rows(k) + row(k as int) by {
        assert(rows(k + 1) =~= rows(k) + row(k as int));
    }
    lemma_rows(rows, row, parts, n);
    assert(parts.take(n as int) =~= parts);
}

proof fn lemma_comment(comment: CommentView)
    ensures
        shows(
            cli::comment_text(comment),
            seq![comment.id, comment.author, comment.created_at, comment.body],
        ),
{
    let empty = Seq::<char>::empty();
    let none = Seq::<Seq<char>>::empty();
    let dash = " — "@;
    assert(is_laid(empty, none, Seq::empty()));
    lemma_inside(empty, comment.id, empty);
    lemma_more(empty, none, empty + comment.id + empty, comment.id);
    lemma_inside(dash, comment.author, empty);
    let first = empty + (empty + comment.id + empty);
    lemma_more(first, none.push(comment.id), dash + comment.author + empty, comment.author);
    let second = first + (dash + comment.author + empty);
    lemma_inside(dash, comment.created_at, empty);
    lemma_more(
        second,
        none.push(comment.id).push(comment.author),
        dash + comment.created_at + empty,
        comment.created_at,
    );
    let third = second + (dash + comment.created_at + empty);
    lemma_inside("\n\n"@, comment.body, "\n"@);
    lemma_more(
        third,
        none.push(comment.id).push(comment.author).push(comment.created_at),
        "\n\n"@ + comment.body + "\n"@,
        comment.body,
    );
    assert(cli::comment_text(comment) =~= third + ("\n\n"@ + comment.body + "\n"@));
    assert(none.push(comment.id).push(comment.author).push(comment.created_at).push(comment.body)
        =~= seq![comment.id, comment.author, comment.created_at, comment.body]);
}

proof fn lemma_comment_body(comment: CommentView)
    ensures
        text::occurs(cli::comment_text(comment), comment.body),
        text::occurs(cli::comment_text(comment), comment.id),
{
    lemma_comment(comment);
    let parts = seq![comment.id, comment.author, comment.created_at, comment.body];
    let at = choose|at: Seq<int>| is_laid(cli::comment_text(comment), parts, at);
    assert(parts[3] == comment.body);
    assert(parts[0] == comment.id);
    assert(text::occurs_at(cli::comment_text(comment), parts[3], at[3]));
    assert(text::occurs_at(cli::comment_text(comment), parts[0], at[0]));
}

/// A comment is shown with its id, its author, its time and its text, and of several comments every
/// one is shown, in their order.
pub proof fn lists_show_every_comment(comments: Seq<CommentView>)
    ensures
        forall|k: int|
            0 <= k < comments.len() ==> shows(
                cli::comment_text(#[trigger] comments[k]),
                seq![
                    comments[k].id,
                    comments[k].author,
                    comments[k].created_at,
                    comments[k].body,
                ],
            ),
        shows(
            cli::comments_text(comments, comments.len()),
            comments.map_values(|comment: CommentView| comment.id),
        ),
        shows(
            cli::comments_text(comments, comments.len()),
            comments.map_values(|comment: CommentView| comment.body),
        ),
{
    let n = comments.len();
    let names = comments.map_values(|comment: CommentView| comment.id);
    let bodies = comments.map_values(|comment: CommentView| comment.body);
    assert forall|k: int| 0 <= k < n implies shows(
        cli::comment_text(#[trigger] comments[k]),
        seq![comments[k].id, comments[k].author, comments[k].created_at, comments[k].body],
    ) by {
        lemma_comment(comments[k]);
    }
    let rows = |k: nat| cli::comments_text(comments, k);
    let row = |k: int|
        (if k > 0 {
            "\n"@
        } else {
            Seq::empty()
        }) + cli::comment_text(comments[k]);
    assert forall|k: int| 0 <= k < n implies text::occurs(#[trigger] row(k), names[k])
        && text::occurs(row(k), bodies[k]) by {
        lemma_comment_body(comments[k]);
        let head = if k > 0 {
            "\n"@
        } else {
            Seq::empty()
        };
        lemma_within(head, cli::comment_text(comments[k]), names[k]);
        lemma_within(head, cli::comment_text(comments[k]), bodies[k]);
    }
    assert forall|k: nat| k < n implies #[trigger] rows(k + 1) == rows(k) + row(k as int) by {
        assert(rows(k + 1) =~= rows(k) + row(k as int));
    }
    lemma_rows(rows, row, names, n);
    lemma_rows(rows, row, bodies, n);
    assert(names.take(n as int) =~= names);
    assert(bodies.take(n as int) =~= bodies);
}

proof fn lemma_within(a: Seq<char>, s: Seq<char>, part: Seq<char>)
    requires
        text::occurs(s, part),
    ensures
        text::occurs(a + s, part),
{
    let i = choose|i: int| text::occurs_at(s, part, i);
    assert((a + s).subrange(a.len() + i, a.len() + i + part.len()) =~= s.subrange(
        i,
        i + part.len(),
    ));
    assert(text::occurs_at(a + s, part, a.len() + i));
}

proof fn lemma_board_line(card: CardView)
    ensures
        text::occurs(cli::board_line(card), card.metadata.id),
        text::occurs(cli::board_line(card), card.metadata.title),
{
    let line = cli::board_line(card);
    let id = card.metadata.id;
    let title = card.metadata.title;
    let gap = text::spaces(10 - id.len()) + " "@;
    let end = cli::progress_text(card.body) + cli::labels_text(card.metadata.labels) + "\n"@;
    assert(line =~= "  "@ + id + (gap + title + end));
    lemma_inside("  "@, id, gap + title + end);
    assert(line =~= ("  "@ + id + gap) + title + end);
    lemma_inside("  "@ + id + gap, title, end);
}

proof fn lemma_board_lines(cards: Seq<CardView>, column: Seq<char>, n: nat)
    requires
        n <= cards.len(),
    ensures
        ({
            let lines = cli::board_lines(cards, column, n);
            let shown = cards::all_in(cards.take(n as int), column);
            shows(lines, ids(shown)) && shows(lines, titles(shown))
        }),
    decreases n,
{
    reveal(Seq::filter);
    let first = cards.take(n as int);
    let lines = cli::board_lines(cards, column, n);
    let shown = cards::all_in(first, column);
    if n == 0 {
        assert(is_laid(lines, ids(shown), Seq::empty()));
        assert(is_laid(lines, titles(shown), Seq::empty()));
    } else {
        let card = cards[n - 1];
        lemma_board_lines(cards, column, (n - 1) as nat);
        assert(first.drop_last() =~= cards.take(n - 1));
        assert(first.last() == card);
        let before = cards::all_in(cards.take(n - 1), column);
        if store::in_column(card, column) {
            let line = cli::board_line(card);
            let old = cli::board_lines(cards, column, (n - 1) as nat);
            lemma_board_line(card);
            lemma_more(old, ids(before), line, card.metadata.id);
            lemma_more(old, titles(before), line, card.metadata.title);
            assert(shown =~= before.push(card));
            assert(ids(shown) =~= ids(before).push(card.metadata.id));
            assert(titles(shown) =~= titles(before).push(card.metadata.title));
        } else {
            assert(shown =~= before);
        }
    }
}

/// The heading of a column: its name, how many cards it has, and its limit where it has one.
pub open spec fn column_heading(cards: Seq<CardView>, column: ColumnView) -> Seq<char> {
    "\n"@ + column.name + " ("@ + text::decimal(cards::all_in(cards, column.name).len()) + (
    if column.wip_limit is Some {
        "/"@ + text::decimal(column.wip_limit->0 as nat)
    } else {
        Seq::empty()
    }) + ")\n"@
}

/// Whether a column is shown in a part of a text: the part begins with the heading of the column and
/// shows the id and the title of every card that is in it, in their order.
pub open spec fn is_column_shown(part: Seq<char>, cards: Seq<CardView>, column: ColumnView) -> bool {
    &&& text::begins(part, column_heading(cards, column))
    &&& shows(part, ids(cards::all_in(cards, column.name)))
    &&& shows(part, titles(cards::all_in(cards, column.name)))
}

proof fn lemma_board_column(cards: Seq<CardView>, column: ColumnView)
    ensures
        is_column_shown(cli::board_column(cards, column), cards, column),
{
    let name = column.name;
    let part = cli::board_column(cards, column);
    let heading = column_heading(cards, column);
    cards::lemma_column_size(cards, name, name);
    lemma_board_lines(cards, name, cards.len());
    assert(cards.take(cards.len() as int) =~= cards);
    let shown = cards::all_in(cards, name);
    let lines = cli::board_lines(cards, name, cards.len());
    let none = if shown.len() == 0 {
        "  ·\n"@
    } else {
        Seq::empty()
    };
    assert(part =~= (heading + none) + lines + Seq::<char>::empty());
    lemma_around(heading + none, lines, Seq::empty(), ids(shown));
    lemma_around(heading + none, lines, Seq::empty(), titles(shown));
    assert(part.subrange(0, heading.len() as int) =~= heading);
}

/// A board begins with its name and shows its columns in their order, each with its heading and with
/// every card that is in it.
pub proof fn boards_show_every_column(config: ConfigView, cards: Seq<CardView>)
    ensures
        text::begins(cli::board(config, cards), config.name),
        exists|parts: Seq<Seq<char>>| #[trigger]
            shows(cli::board(config, cards), parts) && parts.len() == config.columns.len()
                && forall|c: int|
                0 <= c < parts.len() ==> is_column_shown(
                    #[trigger] parts[c],
                    cards,
                    config.columns[c],
                ),
{
    let columns = config.columns;
    let n = columns.len();
    let parts = columns.map_values(|column: ColumnView| cli::board_column(cards, column));
    let rows = |k: nat| cli::board_columns(cards, columns, k);
    let row = |k: int| cli::board_column(cards, columns[k]);
    let empty = Seq::<char>::empty();
    assert forall|k: int| 0 <= k < n implies text::occurs(#[trigger] row(k), parts[k]) by {
        lemma_inside(empty, parts[k], empty);
        assert(empty + parts[k] + empty =~= row(k));
    }
    lemma_rows(rows, row, parts, n);
    assert(parts.take(n as int) =~= parts);
    let head = config.name + "\n"@;
    let board = cli::board(config, cards);
    assert(board =~= head + rows(n) + empty);
    lemma_around(head, rows(n), empty, parts);
    assert(board.subrange(0, config.name.len() as int) =~= config.name);
    assert forall|c: int| 0 <= c < parts.len() implies is_column_shown(
        #[trigger] parts[c],
        cards,
        columns[c],
    ) by {
        lemma_board_column(cards, columns[c]);
    }
}

proof fn lemma_list(list: Seq<Seq<char>>, separator: Seq<char>)
    ensures
        shows(text::listed(list, separator, list.len()), list),
{
    let n = list.len();
    let rows = |k: nat| text::listed(list, separator, k);
    let row = |k: int|
        (if k > 0 {
            separator
        } else {
            Seq::empty()
        }) + list[k];
    assert forall|k: int| 0 <= k < n implies text::occurs(#[trigger] row(k), list[k]) by {
        let head = if k > 0 {
            separator
        } else {
            Seq::empty()
        };
        lemma_inside(head, list[k], Seq::empty());
        assert(head + list[k] + Seq::<char>::empty() =~= row(k));
    }
    assert forall|k: nat| k < n implies #[trigger] rows(k + 1) == rows(k) + row(k as int) by {
        assert(rows(k + 1) =~= rows(k) + row(k as int));
    }
    lemma_rows(rows, row, list, n);
    assert(list.take(n as int) =~= list);
}

proof fn lemma_list_line(name: Seq<char>, list: Seq<Seq<char>>)
    ensures
        shows(cli::list_line(name, list), list),
{
    if list.len() == 0 {
        assert(is_laid(cli::list_line(name, list), list, Seq::empty()));
    } else {
        lemma_list(list, ", "@);
        lemma_around(name, text::listed(list, ", "@, list.len()), "\n"@, list);
    }
}

proof fn lemma_head(id: Seq<char>, title: Seq<char>, status: Seq<char>)
    ensures
        shows(id + " — "@ + title + "\nStatus: "@ + status, seq![id, title, status]),
{
    let empty = Seq::<char>::empty();
    let none = Seq::<Seq<char>>::empty();
    assert(is_laid(empty, none, Seq::empty()));
    lemma_inside(empty, id, empty);
    lemma_more(empty, none, empty + id + empty, id);
    let first = empty + (empty + id + empty);
    lemma_inside(" — "@, title, empty);
    lemma_more(first, none.push(id), " — "@ + title + empty, title);
    let second = first + (" — "@ + title + empty);
    lemma_inside("\nStatus: "@, status, empty);
    lemma_more(second, none.push(id).push(title), "\nStatus: "@ + status + empty, status);
    assert(second + ("\nStatus: "@ + status + empty) =~= id + " — "@ + title + "\nStatus: "@
        + status);
    assert(none.push(id).push(title).push(status) =~= seq![id, title, status]);
}

proof fn lemma_inner(a: Seq<char>, b: Seq<char>, c: Seq<char>, part: Seq<char>)
    requires
        text::occurs(b, part),
    ensures
        text::occurs(a + b + c, part),
{
    let i = choose|i: int| text::occurs_at(b, part, i);
    let t = a + b + c;
    assert(t.subrange(a.len() + i, a.len() + i + part.len()) =~= b.subrange(i, i + part.len()));
    assert(text::occurs_at(t, part, a.len() + i));
}

proof fn lemma_body_shown(body: Seq<char>) -> (end: int)
    ensures
        0 <= end <= body.len(),
        text::trim_end(body, CharClass::Space) == body.take(end),
        forall|i: int| end <= i < body.len() ==> text::is_space(#[trigger] body[i]),
{
    text::lemma_trail_is(body, CharClass::Space);
    let end = body.len() - text::trail(body, CharClass::Space);
    assert(text::trim_end(body, CharClass::Space) =~= body.take(end));
    end
}

/// Whether a text shows a body to the last character that is no white space.
pub open spec fn is_body_shown(shown: Seq<char>, body: Seq<char>) -> bool {
    exists|end: int|
        0 <= end <= body.len() && text::occurs(shown, #[trigger] body.take(end)) && forall|i: int|
            end <= i < body.len() ==> text::is_space(#[trigger] body[i])
}

/// A card is shown with its id, its title, its status, all its labels and assignees, its custom
/// fields where it has any, and its body to the last character that is no white space.
pub proof fn cards_are_shown_whole(card: CardView, fields: Option<Seq<char>>)
    ensures
        ({
            let shown = cli::card_text(card, fields);
            &&& shows(shown, seq![card.metadata.id, card.metadata.title, card.metadata.status])
            &&& shows(shown, card.metadata.labels)
            &&& shows(shown, card.metadata.assignees)
            &&& fields is Some ==> text::occurs(shown, fields->0)
            &&& is_body_shown(shown, card.body)
        }),
{
    let empty = Seq::<char>::empty();
    let metadata = card.metadata;
    let (checked, total) = crate::model::progress(card.body);
    let labels = cli::list_line("Labels: "@, metadata.labels);
    let assignees = cli::list_line("Assignees: "@, metadata.assignees);
    let progress = if total > 0 {
        "Checklist: "@ + text::decimal(checked) + "/"@ + text::decimal(total) + "\n"@
    } else {
        empty
    };
    let custom = match fields {
        Some(yaml) => "Custom fields:\n"@ + yaml,
        None => empty,
    };
    let end = lemma_body_shown(card.body);
    let kept = card.body.take(end);
    let body = if card.body.len() == 0 {
        empty
    } else {
        "\n"@ + kept + "\n"@
    };
    let head = metadata.id + " — "@ + metadata.title + "\nStatus: "@ + metadata.status;
    let shown = cli::card_text(card, fields);
    assert(shown == head + "\n"@ + labels + assignees + progress + custom + body);
    if fields is Some {
        assert(custom =~= "Custom fields:\n"@ + fields->0 + empty);
        lemma_inside("Custom fields:\n"@, fields->0, empty);
    }
    if card.body.len() == 0 {
        assert(empty =~= empty + kept + empty);
        lemma_inside(empty, kept, empty);
    } else {
        lemma_inside("\n"@, kept, "\n"@);
    }
    lemma_head(metadata.id, metadata.title, metadata.status);
    lemma_list_line("Labels: "@, metadata.labels);
    lemma_list_line("Assignees: "@, metadata.assignees);
    lemma_assembled(head, labels, assignees, progress, custom, body);
    let named = seq![metadata.id, metadata.title, metadata.status];
    let rest = "\n"@ + labels + assignees + progress + custom + body;
    lemma_around(empty, head, rest, named);
    lemma_around(head + "\n"@, labels, assignees + progress + custom + body, metadata.labels);
    lemma_around(head + "\n"@ + labels, assignees, progress + custom + body, metadata.assignees);
    if fields is Some {
        lemma_inner(head + "\n"@ + labels + assignees + progress, custom, body, fields->0);
    }
    lemma_inner(head + "\n"@ + labels + assignees + progress + custom, body, empty, kept);
}

proof fn lemma_assembled(
    head: Seq<char>,
    labels: Seq<char>,
    assignees: Seq<char>,
    progress: Seq<char>,
    custom: Seq<char>,
    body: Seq<char>,
)
    ensures
        ({
            let empty = Seq::<char>::empty();
            let shown = head + "\n"@ + labels + assignees + progress + custom + body;
            &&& shown == empty + head + ("\n"@ + labels + assignees + progress + custom + body)
            &&& shown == (head + "\n"@) + labels + (assignees + progress + custom + body)
            &&& shown == (head + "\n"@ + labels) + assignees + (progress + custom + body)
            &&& shown == (head + "\n"@ + labels + assignees + progress) + custom + body
            &&& shown == (head + "\n"@ + labels + assignees + progress + custom) + body + empty
        }),
{
    let empty = Seq::<char>::empty();
    let shown = head + "\n"@ + labels + assignees + progress + custom + body;
    assert(shown =~= empty + head + ("\n"@ + labels + assignees + progress + custom + body));
    assert(shown =~= (head + "\n"@) + labels + (assignees + progress + custom + body));
    assert(shown =~= (head + "\n"@ + labels) + assignees + (progress + custom + body));
    assert(shown =~= (head + "\n"@ + labels + assignees + progress + custom) + body + empty);
}

} // verus!
