//! What is seen of the board, and where.

use crate::characters;
use crate::markdown;
use crate::markdown::ItemView;
use crate::model::CardView;
use crate::outside;
use crate::text;
use crate::tui::app::AppView;
use crate::tui::ui;
use crate::tui::ui::{Color, DetailView, DrawnView, HitView, Look, Rect, SceneView, TargetView};
use vstd::prelude::*;

verus! {

proof fn lemma_push<T>(s: Seq<T>, x: T)
    ensures
        s.push(x).contains(x),
        forall|y: T| s.contains(y) ==> #[trigger] s.push(x).contains(y),
{
    assert(s.push(x)[s.len() as int] == x);
    assert forall|y: T| s.contains(y) implies #[trigger] s.push(x).contains(y) by {
        let i = choose|i: int| 0 <= i < s.len() && s[i] == y;
        assert(s.push(x)[i] == y);
    }
}

/// Whether a picture shows a text at a place, in some look.
pub open spec fn shows_text(scene: SceneView, rect: Rect, text: Seq<char>) -> bool {
    exists|look: Look| #[trigger] scene.items.contains(DrawnView::Line { rect, text, look })
}

/// Whether all that is in a picture is in another one too.
pub open spec fn is_in_picture(scene: SceneView, more: SceneView) -> bool {
    &&& forall|hit: HitView| #[trigger] scene.hits.contains(hit) ==> more.hits.contains(hit)
    &&& forall|item: DrawnView| #[trigger] scene.items.contains(item) ==> more.items.contains(item)
}

proof fn lemma_with(scene: SceneView, item: DrawnView)
    ensures
        is_in_picture(scene, scene.with(item)),
        scene.with(item).items.contains(item),
{
    lemma_push(scene.items, item);
}

proof fn lemma_hit(scene: SceneView, rect: Rect, target: TargetView)
    ensures
        is_in_picture(scene, scene.hit(rect, target)),
        !rect.is_void() ==> scene.hit(rect, target).hits.contains(HitView { rect, target }),
{
    lemma_push(scene.hits, HitView { rect, target });
}

proof fn lemma_card(scene: SceneView, app: AppView, card: CardView, area: Rect)
    ensures
        is_in_picture(scene, scene.card(app, card, area)),
        shows_text(
            scene.card(app, card, area),
            ui::row_of(area.framed(), 0),
            ui::truncated(card.metadata.title, area.framed().width as usize),
        ),
        area.framed().height > 1 ==> shows_text(
            scene.card(app, card, area),
            ui::row_of(area.framed(), 1),
            ui::truncated(ui::card_details(card), area.framed().width as usize),
        ),
{
    let dragged = ui::is_card(card, ui::dragged_id(app));
    let border = if dragged {
        Color::Magenta
    } else if ui::is_card(card, app.selected_id) {
        Color::Yellow
    } else {
        Color::Gray
    };
    let inner = area.framed();
    let width = inner.width as usize;
    let frame = DrawnView::Frame { rect: area, color: border, title: Seq::empty(), bold: false };
    let title = DrawnView::Line {
        rect: ui::row_of(inner, 0),
        text: ui::truncated(card.metadata.title, width),
        look: Look { dim: dragged, ..ui::bold(Color::White) },
    };
    let details = DrawnView::Line {
        rect: ui::row_of(inner, 1),
        text: ui::truncated(ui::card_details(card), width),
        look: ui::colored(Color::DarkGray),
    };
    let framed = scene.with(frame);
    let titled = framed.with(title);
    lemma_with(scene, frame);
    lemma_with(framed, title);
    lemma_with(titled, details);
    let shown = scene.card(app, card, area);
    assert(shown == if inner.height > 1 {
        titled.with(details)
    } else {
        titled
    });
    assert(shown.items.contains(title));
}

/// Where a card is drawn: `k` cards stand above it, four rows each with a row between them.
pub open spec fn card_place(inner: Rect, k: int) -> Rect {
    Rect { x: inner.x, y: (inner.y + 5 * k) as u16, width: inner.width, height: 4 }
}

/// Whether a card is drawn at a place and met there by the mouse: with its title in the first row
/// within its border, its id in the second, and its column and row.
pub open spec fn is_drawn(
    scene: SceneView,
    card: CardView,
    place: Rect,
    column: usize,
    row: int,
) -> bool {
    let width = (place.width - 2) as usize;
    let line = Rect {
        x: (place.x + 1) as u16,
        y: (place.y + 1) as u16,
        width: width as u16,
        height: 1,
    };
    &&& scene.hits.contains(
        HitView {
            rect: place,
            target: TargetView::Card { id: card.metadata.id, column, row: row as usize },
        },
    )
    &&& shows_text(scene, line, ui::truncated(card.metadata.title, width))
    &&& shows_text(
        scene,
        Rect { y: (place.y + 2) as u16, ..line },
        ui::truncated(ui::card_details(card), width),
    )
}

proof fn lemma_drawn_kept(
    scene: SceneView,
    more: SceneView,
    card: CardView,
    place: Rect,
    column: usize,
    row: int,
)
    requires
        is_in_picture(scene, more),
        is_drawn(scene, card, place, column, row),
    ensures
        is_drawn(more, card, place, column, row),
{
    let width = (place.width - 2) as usize;
    let line = Rect {
        x: (place.x + 1) as u16,
        y: (place.y + 1) as u16,
        width: width as u16,
        height: 1,
    };
    let title = ui::truncated(card.metadata.title, width);
    let details = ui::truncated(ui::card_details(card), width);
    let second = Rect { y: (place.y + 2) as u16, ..line };
    let a = choose|look: Look| #[trigger]
        scene.items.contains(DrawnView::Line { rect: line, text: title, look });
    let b = choose|look: Look| #[trigger]
        scene.items.contains(DrawnView::Line { rect: second, text: details, look });
    assert(more.items.contains(DrawnView::Line { rect: line, text: title, look: a }));
    assert(more.items.contains(DrawnView::Line { rect: second, text: details, look: b }));
}

proof fn lemma_cards(
    scene: SceneView,
    app: AppView,
    cards: Seq<CardView>,
    index: usize,
    first: int,
    inner: Rect,
    n: nat,
    k: int,
)
    requires
        inner.fits(),
        inner.width > 2,
        0 <= k < n,
        5 * k + 4 <= inner.height,
    ensures
        is_drawn(
            scene.cards(app, cards, index, first, inner, n),
            cards[first + k],
            card_place(inner, k),
            index,
            first + k,
        ),
    decreases n,
{
    let before = scene.cards(app, cards, index, first, inner, (n - 1) as nat);
    let rect = ui::card_rect(inner, n - 1);
    let card = cards[first + n - 1];
    let target = TargetView::Card {
        id: card.metadata.id,
        column: index,
        row: (first + n - 1) as usize,
    };
    lemma_hit(before, rect, target);
    lemma_card(before.hit(rect, target), app, card, rect);
    if k < n - 1 {
        lemma_cards(scene, app, cards, index, first, inner, (n - 1) as nat, k);
        let place = card_place(inner, k);
        if rect.height >= 3 {
            lemma_drawn_kept(before, before.hit(rect, target), cards[first + k], place, index, first + k);
            lemma_drawn_kept(
                before.hit(rect, target),
                before.hit(rect, target).card(app, card, rect),
                cards[first + k],
                place,
                index,
                first + k,
            );
        }
    } else {
        assert(rect == card_place(inner, k));
        let placed = before.hit(rect, target);
        assert(placed.hits.contains(HitView { rect, target }));
    }
}

/// A card of a column that has its four rows below the first card that is shown there is drawn in
/// them, with its title and its id, and the mouse meets that card there, in its column and its row.
pub proof fn cards_are_drawn_in_their_column(
    scene: SceneView,
    app: AppView,
    index: usize,
    area: Rect,
    row: int,
)
    requires
        index < app.columns().len(),
        area.fits(),
        area.width > 4,
        area.height > 2,
        0 <= ui::first_card(app, index, (area.height - 2) as u16) <= row,
        row < app.column_cards(index as int).len(),
        5 * (row - ui::first_card(app, index, (area.height - 2) as u16)) + 4 <= area.height - 2,
    ensures
        ({
            let first = ui::first_card(app, index, (area.height - 2) as u16);
            let inner = Rect {
                x: (area.x + 1) as u16,
                y: (area.y + 1) as u16,
                width: (area.width - 2) as u16,
                height: (area.height - 2) as u16,
            };
            is_drawn(
                scene.column(app, index, area),
                app.column_cards(index as int)[row],
                card_place(inner, row - first),
                index,
                row,
            )
        }),
{
    let inner = area.framed();
    let first = ui::first_card(app, index, inner.height);
    let cards = app.column_cards(index as int);
    let framed = scene.hit(area, TargetView::Column(index)).frame(
        area,
        ui::column_border(app, index),
        ui::truncated(
            ui::column_title(app.columns()[index as int], cards.len()),
            inner.width as usize,
        ),
        true,
    );
    let k = row - first;
    let n = crate::tui::app::least(ui::visible_cards(inner.height), cards.len() - first) as nat;
    assert(k < ui::visible_cards(inner.height));
    lemma_cards(framed, app, cards, index, first, inner, n, k);
}

proof fn lemma_detail_lines(
    scene: SceneView,
    app: AppView,
    id: Seq<char>,
    lines: Seq<DetailView>,
    first: int,
    inner: Rect,
    n: nat,
    k: int,
)
    requires
        !inner.is_void(),
        0 <= k < n,
    ensures
        ({
            let shown = scene.detail_lines(app, id, lines, first, inner, n);
            let line = lines[first + k];
            &&& shows_text(
                shown,
                ui::row_of(inner, k),
                ui::truncated(line.text, inner.width as usize),
            )
            &&& line.checklist matches Some(item) ==> shown.hits.contains(
                HitView {
                    rect: ui::row_of(inner, k),
                    target: TargetView::Checklist { card_id: id, global_index: item },
                },
            )
        }),
    decreases n,
{
    let before = scene.detail_lines(app, id, lines, first, inner, (n - 1) as nat);
    let last = lines[first + n - 1];
    let rect = ui::row_of(inner, n - 1);
    let drawn = DrawnView::Line {
        rect,
        text: ui::truncated(last.text, inner.width as usize),
        look: ui::line_look(app, last),
    };
    lemma_with(before, drawn);
    if let Some(item) = last.checklist {
        lemma_hit(
            before.with(drawn),
            rect,
            TargetView::Checklist { card_id: id, global_index: item },
        );
    }
    let shown = scene.detail_lines(app, id, lines, first, inner, n);
    assert(is_in_picture(before, shown));
    assert(shown.items.contains(drawn));
    if k < n - 1 {
        lemma_detail_lines(scene, app, id, lines, first, inner, (n - 1) as nat, k);
        let text = ui::truncated(lines[first + k].text, inner.width as usize);
        let look = choose|look: Look| #[trigger]
            before.items.contains(DrawnView::Line { rect: ui::row_of(inner, k), text, look });
        assert(shown.items.contains(DrawnView::Line { rect: ui::row_of(inner, k), text, look }));
    }
}

/// The details of the selected card are drawn line below line, from the first line that is shown on.
/// Where a line holds a checklist item, the mouse meets that item of that card there.
pub proof fn details_are_drawn_line_by_line(
    scene: SceneView,
    app: AppView,
    yaml: Seq<char>,
    area: Rect,
    k: int,
)
    requires
        app.selected() is Some,
        area.fits(),
        area.width > 2,
        0 <= k < area.height - 2,
        ui::first_line(app, ui::details(app.selected()->0, yaml), area.height - 2) + k
            < ui::details(app.selected()->0, yaml).len(),
    ensures
        ({
            let card = app.selected()->0;
            let lines = ui::details(card, yaml);
            let line = lines[ui::first_line(app, lines, area.height - 2) + k];
            let shown = scene.detail(app, yaml, area);
            let place = Rect {
                x: (area.x + 1) as u16,
                y: (area.y + 1 + k) as u16,
                width: (area.width - 2) as u16,
                height: 1,
            };
            &&& shows_text(shown, place, ui::truncated(line.text, (area.width - 2) as usize))
            &&& line.checklist matches Some(item) ==> shown.hits.contains(
                HitView {
                    rect: place,
                    target: TargetView::Checklist {
                        card_id: card.metadata.id,
                        global_index: item,
                    },
                },
            )
        }),
{
    let card = app.selected()->0;
    let inner = area.framed();
    let lines = ui::details(card, yaml);
    let first = ui::first_line(app, lines, inner.height as int);
    let framed = scene.hit(area, TargetView::DetailPane).frame(
        area,
        ui::detail_border(app),
        ui::truncated(ui::detail_title(card), inner.width as usize),
        false,
    );
    let n = crate::tui::app::least(inner.height as int, lines.len() - first) as nat;
    lemma_detail_lines(framed, app, card.metadata.id, lines, first, inner, n, k);
}

proof fn lemma_item_on(items: Seq<ItemView>, line: nat, n: nat, j: int)
    requires
        n <= items.len(),
        0 <= j < n ==> items[j].line_number == line,
        -1 <= j < n,
        forall|i: int| j < i < n ==> (#[trigger] items[i]).line_number != line,
    ensures
        ui::item_on(items, line, n) == if j < 0 {
            None
        } else {
            Some(items[j].global_index as usize)
        },
    decreases n,
{
    if n > 0 && j < n - 1 {
        assert(items[n - 1].line_number != line);
        lemma_item_on(items, line, (n - 1) as nat, j);
    }
}

/// The details of a card end with its body, line by line. A line with a checklist item carries the
/// number of the item, and a line without one carries none.
pub proof fn details_show_the_body(card: CardView, yaml: Seq<char>, i: int, j: int)
    requires
        card.body.len() > 0,
        0 <= i < text::lines(card.body).len(),
        -1 <= j < markdown::items_in(card.body).len(),
        j >= 0 ==> markdown::items_in(card.body)[j].line_number == i + 1,
        forall|l: int|
            j < l < markdown::items_in(card.body).len() ==> (#[trigger] markdown::items_in(
                card.body,
            )[l]).line_number != i + 1,
    ensures
        ({
            let lines = text::lines(card.body);
            let all = ui::details(card, yaml);
            let line = all[all.len() - lines.len() + i];
            &&& all.len() > lines.len()
            &&& line.text == lines[i]
            &&& line.checklist == if j < 0 {
                None
            } else {
                Some(markdown::items_in(card.body)[j].global_index as usize)
            }
        }),
{
    let items = markdown::items_in(card.body);
    lemma_item_on(items, (i + 1) as nat, items.len(), j);
}

/// A text that has room is shown whole. One that has none is cut as late as it can be: with one more
/// character it would not leave room for the ellipsis.
pub proof fn texts_are_cut_late(s: Seq<char>, width: usize)
    ensures
        outside::text_width(s) <= width ==> ui::truncated(s, width) == s,
        outside::text_width(s) > width > 1 ==> ({
            let kept = ui::truncated(s, width).len() - 1;
            kept < s.len() ==> ui::total_cells(s, (kept + 1) as nat) > width - 1
        }),
{
    reveal_strlit("…");
    if outside::text_width(s) > width > 1 {
        lemma_cut_late(s, 0, width - 1);
        assert("…"@.len() == 1);
    }
}

proof fn lemma_cut_late(s: Seq<char>, i: int, left: int)
    requires
        0 <= i <= s.len(),
    ensures
        ({
            let end = i + ui::fitting(s, i, left).len();
            end < s.len() ==> ui::total_cells(s, (end + 1) as nat) > ui::total_cells(s, i as nat)
                + left
        }),
    decreases s.len() - i,
{
    if i < s.len() && ui::cells(s[i]) <= left {
        lemma_cut_late(s, i + 1, left - ui::cells(s[i]));
    }
}

/// Whether a character is the hexadecimal digit of a number.
pub open spec fn is_digit(c: char, n: int) -> bool {
    ||| 0 <= n < 10 && c as int == '0' as int + n
    ||| 10 <= n < 16 && c as int == 'a' as int + n - 10
    ||| 10 <= n < 16 && c as int == 'A' as int + n - 10
}

/// A color can be written as a number sign and two hexadecimal digits each for how much red, green and
/// blue it has, in letters of either case and with white space around it.
pub proof fn colors_are_read_as_digits(s: Seq<char>, bare: Seq<char>, d: Seq<int>)
    requires
        characters::strips_space(s, bare),
        bare.len() == 7,
        bare[0] == '#',
        d.len() == 6,
        is_digit(bare[1], d[0]) && is_digit(bare[2], d[1]),
        is_digit(bare[3], d[2]) && is_digit(bare[4], d[3]),
        is_digit(bare[5], d[4]) && is_digit(bare[6], d[5]),
    ensures
        ui::color_of(s) == Some(
            Color::Rgb(
                (d[0] * 16 + d[1]) as u8,
                (d[2] * 16 + d[3]) as u8,
                (d[4] * 16 + d[5]) as u8,
            ),
        ),
{
    reveal_strlit("black");
    reveal_strlit("red");
    reveal_strlit("green");
    reveal_strlit("yellow");
    reveal_strlit("blue");
    reveal_strlit("magenta");
    reveal_strlit("purple");
    reveal_strlit("cyan");
    reveal_strlit("gray");
    reveal_strlit("grey");
    reveal_strlit("darkgray");
    reveal_strlit("dark-gray");
    reveal_strlit("dark_gray");
    reveal_strlit("white");
    characters::trimming_strips(s);
    characters::strips_to_one(s, bare, text::trim(s), |c: char| text::is_space(c));
    let name = text::fold(bare);
    assert(name.len() == 7);
    assert(name[0] == '#');
    assert("magenta"@[0] == 'm');
    assert(ui::named_color(name) is None);
    lemma_digit(bare[1], d[0]);
    lemma_digit(bare[2], d[1]);
    lemma_digit(bare[3], d[2]);
    lemma_digit(bare[4], d[3]);
    lemma_digit(bare[5], d[4]);
    lemma_digit(bare[6], d[5]);
}

proof fn lemma_digit(c: char, n: int)
    requires
        is_digit(c, n),
    ensures
        ui::hex_value(text::lower(c)) == Some(n as u8),
{
}

} // verus!
