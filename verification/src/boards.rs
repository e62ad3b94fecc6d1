//! What a board is, said of characters and of columns.

use crate::characters;
use crate::characters::same_letters;
use crate::config;
use crate::config::{ColumnView, ConfigView};
use crate::model;
use crate::model::MetadataView;
use crate::outside;
use crate::text;
use vstd::prelude::*;

verus! {

/// Whether a text has a character that is no white space.
pub open spec fn is_written(s: Seq<char>) -> bool {
    exists|i: int| 0 <= i < s.len() && !text::is_space(#[trigger] s[i])
}

/// Whether a character is a control character.
pub open spec fn is_control(c: char) -> bool {
    (c as int) < 32 || 127 <= c as int <= 159
}

/// Whether no character of a text is a control character.
pub open spec fn is_printed(s: Seq<char>) -> bool {
    forall|i: int| 0 <= i < s.len() ==> !is_control(#[trigger] s[i])
}

/// Whether a text can name a board or a column: it is not empty, neither begins nor ends with white
/// space, and holds no control character.
pub open spec fn is_bare(s: Seq<char>) -> bool {
    s.len() > 0 && !text::is_space(s[0]) && !text::is_space(s.last()) && is_printed(s)
}

/// Whether two columns have one name, whatever the case of its letters.
pub open spec fn is_twin(a: ColumnView, b: ColumnView) -> bool {
    outside::lowercase(a.name) == outside::lowercase(b.name) || same_letters(a.name, b.name)
}

/// Whether columns can stand on a board.
pub open spec fn are_columns(columns: Seq<ColumnView>) -> bool {
    &&& forall|i: int|
        0 <= i < columns.len() ==> is_bare((#[trigger] columns[i]).name) && columns[i].wip_limit
            != Some(0usize)
    &&& forall|i: int, j: int|
        0 <= i < j < columns.len() ==> !is_twin(#[trigger] columns[i], #[trigger] columns[j])
}

/// Whether a status is the name of a column, but for the case of its letters and white space around
/// it.
pub open spec fn is_status(columns: Seq<ColumnView>, i: int, status: Seq<char>) -> bool {
    0 <= i < columns.len() && exists|bare: Seq<char>| #[trigger]
        characters::strips_space(status, bare) && same_letters(columns[i].name, bare)
}

/// Whether a directory is one below the board: a relative path that never leads upwards.
pub open spec fn is_below(path: Seq<char>) -> bool {
    &&& path.len() > 0
    &&& path[0] != '/'
    &&& is_printed(path)
    &&& forall|i: int|
        0 <= i < path.len() - 1 && #[trigger] path[i] == '.' && path[i + 1] == '.' ==> (i > 0
            && path[i - 1] != '/') || (i + 2 < path.len() && path[i + 2] != '/')
}

/// Whether a configuration is that of a board.
pub open spec fn is_board(board: ConfigView) -> bool {
    &&& board.version == 1
    &&& is_bare(board.name)
    &&& board.columns.len() > 0
    &&& are_columns(board.columns)
    &&& exists|i: int| #[trigger] is_status(board.columns, i, board.default_status)
    &&& board.id_prefix.len() > 0
    &&& forall|i: int|
        0 <= i < board.id_prefix.len() ==> {
            let c = #[trigger] board.id_prefix[i];
            'a' <= c <= 'z' || 'A' <= c <= 'Z' || '0' <= c <= '9' || c == '_'
        }
    &&& is_below(board.cards_dir)
}

proof fn lemma_printed(s: Seq<char>)
    ensures
        text::has_control(s) == !is_printed(s),
{
    assert forall|i: int| 0 <= i < s.len() implies text::is_control(#[trigger] s[i]) == is_control(
        s[i],
    ) by {}
    if text::has_control(s) {
        let i = choose|i: int| 0 <= i < s.len() && text::is_control(#[trigger] s[i]);
        assert(is_control(s[i]));
    }
}

proof fn lemma_bare(s: Seq<char>)
    ensures
        is_bare(s) == (!text::is_blank(s) && text::trim(s) == s && !text::has_control(s)),
{
    lemma_printed(s);
    characters::trimming_strips(s);
    let drop = |c: char| text::is_space(c);
    if is_bare(s) {
        characters::bare_texts_are_kept(s, text::trim(s), drop);
        assert(!text::is_space(s[0]));
    }
    if text::trim(s) == s && s.len() > 0 {
        let (from, to) = choose|from: int, to: int|
            characters::strips_to(s, text::trim(s), drop, from, to);
        assert(from == 0 && to == s.len());
        assert(!drop(s[0]) && !drop(s[s.len() - 1]));
    }
}

proof fn lemma_column_names(columns: Seq<ColumnView>, i: int)
    requires
        0 <= i <= columns.len(),
    ensures
        config::columns_check(columns, i) is Ok <==> forall|j: int|
            i <= j < columns.len() ==> #[trigger] config::column_check(columns, j) is Ok,
    decreases columns.len() - i,
{
    if i < columns.len() {
        lemma_column_names(columns, i + 1);
        if config::columns_check(columns, i) is Ok {
            assert forall|j: int| i <= j < columns.len() implies #[trigger] config::column_check(
                columns,
                j,
            ) is Ok by {}
        }
        if config::column_check(columns, i) is Err {
            assert(!(config::column_check(columns, i) is Ok));
        }
    }
}

proof fn lemma_columns(columns: Seq<ColumnView>)
    ensures
        config::columns_check(columns, 0) is Ok <==> are_columns(columns),
{
    lemma_column_names(columns, 0);
    assert forall|i: int, j: int| 0 <= i < columns.len() && 0 <= j < columns.len() implies
        config::same_name((#[trigger] columns[i]).name, (#[trigger] columns[j]).name) == is_twin(
        columns[i],
        columns[j],
    ) by {
        characters::alike_is_same_letters(columns[i].name, columns[j].name);
    }
    assert forall|i: int| 0 <= i < columns.len() implies is_bare((#[trigger] columns[i]).name) == (
    !text::is_blank(columns[i].name) && text::trim(columns[i].name) == columns[i].name
        && !text::has_control(columns[i].name)) by {
        lemma_bare(columns[i].name);
    }
    if config::columns_check(columns, 0) is Ok {
        assert forall|i: int| 0 <= i < columns.len() implies is_bare((#[trigger] columns[i]).name)
            && columns[i].wip_limit != Some(0usize) by {
            assert(config::column_check(columns, i) is Ok);
        }
        assert forall|i: int, j: int| 0 <= i < j < columns.len() implies !is_twin(
            #[trigger] columns[i],
            #[trigger] columns[j],
        ) by {
            assert(config::column_check(columns, j) is Ok);
            assert(!config::named_before(columns, j));
        }
    }
    if are_columns(columns) {
        assert forall|j: int| 0 <= j < columns.len() implies #[trigger] config::column_check(
            columns,
            j,
        ) is Ok by {
            assert(is_bare(columns[j].name));
            if config::named_before(columns, j) {
                let i = choose|i: int|
                    0 <= i < j && config::same_name(
                        (#[trigger] columns[i]).name,
                        columns[j].name,
                    );
                assert(is_twin(columns[i], columns[j]));
            }
        }
    }
}

proof fn lemma_path(path: Seq<char>)
    ensures
        !text::has_control(path) && config::is_inner_path(path) <==> is_below(path),
{
    lemma_printed(path);
    reveal_strlit("..");
    if config::is_inner_path(path) {
        assert forall|i: int|
            0 <= i < path.len() - 1 && #[trigger] path[i] == '.' && path[i + 1] == '.' implies (i
            > 0 && path[i - 1] != '/') || (i + 2 < path.len() && path[i + 2] != '/') by {
            assert(path.subrange(i, i + 2) =~= ".."@);
            assert(!config::is_parent_segment(path, i));
        }
    }
    if is_below(path) {
        assert forall|i: int| 0 <= i < path.len() implies !config::is_parent_segment(path, i) by {
            if config::is_parent_segment(path, i) {
                assert(path.subrange(i, i + 2)[0] == '.');
                assert(path.subrange(i, i + 2)[1] == '.');
                assert(path[i] == '.' && path[i + 1] == '.');
            }
        }
    }
}

/// A status resolves to the name of the first column that it names, as the board spells it, and to
/// nothing where it names none.
pub proof fn statuses_resolve_to_columns(board: ConfigView, status: Seq<char>)
    ensures
        match config::status_of(board, status) {
            Some(name) => exists|i: int| #[trigger]
                is_status(board.columns, i, status) && board.columns[i].name == name && forall|
                    j: int,
                |
                    0 <= j < i ==> !#[trigger] is_status(board.columns, j, status),
            None => forall|j: int| !#[trigger] is_status(board.columns, j, status),
        },
{
    let bare = text::trim(status);
    characters::trimming_strips(status);
    config::lemma_column_at(board.columns, bare, 0);
    assert forall|j: int| 0 <= j < board.columns.len() implies #[trigger] is_status(
        board.columns,
        j,
        status,
    ) == text::alike(board.columns[j].name, bare) by {
        characters::alike_is_same_letters(board.columns[j].name, bare);
        if is_status(board.columns, j, status) {
            let other = choose|other: Seq<char>| #[trigger]
                characters::strips_space(status, other) && same_letters(
                    board.columns[j].name,
                    other,
                );
            characters::strips_to_one(status, bare, other, |c: char| text::is_space(c));
        }
    }
    if let Some(i) = config::column_at(board.columns, bare, 0) {
        assert(is_status(board.columns, i, status));
    }
}

/// A configuration is accepted just where it is that of a board.
pub proof fn boards_are_accepted(board: ConfigView)
    ensures
        config::config_check(board) is Ok <==> is_board(board),
{
    lemma_bare(board.name);
    lemma_columns(board.columns);
    lemma_path(board.cards_dir);
    statuses_resolve_to_columns(board, board.default_status);
    let prefix = board.id_prefix;
    if config::is_prefix(prefix) {
        characters::trimming_strips(prefix);
        assert(config::is_prefix_char(prefix[0]));
        assert(config::is_prefix_char(prefix[prefix.len() - 1]));
        characters::bare_texts_are_kept(prefix, text::trim(prefix), |c: char| text::is_space(c));
    }
}

/// A new board has the given name and the given columns, in their order and without white space
/// around them, starts cards in the first of them, limits none, and its ids begin with the given
/// letters made capital.
pub proof fn new_boards_are_as_given(name: Seq<char>, prefix: Seq<char>, statuses: Seq<Seq<char>>)
    ensures
        ({
            let board = config::new_config(name, prefix, statuses);
            &&& board.version == 1
            &&& characters::strips_space(name, board.name)
            &&& board.cards_dir == "cards"@
            &&& exists|bare: Seq<char>| #[trigger]
                characters::strips_space(prefix, bare) && same_letters(bare, board.id_prefix)
            &&& forall|i: int|
                0 <= i < board.id_prefix.len() ==> !('a' <= #[trigger] board.id_prefix[i] <= 'z')
            &&& board.columns.len() == statuses.len()
            &&& forall|i: int|
                0 <= i < statuses.len() ==> characters::strips_space(
                    statuses[i],
                    (#[trigger] board.columns[i]).name,
                ) && board.columns[i].wip_limit is None && board.columns[i].color is Some
            &&& statuses.len() > 0 ==> board.default_status == board.columns[0].name
        }),
{
    let board = config::new_config(name, prefix, statuses);
    characters::trimming_strips(name);
    characters::trimming_strips(prefix);
    characters::raised_letters_are_capital(text::trim(prefix));
    assert forall|i: int| 0 <= i < statuses.len() implies characters::strips_space(
        statuses[i],
        (#[trigger] board.columns[i]).name,
    ) && board.columns[i].wip_limit is None && board.columns[i].color is Some by {
        characters::trimming_strips(statuses[i]);
    }
}

/// The colors of new columns go round: a column has the color of the sixth one before it, and those
/// between have others.
pub proof fn colors_go_round(i: int, j: int)
    requires
        0 <= i < j,
    ensures
        j == i + 6 ==> config::column_color(i) == config::column_color(j),
        j < i + 6 ==> config::column_color(i) != config::column_color(j),
{
    reveal_strlit("gray");
    reveal_strlit("blue");
    reveal_strlit("yellow");
    reveal_strlit("magenta");
    reveal_strlit("green");
    reveal_strlit("cyan");
    assert("gray"@[0] != "blue"@[0]);
    assert("gray"@[1] != "green"@[1] || "gray"@[2] != "green"@[2]);
    assert("gray"@.len() == 4 && "green"@.len() == 5);
    assert("gray"@[0] == 'g' && "blue"@[0] == 'b' && "yellow"@[0] == 'y' && "magenta"@[0] == 'm'
        && "cyan"@[0] == 'c' && "green"@[0] == 'g');
}

/// The metadata of a card is accepted just where its id, its title and its status are more than
/// white space, and a title just where it holds no control character.
pub proof fn metadata_is_accepted(metadata: MetadataView)
    ensures
        model::metadata_check(metadata) is Ok <==> is_written(metadata.id) && is_written(
            metadata.title,
        ) && is_written(metadata.status),
        model::title_check(metadata.title) is Ok <==> is_printed(metadata.title),
{
    lemma_printed(metadata.title);
}

} // verus!
