//! The rules of a project: which cards can stand together, and what a new or changed card becomes.
//!
//! Nothing here touches a file. The caller reads the files, hands over what it read, and writes what
//! comes back.

use crate::change;
use crate::change::Change;
use crate::comments;
use crate::config;
use crate::config::{BoardConfig, ConfigView};
use crate::document;
use crate::error;
use crate::error::{Error, ErrorKind, Failure};
use crate::fields;
use crate::fields::Fields;
use crate::model;
use crate::model::{Card, CardMetadata, CardView, MetadataView};
use crate::outside;
use crate::text;
use crate::text::CharClass;
use vstd::prelude::*;
use vstd::slice::slice_subrange;

verus! {

/// The directory that holds a project.
pub const INTERNAL_DIR: &'static str = ".kbmd";

/// The configuration file in it.
pub const CONFIG_FILE: &'static str = "config.yml";

/// The lock file in it.
pub const LOCK_FILE: &'static str = ".lock";

/// What a new project ignores in Git.
pub const GITIGNORE: &'static str = ".lock\n*.tmp\n";

/// How far apart the ordinals of neighbors in a column are.
pub const ORDER_STEP: i64 = 1024;

/// The names of the columns.
pub open spec fn column_names(config: ConfigView) -> Seq<Seq<char>> {
    config.columns.map_values(|c: config::ColumnView| c.name)
}

/// A status is no column.
pub open spec fn no_status(status: Seq<char>, config: ConfigView) -> Failure {
    error::detailed(
        ErrorKind::UnknownStatus,
        status,
        text::listed(column_names(config), ", "@, config.columns.len()),
    )
}

/// Tells that a status is no column.
fn unknown_status(status: &str, config: &BoardConfig) -> (r: Error)
    ensures
        r@ == no_status(status@, config@),
{
    let mut names: Vec<String> = Vec::new();
    let ghost all = column_names(config@);
    let mut i: usize = 0;
    while i < config.columns.len()
        invariant
            i <= config.columns@.len(),
            all == column_names(config@),
            text::strings(names@) =~= all.take(i as int),
        decreases config.columns@.len() - i,
    {
        let name = text::copy_string(&config.columns[i].name);
        let ghost before = text::strings(names@);
        let ghost added = name@;
        assert(config@.columns[i as int] == config.columns@[i as int]@);
        assert(all[i as int] == added);
        names.push(name);
        assert(text::strings(names@) =~= before.push(added));
        assert(all.take(i + 1) =~= all.take(i as int).push(added));
        i += 1;
    }
    assert(all.take(i as int) =~= all);
    let valid = text::list_strings(&names, ", ");
    Error::detailed(ErrorKind::UnknownStatus, &text::chars_of(status), &text::chars_of(&valid))
}

/// Whether the statuses of the cards from `i` on are columns.
pub open spec fn statuses_check(cards: Seq<CardView>, config: ConfigView, i: int) -> Result<
    (),
    Failure,
>
    decreases cards.len() - i,
{
    if i < 0 || i >= cards.len() {
        Ok(())
    } else if config::status_of(config, cards[i].metadata.status) is None {
        Err(
            error::detailed(
                ErrorKind::InFile,
                cards[i].path,
                error::told(no_status(cards[i].metadata.status, config)),
            ),
        )
    } else {
        statuses_check(cards, config, i + 1)
    }
}

/// Whether a card has an id, whatever the case of its letters.
pub open spec fn has_id(card: CardView, id: Seq<char>) -> bool {
    text::alike(card.metadata.id, id)
}

/// How many of the first `n` cards have an id.
pub open spec fn count_id(cards: Seq<CardView>, id: Seq<char>, n: nat) -> nat
    decreases n,
{
    if n == 0 || n > cards.len() {
        0
    } else {
        count_id(cards, id, (n - 1) as nat) + if has_id(cards[n - 1], id) {
            1nat
        } else {
            0nat
        }
    }
}

/// The paths of the first `n` cards that have an id.
pub open spec fn paths_with(cards: Seq<CardView>, id: Seq<char>, n: nat) -> Seq<Seq<char>>
    decreases n,
{
    if n == 0 || n > cards.len() {
        Seq::empty()
    } else {
        let before = paths_with(cards, id, (n - 1) as nat);
        if has_id(cards[n - 1], id) {
            before.push(cards[n - 1].path)
        } else {
            before
        }
    }
}

/// The first card from `i` on whose id another card has.
pub open spec fn first_shared(cards: Seq<CardView>, i: int) -> Option<int>
    decreases cards.len() - i,
{
    if i < 0 || i >= cards.len() {
        None
    } else if count_id(cards, cards[i].metadata.id, cards.len()) > 1 {
        Some(i)
    } else {
        first_shared(cards, i + 1)
    }
}

/// What is demanded of the cards of a project: their statuses are columns, and no two have one id.
pub open spec fn collection_check(cards: Seq<CardView>, config: ConfigView) -> Result<(), Failure> {
    match statuses_check(cards, config, 0) {
        Err(failure) => Err(failure),
        Ok(_) => match first_shared(cards, 0) {
            None => Ok(()),
            Some(i) => {
                let id = cards[i].metadata.id;
                let paths = paths_with(cards, id, cards.len());
                Err(
                    error::detailed(
                        ErrorKind::DuplicateCards,
                        text::fold(id),
                        text::listed(paths, ", "@, paths.len()),
                    ),
                )
            },
        },
    }
}

/// Counts the cards that have an id.
fn count_cards(cards: &Vec<Card>, id: &str) -> (r: usize)
    ensures
        r == count_id(model::card_views(cards@), id@, cards@.len()),
        r <= cards@.len(),
{
    let ghost views = model::card_views(cards@);
    let mut count: usize = 0;
    let mut i: usize = 0;
    while i < cards.len()
        invariant
            i <= cards@.len(),
            count <= i,
            views == model::card_views(cards@),
            views.len() == cards@.len(),
            count == count_id(views, id@, i as nat),
        decreases cards@.len() - i,
    {
        assert(views[i as int] == cards@[i as int]@);
        if text::alike_strings(&cards[i].metadata.id, id) {
            count += 1;
        }
        i += 1;
    }
    count
}

/// Collects the paths of the cards that have an id.
fn collect_paths(cards: &Vec<Card>, id: &str) -> (r: Vec<String>)
    ensures
        text::strings(r@) == paths_with(model::card_views(cards@), id@, cards@.len()),
{
    let ghost views = model::card_views(cards@);
    let mut paths: Vec<String> = Vec::new();
    assert(text::strings(paths@) =~= Seq::empty());
    let mut i: usize = 0;
    while i < cards.len()
        invariant
            i <= cards@.len(),
            views == model::card_views(cards@),
            views.len() == cards@.len(),
            text::strings(paths@) == paths_with(views, id@, i as nat),
        decreases cards@.len() - i,
    {
        assert(views[i as int] == cards@[i as int]@);
        if text::alike_strings(&cards[i].metadata.id, id) {
            let path = text::copy_string(&cards[i].path);
            let ghost before = text::strings(paths@);
            let ghost added = path@;
            paths.push(path);
            assert(text::strings(paths@) =~= before.push(added));
        }
        i += 1;
    }
    paths
}

/// Checks the cards of a project.
pub fn validate_collection(cards: &Vec<Card>, config: &BoardConfig) -> (r: Result<(), Error>)
    ensures
        error::decides(r, collection_check(model::card_views(cards@), config@)),
{
    let ghost views = model::card_views(cards@);
    let mut i: usize = 0;
    while i < cards.len()
        invariant
            i <= cards@.len(),
            views == model::card_views(cards@),
            statuses_check(views, config@, i as int) == statuses_check(views, config@, 0),
        decreases cards@.len() - i,
    {
        assert(views[i as int] == cards@[i as int]@);
        if config.resolve_status(&cards[i].metadata.status).is_none() {
            let told = unknown_status(&cards[i].metadata.status, config).message();
            return Err(
                Error::detailed(
                    ErrorKind::InFile,
                    &text::chars_of(&cards[i].path),
                    &text::chars_of(&told),
                ),
            );
        }
        i += 1;
    }
    let mut i: usize = 0;
    while i < cards.len()
        invariant
            i <= cards@.len(),
            views == model::card_views(cards@),
            views.len() == cards@.len(),
            statuses_check(views, config@, 0) is Ok,
            first_shared(views, i as int) == first_shared(views, 0),
        decreases cards@.len() - i,
    {
        assert(views[i as int] == cards@[i as int]@);
        if count_cards(cards, &cards[i].metadata.id) > 1 {
            let paths = collect_paths(cards, &cards[i].metadata.id);
            let id = text::fold_string(&cards[i].metadata.id);
            let listed = text::list_strings(&paths, ", ");
            assert(text::strings(paths@).len() == paths@.len());
            return Err(
                Error::detailed(
                    ErrorKind::DuplicateCards,
                    &text::chars_of(&id),
                    &text::chars_of(&listed),
                ),
            );
        }
        i += 1;
    }
    Ok(())
}

/// The first card from `i` on that has an id.
pub open spec fn first_with(cards: Seq<CardView>, id: Seq<char>, i: int) -> Option<int>
    decreases cards.len() - i,
{
    if i < 0 || i >= cards.len() {
        None
    } else if has_id(cards[i], id) {
        Some(i)
    } else {
        first_with(cards, id, i + 1)
    }
}

/// The one card that has an id.
pub open spec fn card_with(cards: Seq<CardView>, id: Seq<char>) -> Result<CardView, Failure> {
    let count = count_id(cards, text::trim(id), cards.len());
    match first_with(cards, text::trim(id), 0) {
        None => Err(error::about(ErrorKind::CardNotFound, text::trim(id))),
        Some(i) => if count > 1 {
            Err(error::detailed(ErrorKind::AmbiguousCard, text::trim(id), text::decimal(count)))
        } else {
            Ok(cards[i])
        },
    }
}

/// Finds the one card that has an id.
pub fn find_unique_card(cards: &Vec<Card>, id: &str) -> (r: Result<Card, Error>)
    ensures
        error::agrees(r, card_with(model::card_views(cards@), id@)),
{
    let wanted = text::trim_string(id);
    let ghost views = model::card_views(cards@);
    let mut i: usize = 0;
    while i < cards.len()
        invariant
            i <= cards@.len(),
            views == model::card_views(cards@),
            wanted@ == text::trim(id@),
            first_with(views, wanted@, i as int) == first_with(views, wanted@, 0),
        decreases cards@.len() - i,
    {
        assert(views[i as int] == cards@[i as int]@);
        if text::alike_strings(&cards[i].metadata.id, &wanted) {
            let count = count_cards(cards, &wanted);
            if count > 1 {
                let count = text::decimal_of(count as u64);
                return Err(
                    Error::detailed(ErrorKind::AmbiguousCard, &text::chars_of(&wanted), &count),
                );
            }
            return Ok(cards[i].copied());
        }
        i += 1;
    }
    Err(Error::about(ErrorKind::CardNotFound, &text::chars_of(&wanted)))
}

/// The number in the id of a card, where it begins with a prefix and a hyphen.
pub open spec fn id_number(id: Seq<char>, prefix: Seq<char>) -> Option<u64> {
    let start = text::fold(prefix) + "-"@;
    if text::begins(text::fold(id), start) {
        text::number(text::fold(id).skip(start.len() as int))
    } else {
        None
    }
}

/// The largest number in the ids of the first `n` cards, or zero.
pub open spec fn largest_number(cards: Seq<CardView>, prefix: Seq<char>, n: nat) -> u64
    decreases n,
{
    if n == 0 || n > cards.len() {
        0
    } else {
        let before = largest_number(cards, prefix, (n - 1) as nat);
        match id_number(cards[n - 1].metadata.id, prefix) {
            Some(number) => if number > before {
                number
            } else {
                before
            },
            None => before,
        }
    }
}

/// The number of the next card.
pub open spec fn next_number(cards: Seq<CardView>, prefix: Seq<char>) -> Result<u64, Failure> {
    let largest = largest_number(cards, prefix, cards.len());
    if largest == u64::MAX {
        Err(error::plain(ErrorKind::IdsExhausted))
    } else {
        Ok((largest + 1) as u64)
    }
}

/// Finds the number of the next card.
pub fn next_id_number(cards: &Vec<Card>, prefix: &str) -> (r: Result<u64, Error>)
    ensures
        match (r, next_number(model::card_views(cards@), prefix@)) {
            (Ok(number), Ok(expected)) => number == expected,
            (Err(error), Err(failure)) => error@ == failure,
            _ => false,
        },
{
    let folded = text::fold_string(prefix);
    let mut start = text::chars_of(&folded);
    text::push_all(&mut start, &text::chars_of("-"));
    let ghost views = model::card_views(cards@);
    let mut largest: u64 = 0;
    let mut i: usize = 0;
    while i < cards.len()
        invariant
            i <= cards@.len(),
            views == model::card_views(cards@),
            views.len() == cards@.len(),
            start@ == text::fold(prefix@) + "-"@,
            largest == largest_number(views, prefix@, i as nat),
        decreases cards@.len() - i,
    {
        assert(views[i as int] == cards@[i as int]@);
        let id = text::chars_of(&text::fold_string(&cards[i].metadata.id));
        if text::stands_at(&id, &start, 0) {
            let rest = vstd::slice::slice_subrange(id.as_slice(), start.len(), id.len());
            assert(rest@ =~= id@.skip(start@.len() as int));
            if let Some(number) = text::parse_number(rest) {
                if number > largest {
                    largest = number;
                }
            }
        }
        i += 1;
    }
    if largest == u64::MAX {
        return Err(Error::plain(ErrorKind::IdsExhausted));
    }
    Ok(largest + 1)
}

/// Whether a card is in a column.
pub open spec fn in_column(card: CardView, status: Seq<char>) -> bool {
    text::alike(card.metadata.status, status)
}

/// The largest ordinal in a column among the first `n` cards.
pub open spec fn largest_ordinal(cards: Seq<CardView>, status: Seq<char>, n: nat) -> Option<i64>
    decreases n,
{
    if n == 0 || n > cards.len() {
        None
    } else {
        let before = largest_ordinal(cards, status, (n - 1) as nat);
        match (cards[n - 1].metadata.ordinal, before) {
            (Some(ordinal), Some(largest)) => if in_column(cards[n - 1], status) && ordinal
                > largest {
                Some(ordinal)
            } else {
                Some(largest)
            },
            (Some(ordinal), None) => if in_column(cards[n - 1], status) {
                Some(ordinal)
            } else {
                None
            },
            (None, _) => before,
        }
    }
}

/// The ordinal of the next card in a column.
pub open spec fn ordinal_after(cards: Seq<CardView>, status: Seq<char>) -> Result<i64, Failure> {
    let largest = match largest_ordinal(cards, status, cards.len()) {
        Some(ordinal) => ordinal,
        None => 0i64,
    };
    if largest + ORDER_STEP > i64::MAX {
        Err(error::about(ErrorKind::OrdinalsExhausted, status))
    } else {
        Ok((largest + ORDER_STEP) as i64)
    }
}

/// Finds the ordinal of the next card in a column.
pub fn next_ordinal(cards: &Vec<Card>, status: &str) -> (r: Result<i64, Error>)
    ensures
        match (r, ordinal_after(model::card_views(cards@), status@)) {
            (Ok(ordinal), Ok(expected)) => ordinal == expected,
            (Err(error), Err(failure)) => error@ == failure,
            _ => false,
        },
{
    let ghost views = model::card_views(cards@);
    let mut largest: Option<i64> = None;
    let mut i: usize = 0;
    while i < cards.len()
        invariant
            i <= cards@.len(),
            views == model::card_views(cards@),
            views.len() == cards@.len(),
            largest == largest_ordinal(views, status@, i as nat),
        decreases cards@.len() - i,
    {
        assert(views[i as int] == cards@[i as int]@);
        if text::alike_strings(&cards[i].metadata.status, status) {
            if let Some(ordinal) = cards[i].metadata.ordinal {
                largest = match largest {
                    Some(known) => if ordinal > known {
                        Some(ordinal)
                    } else {
                        Some(known)
                    },
                    None => Some(ordinal),
                };
            }
        }
        i += 1;
    }
    let last: i64 = match largest {
        Some(ordinal) => ordinal,
        None => 0,
    };
    match last.checked_add(ORDER_STEP) {
        Some(next) => Ok(next),
        None => Err(Error::about(ErrorKind::OrdinalsExhausted, &text::chars_of(status))),
    }
}

/// Whether a card counts in a column while another one may be on the move.
pub open spec fn counts(card: CardView, status: Seq<char>, moving: Option<Seq<char>>) -> bool {
    in_column(card, status) && !(moving matches Some(id) && has_id(card, id))
}

/// How many of the first `n` cards count in a column.
pub open spec fn count_in_column(
    cards: Seq<CardView>,
    status: Seq<char>,
    moving: Option<Seq<char>>,
    n: nat,
) -> nat
    decreases n,
{
    if n == 0 || n > cards.len() {
        0
    } else {
        count_in_column(cards, status, moving, (n - 1) as nat) + if counts(
            cards[n - 1],
            status,
            moving,
        ) {
            1nat
        } else {
            0nat
        }
    }
}

/// Whether a column has room for a card.
pub open spec fn room_check(
    cards: Seq<CardView>,
    config: ConfigView,
    status: Seq<char>,
    moving: Option<Seq<char>>,
) -> Result<(), Failure> {
    match config::column_at(config.columns, status, 0) {
        None => Err(no_status(status, config)),
        Some(i) => match config.columns[i].wip_limit {
            None => Ok(()),
            Some(limit) => if count_in_column(cards, status, moving, cards.len()) >= limit {
                Err(
                    error::detailed(
                        ErrorKind::WipLimit,
                        config.columns[i].name,
                        text::decimal(limit as nat),
                    ),
                )
            } else {
                Ok(())
            },
        },
    }
}

/// A text of an optional string.
pub open spec fn optional(value: Option<&String>) -> Option<Seq<char>> {
    match value {
        Some(value) => Some(value@),
        None => None,
    }
}

/// Counts the cards in a column.
pub fn count_column(cards: &Vec<Card>, status: &str, moving: Option<&String>) -> (r: usize)
    ensures
        r == count_in_column(model::card_views(cards@), status@, optional(moving), cards@.len()),
        r <= cards@.len(),
{
    let ghost views = model::card_views(cards@);
    let mut count: usize = 0;
    let mut i: usize = 0;
    while i < cards.len()
        invariant
            i <= cards@.len(),
            count <= i,
            views == model::card_views(cards@),
            views.len() == cards@.len(),
            count == count_in_column(views, status@, optional(moving), i as nat),
        decreases cards@.len() - i,
    {
        assert(views[i as int] == cards@[i as int]@);
        let moves = match moving {
            Some(id) => text::alike_strings(&cards[i].metadata.id, id),
            None => false,
        };
        if text::alike_strings(&cards[i].metadata.status, status) && !moves {
            count += 1;
        }
        i += 1;
    }
    count
}

/// Checks that a column has room for a card.
pub fn enforce_wip_limit(
    cards: &Vec<Card>,
    config: &BoardConfig,
    status: &str,
    moving: Option<&String>,
) -> (r: Result<(), Error>)
    ensures
        error::decides(
            r,
            room_check(model::card_views(cards@), config@, status@, optional(moving)),
        ),
{
    match config.column_index(status) {
        None => Err(unknown_status(status, config)),
        Some(i) => {
            assert(config@.columns[i as int] == config.columns@[i as int]@);
            match config.columns[i].wip_limit {
                None => Ok(()),
                Some(limit) => {
                    if count_column(cards, status, moving) >= limit {
                        let limit = text::decimal_of(limit as u64);
                        let name = text::chars_of(&config.columns[i].name);
                        return Err(Error::detailed(ErrorKind::WipLimit, &name, &limit));
                    }
                    Ok(())
                },
            }
        },
    }
}

/// The values from `i` on, trimmed, that are neither empty nor kept already, behind those kept.
pub open spec fn kept(values: Seq<Seq<char>>, i: int, done: Seq<Seq<char>>) -> Seq<Seq<char>>
    decreases values.len() - i,
{
    if i < 0 || i >= values.len() {
        done
    } else {
        let value = text::trim(values[i]);
        if value.len() == 0 || done.contains(value) {
            kept(values, i + 1, done)
        } else {
            kept(values, i + 1, done.push(value))
        }
    }
}

/// The values, trimmed, without empty ones and repetitions.
pub open spec fn distinct(values: Seq<Seq<char>>) -> Seq<Seq<char>> {
    kept(values, 0, Seq::empty())
}

/// Whether a string is in a list.
pub fn is_listed(list: &Vec<String>, value: &str) -> (r: bool)
    ensures
        r == text::strings(list@).contains(value@),
{
    let ghost views = text::strings(list@);
    let mut i: usize = 0;
    while i < list.len()
        invariant
            i <= list@.len(),
            views == text::strings(list@),
            forall|k: int| 0 <= k < i ==> #[trigger] views[k] != value@,
        decreases list@.len() - i,
    {
        assert(views[i as int] == list@[i as int]@);
        if text::same_string(&list[i], value) {
            return true;
        }
        i += 1;
    }
    false
}

/// Trims values and drops empty ones and repetitions.
pub fn unique_nonempty(values: &Vec<String>) -> (r: Vec<String>)
    ensures
        text::strings(r@) == distinct(text::strings(values@)),
{
    let ghost views = text::strings(values@);
    let mut done: Vec<String> = Vec::new();
    assert(text::strings(done@) =~= Seq::empty());
    let mut i: usize = 0;
    while i < values.len()
        invariant
            i <= values@.len(),
            views == text::strings(values@),
            kept(views, i as int, text::strings(done@)) == distinct(views),
        decreases values@.len() - i,
    {
        assert(views[i as int] == values@[i as int]@);
        let value = text::trim_string(&values[i]);
        if text::chars_of(&value).len() > 0 && !is_listed(&done, &value) {
            let ghost before = text::strings(done@);
            let ghost added = value@;
            done.push(value);
            assert(text::strings(done@) =~= before.push(added));
        }
        i += 1;
    }
    done
}

/// What is demanded of custom fields: none has the name of a card field.
pub open spec fn fields_check(extra: Map<Seq<char>, Seq<char>>) -> Result<(), Failure> {
    match fields::first_reserved(extra) {
        Some(key) => Err(error::about(ErrorKind::ReservedField, key)),
        None => Ok(()),
    }
}

/// Checks custom fields.
pub fn reject_reserved_extra_keys(extra: &Fields) -> (r: Result<(), Error>)
    ensures
        error::decides(r, fields_check(extra@)),
{
    match extra.reserved_key() {
        Some(key) => Err(Error::about(ErrorKind::ReservedField, &text::chars_of(key))),
        None => Ok(()),
    }
}

/// A card file as it was read, as specifications speak of it.
pub enum FileView {
    Card(CardView),
    Broken { path: Seq<char>, message: Seq<char> },
}

/// A card file as it was read.
#[derive(Debug, PartialEq, Eq)]
pub enum LoadedFile {
    /// A card.
    Card(Card),
    /// A file that holds no card, and what is wrong with it.
    Broken { path: String, message: String },
}

impl View for LoadedFile {
    type V = FileView;

    open spec fn view(&self) -> FileView {
        match self {
            LoadedFile::Card(card) => FileView::Card(card@),
            LoadedFile::Broken { path, message } => FileView::Broken {
                path: path@,
                message: message@,
            },
        }
    }
}

/// The files in a list.
pub open spec fn file_views(files: Seq<LoadedFile>) -> Seq<FileView> {
    files.map_values(|f: LoadedFile| f@)
}

/// The cards in the first `n` files.
pub open spec fn cards_in(files: Seq<FileView>, n: nat) -> Seq<CardView>
    decreases n,
{
    if n == 0 || n > files.len() {
        Seq::empty()
    } else {
        let before = cards_in(files, (n - 1) as nat);
        match files[n - 1] {
            FileView::Card(card) => before.push(card),
            FileView::Broken { .. } => before,
        }
    }
}

/// All cards in files.
pub open spec fn all_cards(files: Seq<FileView>) -> Seq<CardView> {
    cards_in(files, files.len())
}

/// What is wrong with the first broken file from `i` on.
pub open spec fn first_broken(files: Seq<FileView>, i: int) -> Option<Seq<char>>
    decreases files.len() - i,
{
    if i < 0 || i >= files.len() {
        None
    } else {
        match files[i] {
            FileView::Broken { message, .. } => Some(message),
            FileView::Card(_) => first_broken(files, i + 1),
        }
    }
}

/// Collects the cards in files.
pub fn loaded_cards(files: &Vec<LoadedFile>) -> (r: Vec<Card>)
    ensures
        model::card_views(r@) == all_cards(file_views(files@)),
{
    let ghost views = file_views(files@);
    let mut cards: Vec<Card> = Vec::new();
    assert(model::card_views(cards@) =~= Seq::empty());
    let mut i: usize = 0;
    while i < files.len()
        invariant
            i <= files@.len(),
            views == file_views(files@),
            views.len() == files@.len(),
            model::card_views(cards@) == cards_in(views, i as nat),
        decreases files@.len() - i,
    {
        assert(views[i as int] == files@[i as int]@);
        match &files[i] {
            LoadedFile::Card(card) => {
                let copy = card.copied();
                let ghost before = model::card_views(cards@);
                let ghost added = copy@;
                cards.push(copy);
                assert(model::card_views(cards@) =~= before.push(added));
            },
            LoadedFile::Broken { .. } => {},
        }
        i += 1;
    }
    cards
}

/// Finds what is wrong with the first broken file.
fn find_broken(files: &Vec<LoadedFile>) -> (r: Option<String>)
    ensures
        match r {
            Some(message) => first_broken(file_views(files@), 0) == Some(message@),
            None => first_broken(file_views(files@), 0) is None,
        },
{
    let ghost views = file_views(files@);
    let mut i: usize = 0;
    while i < files.len()
        invariant
            i <= files@.len(),
            views == file_views(files@),
            first_broken(views, i as int) == first_broken(views, 0),
        decreases files@.len() - i,
    {
        assert(views[i as int] == files@[i as int]@);
        match &files[i] {
            LoadedFile::Broken { message, .. } => {
                return Some(text::copy_string(message));
            },
            LoadedFile::Card(_) => {},
        }
        i += 1;
    }
    None
}

/// The cards in files that all hold one and can stand together.
pub open spec fn collected(files: Seq<FileView>, config: ConfigView) -> Result<
    Seq<CardView>,
    Failure,
> {
    match first_broken(files, 0) {
        Some(message) => Err(error::about(ErrorKind::BrokenCard, message)),
        None => match collection_check(all_cards(files), config) {
            Err(failure) => Err(failure),
            Ok(_) => Ok(all_cards(files)),
        },
    }
}

/// Collects the cards in files that all hold one and can stand together.
fn collect(files: &Vec<LoadedFile>, config: &BoardConfig) -> (r: Result<Vec<Card>, Error>)
    ensures
        match (r, collected(file_views(files@), config@)) {
            (Ok(cards), Ok(expected)) => model::card_views(cards@) == expected,
            (Err(error), Err(failure)) => error@ == failure,
            _ => false,
        },
{
    if let Some(message) = find_broken(files) {
        return Err(Error::about(ErrorKind::BrokenCard, &text::chars_of(&message)));
    }
    let cards = loaded_cards(files);
    match validate_collection(&cards, config) {
        Ok(_) => Ok(cards),
        Err(error) => Err(error),
    }
}

/// The place of a card's column, behind all columns where it has none.
pub open spec fn column_rank(card: CardView, config: ConfigView) -> int {
    match config::column_at(config.columns, card.metadata.status, 0) {
        Some(i) => i,
        None => usize::MAX as int,
    }
}

/// The ordinal of a card, the largest one where it has none.
pub open spec fn ordinal_rank(card: CardView) -> i64 {
    match card.metadata.ordinal {
        Some(ordinal) => ordinal,
        None => i64::MAX,
    }
}

/// Whether a card comes before another one: by column, then by ordinal, then by id.
pub open spec fn goes_before(a: CardView, b: CardView, config: ConfigView) -> bool {
    let (x, y) = (column_rank(a, config), column_rank(b, config));
    let (m, n) = (ordinal_rank(a), ordinal_rank(b));
    x < y || (x == y && (m < n || (m == n && text::precedes(a.metadata.id, b.metadata.id))))
}

/// Whether cards are in order.
pub open spec fn in_card_order(cards: Seq<CardView>, config: ConfigView) -> bool {
    forall|i: int, j: int|
        0 <= i < j < cards.len() ==> !goes_before(
            #[trigger] cards[j],
            #[trigger] cards[i],
            config,
        )
}

proof fn lemma_goes_before(a: CardView, b: CardView, c: CardView, config: ConfigView)
    ensures
        goes_before(a, b, config) && goes_before(b, c, config) ==> goes_before(a, c, config),
        !goes_before(a, a, config),
        !goes_before(a, b, config) && !goes_before(b, c, config) ==> !goes_before(a, c, config),
{
    let (x, y, z) = (a.metadata.id, b.metadata.id, c.metadata.id);
    text::lemma_precedes_self(x);
    if text::precedes(x, y) && text::precedes(y, z) {
        text::lemma_precedes_transitive(x, y, z);
    }
    text::lemma_precedes_total(x, y);
    text::lemma_precedes_total(y, z);
    if text::precedes(x, z) && text::precedes(z, y) {
        text::lemma_precedes_transitive(x, z, y);
    }
    if text::precedes(y, x) && text::precedes(x, z) {
        text::lemma_precedes_transitive(y, x, z);
    }
}

/// Whether a card comes before another one.
fn card_goes_before(a: &Card, b: &Card, config: &BoardConfig) -> (r: bool)
    ensures
        r == goes_before(a@, b@, config@),
{
    let x: usize = match config.column_index(&a.metadata.status) {
        Some(i) => i,
        None => usize::MAX,
    };
    let y: usize = match config.column_index(&b.metadata.status) {
        Some(i) => i,
        None => usize::MAX,
    };
    if x != y {
        return x < y;
    }
    let m: i64 = match a.metadata.ordinal {
        Some(ordinal) => ordinal,
        None => i64::MAX,
    };
    let n: i64 = match b.metadata.ordinal {
        Some(ordinal) => ordinal,
        None => i64::MAX,
    };
    if m != n {
        return m < n;
    }
    text::comes_before(&text::chars_of(&a.metadata.id), &text::chars_of(&b.metadata.id))
}

/// Finds the first card that no other one comes before.
fn find_first(cards: &Vec<Card>, config: &BoardConfig) -> (r: usize)
    requires
        cards@.len() > 0,
    ensures
        r < cards@.len(),
        forall|k: int|
            0 <= k < cards@.len() ==> !goes_before(
                #[trigger] model::card_views(cards@)[k],
                model::card_views(cards@)[r as int],
                config@,
            ),
{
    let ghost views = model::card_views(cards@);
    let mut best: usize = 0;
    let mut i: usize = 1;
    proof {
        lemma_goes_before(views[0], views[0], views[0], config@);
    }
    while i < cards.len()
        invariant
            1 <= i <= cards@.len(),
            best < i,
            views == model::card_views(cards@),
            forall|k: int|
                0 <= k < i ==> !goes_before(#[trigger] views[k], views[best as int], config@),
        decreases cards@.len() - i,
    {
        assert(views[i as int] == cards@[i as int]@);
        assert(views[best as int] == cards@[best as int]@);
        if card_goes_before(&cards[i], &cards[best], config) {
            proof {
                assert forall|k: int| 0 <= k < i + 1 implies !goes_before(
                    #[trigger] views[k],
                    views[i as int],
                    config@,
                ) by {
                    lemma_goes_before(views[k], views[i as int], views[best as int], config@);
                }
            }
            best = i;
        }
        i += 1;
    }
    best
}

/// Puts cards in order.
pub fn sort_cards(cards: Vec<Card>, config: &BoardConfig) -> (r: Vec<Card>)
    ensures
        in_card_order(model::card_views(r@), config@),
        model::card_views(r@).to_multiset() == model::card_views(cards@).to_multiset(),
{
    let ghost all = model::card_views(cards@).to_multiset();
    let mut rest = cards;
    let mut out: Vec<Card> = Vec::new();
    proof {
        assert(model::card_views(out@) =~= Seq::empty());
        model::card_views(out@).to_multiset_ensures();
        assert(model::card_views(out@).to_multiset() =~= vstd::multiset::Multiset::empty());
        assert(model::card_views(out@).to_multiset().add(model::card_views(rest@).to_multiset())
            =~= all);
    }
    while rest.len() > 0
        invariant
            model::card_views(out@).to_multiset().add(model::card_views(rest@).to_multiset())
                == all,
            in_card_order(model::card_views(out@), config@),
            forall|i: int, k: int|
                0 <= i < out@.len() && 0 <= k < rest@.len() ==> !goes_before(
                    #[trigger] model::card_views(rest@)[k],
                    #[trigger] model::card_views(out@)[i],
                    config@,
                ),
        decreases rest@.len(),
    {
        let ghost before = model::card_views(out@);
        let ghost left = model::card_views(rest@);
        let first = find_first(&rest, config);
        let card = rest.remove(first);
        let ghost added = card@;
        assert(added == left[first as int]);
        out.push(card);
        proof {
            assert(model::card_views(out@) =~= before.push(added));
            assert(model::card_views(rest@) =~= left.remove(first as int));
            assert(left.contains(added));
            left.to_multiset_ensures();
            before.to_multiset_ensures();
            assert(left.to_multiset().count(added) > 0);
            assert(before.push(added).to_multiset() =~= before.to_multiset().insert(added));
            assert(left.remove(first as int).to_multiset() =~= left.to_multiset().remove(added));
            assert(before.to_multiset().insert(added).add(left.to_multiset().remove(added))
                =~= before.to_multiset().add(left.to_multiset()));
            let now = model::card_views(out@);
            let then = model::card_views(rest@);
            assert forall|i: int, k: int|
                0 <= i < now.len() && 0 <= k < then.len() implies !goes_before(
                #[trigger] then[k],
                #[trigger] now[i],
                config@,
            ) by {
                let old_k = if k < first {
                    k
                } else {
                    k + 1
                };
                assert(then[k] == left[old_k]);
                if i < before.len() {
                    assert(now[i] == before[i]);
                }
            }
            assert forall|i: int, j: int| 0 <= i < j < now.len() implies !goes_before(
                #[trigger] now[j],
                #[trigger] now[i],
                config@,
            ) by {
                assert(now[i] == before[i]);
                if j < before.len() {
                    assert(now[j] == before[j]);
                }
            }
        }
    }
    proof {
        assert(model::card_views(rest@) =~= Seq::empty());
        model::card_views(rest@).to_multiset_ensures();
        assert(model::card_views(rest@).to_multiset() =~= vstd::multiset::Multiset::empty());
        assert(model::card_views(out@).to_multiset() =~= all);
    }
    out
}

/// A project as specifications speak of it.
#[verifier::ext_equal]
pub struct ProjectView {
    pub root: Seq<char>,
    pub internal_dir: Seq<char>,
    pub config_path: Seq<char>,
    pub cards_dir: Seq<char>,
    pub config: ConfigView,
}

/// A project: where it is, and its configuration.
#[derive(Clone, Debug, PartialEq, Eq)]
pub struct Project {
    pub root: String,
    pub internal_dir: String,
    pub config_path: String,
    pub cards_dir: String,
    pub config: BoardConfig,
}

impl View for Project {
    type V = ProjectView;

    open spec fn view(&self) -> ProjectView {
        ProjectView {
            root: self.root@,
            internal_dir: self.internal_dir@,
            config_path: self.config_path@,
            cards_dir: self.cards_dir@,
            config: self.config@,
        }
    }
}

/// A path below a directory.
pub open spec fn below(directory: Seq<char>, name: Seq<char>) -> Seq<char> {
    if directory.len() == 0 || directory.last() == '/' {
        directory + name
    } else {
        directory + "/"@ + name
    }
}

/// Writes a path below a directory.
pub fn path_below(directory: &str, name: &str) -> (r: String)
    ensures
        r@ == below(directory@, name@),
{
    let mut out = text::chars_of(directory);
    if out.len() > 0 && out[out.len() - 1] != '/' {
        text::push_all(&mut out, &text::chars_of("/"));
    }
    text::push_all(&mut out, &text::chars_of(name));
    text::string_of(&out)
}

/// The project in a directory with a configuration.
pub open spec fn project_at(root: Seq<char>, config: ConfigView) -> ProjectView {
    let internal_dir = below(root, INTERNAL_DIR@);
    ProjectView {
        root,
        internal_dir,
        config_path: below(internal_dir, CONFIG_FILE@),
        cards_dir: below(internal_dir, config.cards_dir),
        config,
    }
}

/// A new card as specifications speak of it.
#[verifier::ext_equal]
pub struct CreateView {
    pub title: Seq<char>,
    pub status: Option<Seq<char>>,
    pub body: Seq<char>,
    pub labels: Seq<Seq<char>>,
    pub assignees: Seq<Seq<char>>,
    pub extra: Map<Seq<char>, Seq<char>>,
}

/// What a new card is made of.
#[derive(Debug, PartialEq, Eq)]
pub struct CreateCard {
    pub title: String,
    pub status: Option<String>,
    pub body: String,
    pub labels: Vec<String>,
    pub assignees: Vec<String>,
    pub extra: Fields,
}

impl View for CreateCard {
    type V = CreateView;

    open spec fn view(&self) -> CreateView {
        CreateView {
            title: self.title@,
            status: match self.status {
                Some(status) => Some(status@),
                None => None,
            },
            body: self.body@,
            labels: text::strings(self.labels@),
            assignees: text::strings(self.assignees@),
            extra: self.extra@,
        }
    }
}

impl Default for CreateCard {
    fn default() -> (r: CreateCard)
        ensures
            r@ == (CreateView {
                title: Seq::empty(),
                status: None,
                body: Seq::empty(),
                labels: Seq::empty(),
                assignees: Seq::empty(),
                extra: Map::empty(),
            }),
    {
        let labels: Vec<String> = Vec::new();
        let assignees: Vec<String> = Vec::new();
        assert(text::strings(labels@) =~= Seq::empty());
        CreateCard {
            title: String::new(),
            status: None,
            body: String::new(),
            labels,
            assignees,
            extra: Fields::new(),
        }
    }
}

/// A card that is to be written, as specifications speak of it.
#[verifier::ext_equal]
pub struct WriteView {
    pub card: CardView,
    pub body: Seq<char>,
}

/// A card that is to be written. Its file gets the metadata of the card and the body beside it; the
/// card itself holds the body without the line endings around it.
#[derive(Debug, PartialEq, Eq)]
pub struct CardWrite {
    pub card: Card,
    pub body: String,
}

impl View for CardWrite {
    type V = WriteView;

    open spec fn view(&self) -> WriteView {
        WriteView { card: self.card@, body: self.body@ }
    }
}

/// A card with a body, ready to be written.
pub open spec fn written(metadata: MetadataView, body: Seq<char>, path: Seq<char>) -> WriteView {
    WriteView {
        card: CardView { metadata, body: text::trim_both(body, CharClass::LineEnd), path },
        body,
    }
}

/// The metadata of a new card.
pub open spec fn created_metadata(
    config: ConfigView,
    input: CreateView,
    status: Seq<char>,
    number: u64,
    ordinal: i64,
    time: Seq<char>,
) -> MetadataView {
    MetadataView {
        labels: distinct(input.labels),
        assignees: distinct(input.assignees),
        extra: input.extra,
        ..model::new_metadata(
            text::raise(config.id_prefix) + "-"@ + text::decimal(number as nat),
            text::trim(input.title),
            status,
            ordinal,
            time,
        )
    }
}

/// What a new card becomes among the cards of a project, at a time.
pub open spec fn created(
    project: ProjectView,
    cards: Seq<CardView>,
    input: CreateView,
    time: Seq<char>,
) -> Result<WriteView, Failure> {
    let config = project.config;
    let wanted = match input.status {
        Some(status) => status,
        None => config.default_status,
    };
    match config::status_of(config, wanted) {
        None => Err(no_status(wanted, config)),
        Some(status) => match (
            room_check(cards, config, status, None),
            next_number(cards, config.id_prefix),
            ordinal_after(cards, status),
        ) {
            (Err(failure), _, _) => Err(failure),
            (_, Err(failure), _) => Err(failure),
            (_, _, Err(failure)) => Err(failure),
            (Ok(_), Ok(number), Ok(ordinal)) => {
                let metadata = created_metadata(config, input, status, number, ordinal, time);
                match (
                    fields_check(input.extra),
                    model::metadata_check(metadata),
                    model::title_check(metadata.title),
                ) {
                    (Err(failure), _, _) => Err(failure),
                    (_, Err(failure), _) => Err(failure),
                    (_, _, Err(failure)) => Err(failure),
                    _ => Ok(
                        written(
                            metadata,
                            input.body,
                            below(project.cards_dir, metadata.id + ".md"@),
                        ),
                    ),
                }
            },
        },
    }
}

/// What creating a card in a project with the given files gives at a time.
pub open spec fn creation(
    project: ProjectView,
    files: Seq<FileView>,
    input: CreateView,
    time: Seq<char>,
) -> Result<WriteView, Failure> {
    if text::is_blank(input.title) {
        Err(error::plain(ErrorKind::EmptyCardTitle))
    } else {
        match collected(files, project.config) {
            Err(failure) => Err(failure),
            Ok(cards) => created(project, cards, input, time),
        }
    }
}

/// A changed card with its status in canonical spelling, at the end of its column where that is
/// another one than before.
pub open spec fn placed(
    config: ConfigView,
    cards: Seq<CardView>,
    previous: Seq<char>,
    metadata: MetadataView,
) -> Result<MetadataView, Failure> {
    match config::status_of(config, metadata.status) {
        None => Err(no_status(metadata.status, config)),
        Some(status) => if text::alike(previous, status) {
            Ok(MetadataView { status, ..metadata })
        } else {
            match (
                room_check(cards, config, status, Some(metadata.id)),
                ordinal_after(cards, status),
            ) {
                (Err(failure), _) => Err(failure),
                (_, Err(failure)) => Err(failure),
                (Ok(_), Ok(ordinal)) => Ok(
                    MetadataView { status, ordinal: Some(ordinal), ..metadata },
                ),
            }
        },
    }
}

/// What is demanded of the title of a changed card: where it is another one than before, that a card
/// can be given it.
pub open spec fn retitling_check(previous: CardView, card: CardView) -> Result<(), Failure> {
    if card.metadata.title == previous.metadata.title {
        Ok(())
    } else {
        model::title_check(text::trim(card.metadata.title))
    }
}

/// What is demanded of the body of a changed card: where it is another one than before, that its
/// comments are in order.
pub open spec fn rewriting_check(previous: CardView, card: CardView) -> Result<(), Failure> {
    if card.body == previous.body {
        Ok(())
    } else {
        match document::document(card.body) {
            Err(failure) => Err(failure),
            Ok(_) => Ok(()),
        }
    }
}

/// What a changed card becomes among the cards of a project, at a time.
pub open spec fn settled(
    config: ConfigView,
    cards: Seq<CardView>,
    previous: CardView,
    card: CardView,
    time: Seq<char>,
) -> Result<WriteView, Failure> {
    let metadata = MetadataView { title: text::trim(card.metadata.title), ..card.metadata };
    match (
        model::metadata_check(metadata),
        retitling_check(previous, card),
        fields_check(metadata.extra),
    ) {
        (Err(failure), _, _) => Err(failure),
        (_, Err(failure), _) => Err(failure),
        (_, _, Err(failure)) => Err(failure),
        _ => match placed(config, cards, previous.metadata.status, metadata) {
            Err(failure) => Err(failure),
            Ok(metadata) => match rewriting_check(previous, card) {
                Err(failure) => Err(failure),
                Ok(_) => Ok(
                    written(
                        MetadataView {
                            labels: distinct(metadata.labels),
                            assignees: distinct(metadata.assignees),
                            updated_date: time,
                            ..metadata
                        },
                        card.body,
                        card.path,
                    ),
                ),
            },
        },
    }
}

/// The card that is to be changed among the cards in files.
pub open spec fn begun(files: Seq<FileView>, config: ConfigView, id: Seq<char>) -> Result<
    CardView,
    Failure,
> {
    match collected(files, config) {
        Err(failure) => Err(failure),
        Ok(cards) => card_with(cards, id),
    }
}

/// What changing a card in a project with the given files gives at a time.
pub open spec fn update(
    project: ProjectView,
    files: Seq<FileView>,
    id: Seq<char>,
    change: Change,
    time: Seq<char>,
) -> Result<WriteView, Failure> {
    match begun(files, project.config, id) {
        Err(failure) => Err(failure),
        Ok(card) => match change::changed(card, change) {
            Err(failure) => Err(failure),
            Ok(changed) => settled(project.config, all_cards(files), card, changed, time),
        },
    }
}

/// Whether the date in a card that is to be written can be the present time: it has the shape of one
/// that `model::now` gives. A failure holds no date.
pub open spec fn is_dated(result: Result<CardWrite, Error>, time: Seq<char>) -> bool {
    result is Ok ==> outside::is_utc(time, 20)
}

/// Whether a result is that of creating a card at some time.
pub open spec fn is_creation(
    project: ProjectView,
    files: Seq<FileView>,
    input: CreateView,
    result: Result<CardWrite, Error>,
) -> bool {
    exists|time: Seq<char>|
        is_dated(result, time) && error::agrees(
            result,
            #[trigger] creation(project, files, input, time),
        )
}

/// Whether a result is that of changing a card at some time.
pub open spec fn is_update(
    project: ProjectView,
    files: Seq<FileView>,
    id: Seq<char>,
    change: Change,
    result: Result<CardWrite, Error>,
) -> bool {
    exists|time: Seq<char>|
        is_dated(result, time) && error::agrees(
            result,
            #[trigger] update(project, files, id, change, time),
        )
}

/// Whether a result is that of settling a changed card at some time.
pub open spec fn is_settled(
    config: ConfigView,
    cards: Seq<CardView>,
    previous: CardView,
    card: CardView,
    result: Result<CardWrite, Error>,
) -> bool {
    exists|time: Seq<char>|
        is_dated(result, time) && error::agrees(
            result,
            #[trigger] settled(config, cards, previous, card, time),
        )
}

/// Puts together a card that is to be written.
fn write_card(metadata: CardMetadata, body: String, path: String) -> (r: CardWrite)
    ensures
        r@ == written(metadata@, body@, path@),
{
    let chars = text::chars_of(&body);
    let shown = text::string_of(text::trimmed(&chars, CharClass::LineEnd));
    CardWrite { card: Card { metadata, body: shown, path }, body }
}

/// Makes a new card among the cards of a project.
fn make_card(project: &Project, cards: &Vec<Card>, input: CreateCard) -> (r: Result<
    CardWrite,
    Error,
>)
    ensures
        exists|time: Seq<char>|
            is_dated(r, time) && error::agrees(
                r,
                #[trigger] created(project@, model::card_views(cards@), input@, time),
            ),
{
    let ghost views = model::card_views(cards@);
    let config = &project.config;
    let wanted = match &input.status {
        Some(status) => text::copy_string(status),
        None => text::copy_string(&config.default_status),
    };
    let status = match config.resolve_status(&wanted) {
        Some(status) => text::copy_string(status),
        None => {
            let r = Err(unknown_status(&wanted, config));
            assert(error::agrees(r, created(project@, views, input@, Seq::empty())));
            return r;
        },
    };
    match enforce_wip_limit(cards, config, &status, None) {
        Ok(_) => {},
        Err(error) => {
            let r = Err(error);
            assert(error::agrees(r, created(project@, views, input@, Seq::empty())));
            return r;
        },
    }
    let number: u64 = match next_id_number(cards, &config.id_prefix) {
        Ok(number) => number,
        Err(error) => {
            let r = Err(error);
            assert(error::agrees(r, created(project@, views, input@, Seq::empty())));
            return r;
        },
    };
    let ordinal: i64 = match next_ordinal(cards, &status) {
        Ok(ordinal) => ordinal,
        Err(error) => {
            let r = Err(error);
            assert(error::agrees(r, created(project@, views, input@, Seq::empty())));
            return r;
        },
    };
    let prefix = text::raise_string(&config.id_prefix);
    let mut id = text::chars_of(&prefix);
    text::push_all(&mut id, &text::chars_of("-"));
    text::push_all(&mut id, &text::decimal_of(number));
    let mut metadata = CardMetadata::new(
        text::string_of(&id),
        text::trim_string(&input.title),
        status,
        ordinal,
    );
    let ghost time = metadata@.created_date;
    metadata.labels = unique_nonempty(&input.labels);
    metadata.assignees = unique_nonempty(&input.assignees);
    metadata.extra = input.extra.copied();
    assert(metadata@ =~= created_metadata(config@, input@, status@, number, ordinal, time));
    match reject_reserved_extra_keys(&metadata.extra) {
        Ok(_) => {},
        Err(error) => {
            let r = Err(error);
            assert(error::agrees(r, created(project@, views, input@, time)));
            return r;
        },
    }
    match metadata.validate() {
        Ok(_) => {},
        Err(error) => {
            let r = Err(error);
            assert(error::agrees(r, created(project@, views, input@, time)));
            return r;
        },
    }
    match model::validate_title(&metadata.title) {
        Ok(_) => {},
        Err(error) => {
            let r = Err(error);
            assert(error::agrees(r, created(project@, views, input@, time)));
            return r;
        },
    }
    text::push_all(&mut id, &text::chars_of(".md"));
    let path = path_below(&project.cards_dir, &text::string_of(&id));
    let body = text::copy_string(&input.body);
    let r = Ok(write_card(metadata, body, path));
    assert(error::agrees(r, created(project@, views, input@, time)));
    r
}

/// Gives a changed card its status in canonical spelling, and a place in its column.
fn place_card(cards: &Vec<Card>, config: &BoardConfig, previous: &str, metadata: CardMetadata) -> (r:
    Result<CardMetadata, Error>)
    ensures
        error::agrees(r, placed(config@, model::card_views(cards@), previous@, metadata@)),
{
    let mut metadata = metadata;
    let status = match config.resolve_status(&metadata.status) {
        Some(status) => text::copy_string(status),
        None => {
            return Err(unknown_status(&metadata.status, config));
        },
    };
    if !text::alike_strings(previous, &status) {
        match enforce_wip_limit(cards, config, &status, Some(&metadata.id)) {
            Ok(_) => {},
            Err(error) => {
                return Err(error);
            },
        }
        match next_ordinal(cards, &status) {
            Ok(ordinal) => {
                metadata.ordinal = Some(ordinal);
            },
            Err(error) => {
                return Err(error);
            },
        }
    }
    metadata.status = status;
    Ok(metadata)
}

/// Settles a changed card among the cards of a project: it is checked, gets its status in canonical
/// spelling and a place in its column, and the date of the change.
pub fn settle_card(cards: &Vec<Card>, config: &BoardConfig, previous: &Card, card: Card) -> (r:
    Result<CardWrite, Error>)
    ensures
        is_settled(config@, model::card_views(cards@), previous@, card@, r),
{
    let ghost views = model::card_views(cards@);
    let ghost given = card@;
    let retitled = !text::same_string(&card.metadata.title, &previous.metadata.title);
    let rewritten = !text::same_string(&card.body, &previous.body);
    let mut metadata = card.metadata;
    metadata.title = text::trim_string(&metadata.title);
    assert(metadata@ =~= (MetadataView {
        title: text::trim(given.metadata.title),
        ..given.metadata
    }));
    match metadata.validate() {
        Ok(_) => {},
        Err(error) => {
            let r = Err(error);
            assert(error::agrees(r, settled(config@, views, previous@, given, Seq::empty())));
            return r;
        },
    }
    if retitled {
        match model::validate_title(&metadata.title) {
            Ok(_) => {},
            Err(error) => {
                let r = Err(error);
                assert(error::agrees(r, settled(config@, views, previous@, given, Seq::empty())));
                return r;
            },
        }
    }
    match reject_reserved_extra_keys(&metadata.extra) {
        Ok(_) => {},
        Err(error) => {
            let r = Err(error);
            assert(error::agrees(r, settled(config@, views, previous@, given, Seq::empty())));
            return r;
        },
    }
    let mut metadata = match place_card(cards, config, &previous.metadata.status, metadata) {
        Ok(metadata) => metadata,
        Err(error) => {
            let r = Err(error);
            assert(error::agrees(r, settled(config@, views, previous@, given, Seq::empty())));
            return r;
        },
    };
    if rewritten {
        match comments::validate(&card.body) {
            Ok(_) => {},
            Err(error) => {
                let r = Err(error);
                assert(error::agrees(r, settled(config@, views, previous@, given, Seq::empty())));
                return r;
            },
        }
    }
    metadata.labels = unique_nonempty(&metadata.labels);
    metadata.assignees = unique_nonempty(&metadata.assignees);
    metadata.touch();
    let ghost time = metadata@.updated_date;
    let r = Ok(write_card(metadata, card.body, card.path));
    assert(error::agrees(r, settled(config@, views, previous@, given, time)));
    r
}

/// Whether a result is that of commenting on a card at some time: the body of the card with the new
/// comment is settled.
pub open spec fn is_comment(
    project: ProjectView,
    files: Seq<FileView>,
    id: Seq<char>,
    author: Seq<char>,
    text: Seq<char>,
    result: Result<(CardWrite, comments::Comment), Error>,
) -> bool {
    match begun(files, project.config, id) {
        Err(failure) => result matches Err(error) && error@ == failure,
        Ok(card) => exists|appended: Result<(String, comments::Comment), Error>|
            comments::is_appended(card.body, author, text, appended) && #[trigger]
            is_comment_settled(project, files, card, appended, result),
    }
}

/// Whether a result is that of settling a card with the given appended comment.
pub open spec fn is_comment_settled(
    project: ProjectView,
    files: Seq<FileView>,
    card: CardView,
    appended: Result<(String, comments::Comment), Error>,
    result: Result<(CardWrite, comments::Comment), Error>,
) -> bool {
    match appended {
        Err(error) => result matches Err(other) && other@ == error@,
        Ok((body, comment)) => match result {
            Ok((write, written)) => written@ == comment@ && is_settled(
                project.config,
                all_cards(files),
                card,
                CardView { body: body@, ..card },
                Ok(write),
            ),
            Err(other) => is_settled(
                project.config,
                all_cards(files),
                card,
                CardView { body: body@, ..card },
                Err(other),
            ),
        },
    }
}

/// A directory on the way up from where a project is looked for.
#[derive(Clone, Debug, PartialEq, Eq)]
pub struct Ancestor {
    pub path: String,
    /// Whether it holds a configuration file.
    pub has_config: bool,
}

/// The first directory from `i` on with a configuration file.
pub open spec fn nearest(ancestors: Seq<Ancestor>, i: int) -> Option<int>
    decreases ancestors.len() - i,
{
    if i < 0 || i >= ancestors.len() {
        None
    } else if ancestors[i].has_config {
        Some(i)
    } else {
        nearest(ancestors, i + 1)
    }
}

/// The last index of a character before `n`.
pub open spec fn last_index(s: Seq<char>, c: char, n: int) -> Option<int>
    decreases n,
{
    if n <= 0 || n > s.len() {
        None
    } else if s[n - 1] == c {
        Some(n - 1)
    } else {
        last_index(s, c, n - 1)
    }
}

/// Whether the name of a file is that of a card: it has the extension `md`, whatever the case of its
/// letters.
pub open spec fn is_card_name(name: Seq<char>) -> bool {
    match last_index(name, '.', name.len() as int) {
        Some(at) => at > 0 && text::alike(name.skip(at + 1), "md"@),
        None => false,
    }
}

/// Whether the name of a file is that of a card.
pub fn is_card_file(name: &str) -> (r: bool)
    ensures
        r == is_card_name(name@),
{
    let chars = text::chars_of(name);
    let mut n = chars.len();
    while n > 0
        invariant
            n <= chars@.len(),
            chars@ == name@,
            last_index(name@, '.', n as int) == last_index(name@, '.', name@.len() as int),
        decreases n,
    {
        if chars[n - 1] == '.' {
            let extension = slice_subrange(chars.as_slice(), n, chars.len());
            assert(extension@ =~= name@.skip(n as int));
            return n > 1 && text::same_folded(extension, &text::chars_of("md"));
        }
        n -= 1;
    }
    false
}

/// What a file holds whose metadata and body could be read: a card, where the metadata is sound.
pub open spec fn held(path: Seq<char>, metadata: MetadataView, body: Seq<char>) -> FileView {
    match model::metadata_check(metadata) {
        Err(failure) => FileView::Broken {
            path,
            message: "invalid card "@ + path + ": "@ + error::told(failure),
        },
        Ok(_) => match fields_check(metadata.extra) {
            Err(failure) => FileView::Broken { path, message: error::told(failure) },
            Ok(_) => FileView::Card(CardView { metadata, body, path }),
        },
    }
}

/// Checks what a file holds whose metadata and body could be read.
pub fn check_file(path: String, metadata: CardMetadata, body: String) -> (r: LoadedFile)
    ensures
        r@ == held(path@, metadata@, body@),
{
    match metadata.validate() {
        Ok(_) => {},
        Err(error) => {
            let mut message = text::chars_of("invalid card ");
            text::push_str(&mut message, &path);
            text::push_str(&mut message, ": ");
            text::push_str(&mut message, &error.message());
            return LoadedFile::Broken { path, message: text::string_of(&message) };
        },
    }
    match reject_reserved_extra_keys(&metadata.extra) {
        Ok(_) => {},
        Err(error) => {
            return LoadedFile::Broken { path, message: error.message() };
        },
    }
    LoadedFile::Card(Card { metadata, body, path })
}

impl Project {
    /// The project that is to be made in a directory, where it holds none yet.
    pub fn init(root: &str, config: BoardConfig, exists: bool) -> (r: Result<Project, Error>)
        ensures
            error::agrees(
                r,
                match config::config_check(config@) {
                    Err(failure) => Err(failure),
                    Ok(_) => if exists {
                        Err(error::about(ErrorKind::ProjectExists, root@))
                    } else {
                        Ok(project_at(root@, config@))
                    },
                },
            ),
    {
        match config.validate() {
            Ok(_) => {},
            Err(error) => {
                return Err(error);
            },
        }
        if exists {
            return Err(Error::about(ErrorKind::ProjectExists, &text::chars_of(root)));
        }
        Project::open(root, config)
    }

    /// Finds the nearest directory with a project, given the directories from `start` upward.
    pub fn discover(start: &str, ancestors: &Vec<Ancestor>) -> (r: Result<String, Error>)
        ensures
            error::agrees(
                r,
                match nearest(ancestors@, 0) {
                    Some(i) => Ok(ancestors@[i].path@),
                    None => Err(error::about(ErrorKind::NoProject, start@)),
                },
            ),
    {
        let mut i: usize = 0;
        while i < ancestors.len()
            invariant
                i <= ancestors@.len(),
                nearest(ancestors@, i as int) == nearest(ancestors@, 0),
            decreases ancestors@.len() - i,
        {
            if ancestors[i].has_config {
                return Ok(text::copy_string(&ancestors[i].path));
            }
            i += 1;
        }
        Err(Error::about(ErrorKind::NoProject, &text::chars_of(start)))
    }

    /// The project in a directory, given its configuration.
    pub fn open(root: &str, config: BoardConfig) -> (r: Result<Project, Error>)
        ensures
            error::agrees(
                r,
                match config::config_check(config@) {
                    Err(failure) => Err(failure),
                    Ok(_) => Ok(project_at(root@, config@)),
                },
            ),
    {
        match config.validate() {
            Ok(_) => {},
            Err(error) => {
                return Err(error);
            },
        }
        let internal_dir = path_below(root, INTERNAL_DIR);
        let config_path = path_below(&internal_dir, CONFIG_FILE);
        let cards_dir = path_below(&internal_dir, &config.cards_dir);
        Ok(
            Project {
                root: text::copy_string(root),
                internal_dir,
                config_path,
                cards_dir,
                config,
            },
        )
    }

    /// The cards of the project in order, given its files.
    pub fn load_cards(&self, files: &Vec<LoadedFile>) -> (r: Result<Vec<Card>, Error>)
        ensures
            match (r, collected(file_views(files@), self@.config)) {
                (Ok(cards), Ok(expected)) => in_card_order(
                    model::card_views(cards@),
                    self@.config,
                ) && model::card_views(cards@).to_multiset() == expected.to_multiset(),
                (Err(error), Err(failure)) => error@ == failure,
                _ => false,
            },
    {
        match collect(files, &self.config) {
            Ok(cards) => Ok(sort_cards(cards, &self.config)),
            Err(error) => Err(error),
        }
    }

    /// One card of the project, given its files. Files that hold no card do not stand in the way of
    /// one that is there.
    pub fn load_card(&self, files: &Vec<LoadedFile>, id: &str) -> (r: Result<Card, Error>)
        ensures
            error::agrees(r, requested(file_views(files@), id@)),
    {
        let cards = loaded_cards(files);
        match find_unique_card(&cards, id) {
            Ok(card) => Ok(card),
            Err(error) => {
                if let ErrorKind::CardNotFound = error.kind {
                    if let Some(message) = find_broken(files) {
                        return Err(
                            Error::about(ErrorKind::BrokenCard, &text::chars_of(&message)),
                        );
                    }
                }
                Err(error)
            },
        }
    }

    /// Makes a new card, given the files of the project.
    pub fn create_card(&self, files: &Vec<LoadedFile>, input: CreateCard) -> (r: Result<
        CardWrite,
        Error,
    >)
        ensures
            is_creation(self@, file_views(files@), input@, r),
    {
        let ghost views = file_views(files@);
        if text::blank(&text::chars_of(&input.title)) {
            let r = Err(Error::plain(ErrorKind::EmptyCardTitle));
            assert(error::agrees(r, creation(self@, views, input@, Seq::empty())));
            return r;
        }
        match collect(files, &self.config) {
            Ok(cards) => {
                let ghost given = input@;
                let r = make_card(self, &cards, input);
                proof {
                    let time = choose|time: Seq<char>|
                        is_dated(r, time) && error::agrees(
                            r,
                            #[trigger] created(self@, model::card_views(cards@), given, time),
                        );
                    assert(error::agrees(r, creation(self@, views, given, time)));
                }
                r
            },
            Err(error) => {
                let r = Err(error);
                assert(error::agrees(r, creation(self@, views, input@, Seq::empty())));
                r
            },
        }
    }

    /// Changes a card, given the files of the project.
    pub fn update_card(&self, files: &Vec<LoadedFile>, id: &str, change: &Change) -> (r: Result<
        CardWrite,
        Error,
    >)
        ensures
            is_update(self@, file_views(files@), id@, *change, r),
    {
        let ghost views = file_views(files@);
        let cards = match collect(files, &self.config) {
            Ok(cards) => cards,
            Err(error) => {
                let r = Err(error);
                assert(error::agrees(r, update(self@, views, id@, *change, Seq::empty())));
                return r;
            },
        };
        let card = match find_unique_card(&cards, id) {
            Ok(card) => card,
            Err(error) => {
                let r = Err(error);
                assert(error::agrees(r, update(self@, views, id@, *change, Seq::empty())));
                return r;
            },
        };
        let previous = card.copied();
        let changed = match change::apply(card, change) {
            Ok(changed) => changed,
            Err(error) => {
                let r = Err(error);
                assert(error::agrees(r, update(self@, views, id@, *change, Seq::empty())));
                return r;
            },
        };
        let ghost given = changed@;
        let r = settle_card(&cards, &self.config, &previous, changed);
        proof {
            let time = choose|time: Seq<char>|
                is_dated(r, time) && error::agrees(
                    r,
                    #[trigger] settled(
                        self@.config,
                        model::card_views(cards@),
                        previous@,
                        given,
                        time,
                    ),
                );
            assert(error::agrees(r, update(self@, views, id@, *change, time)));
        }
        r
    }

    /// Moves a card to another column, given the files of the project.
    pub fn move_card(&self, files: &Vec<LoadedFile>, id: &str, status: &str) -> (r: Result<
        CardWrite,
        Error,
    >)
        ensures
            exists|change: Change| #[trigger]
                is_update(self@, file_views(files@), id@, change, r) && (change matches Change::Move(
                    to,
                ) && to@ == status@),
    {
        let change = Change::Move(text::copy_string(status));
        self.update_card(files, id, &change)
    }

    /// Comments on a card, given the files of the project.
    pub fn comment_on_card(&self, files: &Vec<LoadedFile>, id: &str, author: &str, text: &str) -> (r:
        Result<(CardWrite, comments::Comment), Error>)
        ensures
            is_comment(self@, file_views(files@), id@, author@, text@, r),
    {
        let ghost views = file_views(files@);
        let cards = match collect(files, &self.config) {
            Ok(cards) => cards,
            Err(error) => {
                return Err(error);
            },
        };
        let mut card = match find_unique_card(&cards, id) {
            Ok(card) => card,
            Err(error) => {
                return Err(error);
            },
        };
        let ghost found = card@;
        let previous = card.copied();
        let appended = comments::append(&card.body, author, text);
        let ghost outcome = appended;
        match appended {
            Err(error) => {
                let r = Err(error);
                assert(is_comment_settled(self@, views, found, outcome, r));
                r
            },
            Ok((body, comment)) => {
                card.body = body;
                match settle_card(&cards, &self.config, &previous, card) {
                    Ok(write) => {
                        let r = Ok((write, comment));
                        assert(is_comment_settled(self@, views, found, outcome, r));
                        r
                    },
                    Err(error) => {
                        let r = Err(error);
                        assert(is_comment_settled(self@, views, found, outcome, r));
                        r
                    },
                }
            },
        }
    }
}

/// The card with an id in files. Where there is none, a file that holds no card is told of.
pub open spec fn requested(files: Seq<FileView>, id: Seq<char>) -> Result<CardView, Failure> {
    match (card_with(all_cards(files), id), first_broken(files, 0)) {
        (Err(failure), Some(message)) => if failure.kind == ErrorKind::CardNotFound {
            Err(error::about(ErrorKind::BrokenCard, message))
        } else {
            Err(failure)
        },
        (outcome, _) => outcome,
    }
}

/// Something that is wrong with a project, as specifications speak of it.
#[verifier::ext_equal]
pub struct IssueView {
    pub path: Seq<char>,
    pub message: Seq<char>,
}

/// Something that is wrong with a project: where, and what.
#[derive(Clone, Debug, PartialEq, Eq)]
pub struct ValidationIssue {
    pub path: String,
    pub message: String,
}

impl View for ValidationIssue {
    type V = IssueView;

    open spec fn view(&self) -> IssueView {
        IssueView { path: self.path@, message: self.message@ }
    }
}

/// The issues in a list.
pub open spec fn issue_views(issues: Seq<ValidationIssue>) -> Seq<IssueView> {
    issues.map_values(|i: ValidationIssue| i@)
}

/// Whether a column holds more cards than it can.
pub open spec fn is_overfull(cards: Seq<CardView>, column: config::ColumnView) -> bool {
    column.wip_limit matches Some(limit) && count_in_column(
        cards,
        column.name,
        None,
        cards.len(),
    ) > limit
}

/// The issues of the first `n` columns: one for each that holds more cards than it can.
pub open spec fn column_issues(
    cards: Seq<CardView>,
    columns: Seq<config::ColumnView>,
    cards_dir: Seq<char>,
    n: nat,
) -> Seq<IssueView>
    decreases n,
{
    if n == 0 || n > columns.len() {
        Seq::empty()
    } else {
        let before = column_issues(cards, columns, cards_dir, (n - 1) as nat);
        let column = columns[n - 1];
        if is_overfull(cards, column) {
            before.push(
                IssueView {
                    path: cards_dir,
                    message: error::told(
                        error::detailed(
                            ErrorKind::WipExceeded,
                            column.name,
                            text::decimal(column.wip_limit->0 as nat),
                        ),
                    ),
                },
            )
        } else {
            before
        }
    }
}

/// An issue, or none.
pub open spec fn issue_if(there: bool, path: Seq<char>, failure: Failure) -> Seq<IssueView> {
    if there {
        seq![IssueView { path, message: error::told(failure) }]
    } else {
        Seq::empty()
    }
}

/// The issues of a card: its status is no column, another card has its id, its comments are not in
/// order.
#[verifier::opaque]
pub open spec fn card_issues(cards: Seq<CardView>, config: ConfigView, card: CardView) -> Seq<
    IssueView,
> {
    let count = count_id(cards, card.metadata.id, cards.len());
    let comments = document::document(card.body);
    issue_if(
        config::status_of(config, card.metadata.status) is None,
        card.path,
        no_status(card.metadata.status, config),
    ) + issue_if(
        count > 1,
        card.path,
        error::detailed(ErrorKind::DuplicateInFiles, card.metadata.id, text::decimal(count)),
    ) + issue_if(comments is Err, card.path, comments->Err_0)
}

/// The issues of a file.
pub open spec fn file_issues(cards: Seq<CardView>, config: ConfigView, file: FileView) -> Seq<
    IssueView,
> {
    match file {
        FileView::Broken { path, message } => seq![IssueView { path, message }],
        FileView::Card(card) => card_issues(cards, config, card),
    }
}

/// The issues of the first `n` files.
pub open spec fn files_issues(
    cards: Seq<CardView>,
    config: ConfigView,
    files: Seq<FileView>,
    n: nat,
) -> Seq<IssueView>
    decreases n,
{
    if n == 0 || n > files.len() {
        Seq::empty()
    } else {
        files_issues(cards, config, files, (n - 1) as nat) + file_issues(
            cards,
            config,
            files[n - 1],
        )
    }
}

/// All that is wrong with a project: its overfull columns, then its files, in their order.
pub open spec fn issues_of(project: ProjectView, files: Seq<FileView>) -> Seq<IssueView> {
    let cards = all_cards(files);
    column_issues(
        cards,
        project.config.columns,
        project.cards_dir,
        project.config.columns.len(),
    ) + files_issues(cards, project.config, files, files.len())
}

/// Adds an issue.
fn add_issue(issues: &mut Vec<ValidationIssue>, path: &str, message: String)
    ensures
        issue_views(final(issues)@) == issue_views(old(issues)@).push(
            IssueView { path: path@, message: message@ },
        ),
{
    let ghost before = issue_views(issues@);
    let issue = ValidationIssue { path: text::copy_string(path), message };
    let ghost added = issue@;
    issues.push(issue);
    assert(issue_views(issues@) =~= before.push(added));
}

/// Adds the issues of a card.
fn add_card_issues(
    issues: &mut Vec<ValidationIssue>,
    cards: &Vec<Card>,
    config: &BoardConfig,
    card: &Card,
)
    ensures
        issue_views(final(issues)@) == issue_views(old(issues)@) + card_issues(
            model::card_views(cards@),
            config@,
            card@,
        ),
{
    proof {
        reveal(card_issues);
    }
    let ghost before = issue_views(issues@);
    let ghost views = model::card_views(cards@);
    let count = count_cards(cards, &card.metadata.id);
    let ghost first = issue_if(
        config::status_of(config@, card@.metadata.status) is None,
        card@.path,
        no_status(card@.metadata.status, config@),
    );
    let ghost second = issue_if(
        count > 1,
        card@.path,
        error::detailed(
            ErrorKind::DuplicateInFiles,
            card@.metadata.id,
            text::decimal(count as nat),
        ),
    );
    if config.resolve_status(&card.metadata.status).is_none() {
        let message = unknown_status(&card.metadata.status, config).message();
        add_issue(issues, &card.path, message);
    }
    assert(issue_views(issues@) =~= before + first);
    if count > 1 {
        let number = text::decimal_of(count as u64);
        let id = text::chars_of(&card.metadata.id);
        let message = Error::detailed(ErrorKind::DuplicateInFiles, &id, &number).message();
        add_issue(issues, &card.path, message);
    }
    assert(issue_views(issues@) =~= before + first + second);
    match comments::validate(&card.body) {
        Ok(_) => {
            assert(issue_views(issues@) =~= before + card_issues(views, config@, card@));
        },
        Err(error) => {
            let message = error.message();
            add_issue(issues, &card.path, message);
            assert(issue_views(issues@) =~= before + card_issues(views, config@, card@));
        },
    }
}

/// What the issues at a path tell, in their order.
pub open spec fn told_at(issues: Seq<IssueView>, path: Seq<char>) -> Seq<Seq<char>>
    decreases issues.len(),
{
    if issues.len() == 0 {
        Seq::empty()
    } else if issues.last().path == path {
        told_at(issues.drop_last(), path).push(issues.last().message)
    } else {
        told_at(issues.drop_last(), path)
    }
}

/// Whether issues stand in the order of their paths.
pub open spec fn issues_by_path(issues: Seq<IssueView>) -> bool {
    forall|i: int, j: int|
        0 <= i < j < issues.len() ==> (#[trigger] issues[i]).path == (#[trigger] issues[j]).path
            || text::precedes(issues[i].path, issues[j].path)
}

/// Whether a list holds issues in the order of their paths, those at one path in the order that they
/// had.
pub open spec fn is_arranged(issues: Seq<IssueView>, arranged: Seq<IssueView>) -> bool {
    &&& arranged.len() == issues.len()
    &&& issues_by_path(arranged)
    &&& forall|path: Seq<char>| #[trigger] told_at(arranged, path) == told_at(issues, path)
}

proof fn lemma_told_concat(a: Seq<IssueView>, b: Seq<IssueView>, path: Seq<char>)
    ensures
        told_at(a + b, path) == told_at(a, path) + told_at(b, path),
    decreases b.len(),
{
    if b.len() == 0 {
        assert(a + b =~= a);
        assert(told_at(a, path) + told_at(b, path) =~= told_at(a, path));
    } else {
        assert((a + b).drop_last() =~= a + b.drop_last());
        assert((a + b).last() == b.last());
        lemma_told_concat(a, b.drop_last(), path);
        if b.last().path == path {
            assert((told_at(a, path) + told_at(b.drop_last(), path)).push(b.last().message)
                =~= told_at(a, path) + told_at(b.drop_last(), path).push(b.last().message));
        }
    }
}

proof fn lemma_told_none(issues: Seq<IssueView>, path: Seq<char>)
    requires
        forall|i: int| 0 <= i < issues.len() ==> (#[trigger] issues[i]).path != path,
    ensures
        told_at(issues, path) == Seq::<Seq<char>>::empty(),
    decreases issues.len(),
{
    if issues.len() > 0 {
        lemma_told_none(issues.drop_last(), path);
    }
}

/// An issue put in behind those that it does not go before.
proof fn lemma_put_in(issues: Seq<IssueView>, out: Seq<IssueView>, issue: IssueView, k: int)
    requires
        is_arranged(issues, out),
        0 <= k <= out.len(),
        forall|i: int|
            k <= i < out.len() ==> text::precedes(issue.path, (#[trigger] out[i]).path),
        k > 0 ==> !text::precedes(issue.path, out[k - 1].path),
    ensures
        is_arranged(issues.push(issue), out.insert(k, issue)),
{
    let head = out.take(k);
    let tail = out.skip(k);
    let one = seq![issue];
    let now = out.insert(k, issue);
    assert(now =~= head + one + tail);
    assert(out =~= head + tail);
    text::lemma_precedes_self(issue.path);
    assert forall|path: Seq<char>| #[trigger] told_at(now, path) == told_at(
        issues.push(issue),
        path,
    ) by {
        assert(told_at(out, path) == told_at(issues, path));
        assert(issues.push(issue).drop_last() =~= issues);
        lemma_told_concat(head + one, tail, path);
        lemma_told_concat(head, one, path);
        lemma_told_concat(head, tail, path);
        assert(one.drop_last() =~= Seq::<IssueView>::empty());
        assert(told_at(one.drop_last(), path) == Seq::<Seq<char>>::empty());
        assert(one.last() == issue);
        if path == issue.path {
            lemma_told_none(tail, path);
            assert(told_at(one, path) =~= seq![issue.message]);
            assert(told_at(now, path) =~= told_at(issues, path).push(issue.message));
        } else {
            assert(told_at(one, path) =~= Seq::<Seq<char>>::empty());
            assert(told_at(now, path) =~= told_at(issues, path));
        }
    }
    assert forall|i: int| 0 <= i < k implies (#[trigger] out[i]).path == issue.path
        || text::precedes(out[i].path, issue.path) by {
        text::lemma_precedes_total(out[k - 1].path, issue.path);
        if i < k - 1 && out[i].path != out[k - 1].path && out[k - 1].path != issue.path {
            text::lemma_precedes_transitive(out[i].path, out[k - 1].path, issue.path);
        }
    }
    assert forall|i: int, j: int| 0 <= i < j < now.len() implies (#[trigger] now[i]).path == (
    #[trigger] now[j]).path || text::precedes(now[i].path, now[j].path) by {
        let x = if i < k {
            out[i]
        } else {
            out[i - 1]
        };
        let y = if j < k {
            out[j]
        } else {
            out[j - 1]
        };
        if i == k {
            assert(now[j] == out[j - 1]);
        } else if j == k {
            assert(now[i] == out[i]);
        } else {
            assert(now[i] == x && now[j] == y);
        }
    }
}

/// Puts issues into the order of their paths.
fn arrange(issues: &Vec<ValidationIssue>) -> (r: Vec<ValidationIssue>)
    ensures
        is_arranged(issue_views(issues@), issue_views(r@)),
{
    let ghost views = issue_views(issues@);
    let mut out: Vec<ValidationIssue> = Vec::new();
    assert(issue_views(out@) =~= Seq::empty());
    let mut i: usize = 0;
    assert(views.take(0) =~= Seq::<IssueView>::empty());
    while i < issues.len()
        invariant
            i <= issues@.len(),
            views == issue_views(issues@),
            is_arranged(views.take(i as int), issue_views(out@)),
        decreases issues@.len() - i,
    {
        assert(views[i as int] == issues@[i as int]@);
        let ghost before = issue_views(out@);
        let path = text::chars_of(&issues[i].path);
        let mut k: usize = out.len();
        while k > 0 && text::comes_before(&path, &text::chars_of(&out[k - 1].path))
            invariant
                k <= out@.len(),
                before == issue_views(out@),
                path@ == views[i as int].path,
                forall|x: int|
                    k <= x < before.len() ==> text::precedes(path@, (#[trigger] before[x]).path),
            decreases k,
        {
            assert(before[k - 1] == out@[k - 1]@);
            k -= 1;
        }
        let issue = ValidationIssue {
            path: text::copy_string(&issues[i].path),
            message: text::copy_string(&issues[i].message),
        };
        let ghost added = issue@;
        assert(added == views[i as int]);
        assert(k > 0 ==> before[k - 1] == out@[k - 1]@);
        out.insert(k, issue);
        proof {
            assert(issue_views(out@) =~= before.insert(k as int, added));
            lemma_put_in(views.take(i as int), before, added, k as int);
            assert(views.take(i as int).push(added) =~= views.take(i + 1));
        }
        i += 1;
    }
    assert(views.take(i as int) =~= views);
    out
}

impl Project {
    /// Tells all that is wrong with the project, in the order of the paths.
    pub fn validate(&self, files: &Vec<LoadedFile>) -> (r: Vec<ValidationIssue>)
        ensures
            is_arranged(issues_of(self@, file_views(files@)), issue_views(r@)),
    {
        let cards = loaded_cards(files);
        let ghost views = file_views(files@);
        let ghost all = model::card_views(cards@);
        let ghost columns = self@.config.columns;
        let mut issues: Vec<ValidationIssue> = Vec::new();
        assert(issue_views(issues@) =~= Seq::empty());
        let mut i: usize = 0;
        while i < self.config.columns.len()
            invariant
                i <= self.config.columns@.len(),
                all == model::card_views(cards@),
                columns == self@.config.columns,
                columns.len() == self.config.columns@.len(),
                issue_views(issues@) == column_issues(all, columns, self@.cards_dir, i as nat),
            decreases self.config.columns@.len() - i,
        {
            let column = &self.config.columns[i];
            assert(columns[i as int] == column@);
            if let Some(limit) = column.wip_limit {
                if count_column(&cards, &column.name, None) > limit {
                    let name = text::chars_of(&column.name);
                    let number = text::decimal_of(limit as u64);
                    let message = Error::detailed(ErrorKind::WipExceeded, &name, &number).message();
                    add_issue(&mut issues, &self.cards_dir, message);
                }
            }
            i += 1;
        }
        let ghost head = issue_views(issues@);
        let mut i: usize = 0;
        assert(issue_views(issues@) =~= head + files_issues(all, self@.config, views, 0));
        while i < files.len()
            invariant
                i <= files@.len(),
                all == model::card_views(cards@),
                views == file_views(files@),
                views.len() == files@.len(),
                issue_views(issues@) == head + files_issues(all, self@.config, views, i as nat),
            decreases files@.len() - i,
        {
            assert(views[i as int] == files@[i as int]@);
            let ghost before = issue_views(issues@);
            match &files[i] {
                LoadedFile::Broken { path, message } => {
                    add_issue(&mut issues, path, text::copy_string(message));
                },
                LoadedFile::Card(card) => {
                    add_card_issues(&mut issues, &cards, &self.config, card);
                },
            }
            assert(issue_views(issues@) =~= before + file_issues(
                all,
                self@.config,
                views[i as int],
            ));
            assert(head + files_issues(all, self@.config, views, i as nat) + file_issues(
                all,
                self@.config,
                views[i as int],
            ) =~= head + files_issues(all, self@.config, views, (i + 1) as nat));
            i += 1;
        }
        arrange(&issues)
    }
}

pub proof fn lemma_number_bound(cards: Seq<CardView>, prefix: Seq<char>, n: nat, i: int)
    requires
        0 <= i < n <= cards.len(),
    ensures
        id_number(cards[i].metadata.id, prefix) matches Some(number) ==> number <= largest_number(
            cards,
            prefix,
            n,
        ),
    decreases n,
{
    if i < n - 1 {
        lemma_number_bound(cards, prefix, (n - 1) as nat, i);
    }
}

proof fn lemma_fold_raise(s: Seq<char>)
    ensures
        text::fold(text::raise(s)) == text::fold(s),
{
    assert(text::fold(text::raise(s)) =~= text::fold(s));
}

/// The id of a new card is that of no other card, whatever the case of its letters.
pub proof fn new_ids_are_new(
    project: ProjectView,
    cards: Seq<CardView>,
    input: CreateView,
    time: Seq<char>,
    i: int,
)
    requires
        created(project, cards, input, time) is Ok,
        0 <= i < cards.len(),
    ensures
        !text::alike(
            created(project, cards, input, time)->Ok_0.card.metadata.id,
            cards[i].metadata.id,
        ),
{
    let prefix = project.config.id_prefix;
    let number = next_number(cards, prefix)->Ok_0;
    let id = text::raise(prefix) + "-"@ + text::decimal(number as nat);
    let digits = text::decimal(number as nat);
    assert(created(project, cards, input, time)->Ok_0.card.metadata.id == id);
    if text::alike(id, cards[i].metadata.id) {
        let start = text::fold(prefix) + "-"@;
        reveal_strlit("-");
        lemma_fold_raise(prefix);
        text::lemma_decimal(number as nat);
        assert(text::fold("-"@) =~= "-"@);
        assert(text::fold(digits) =~= digits);
        assert(text::fold(id) =~= text::fold(text::raise(prefix)) + text::fold("-"@) + text::fold(
            digits,
        ));
        let folded = text::fold(cards[i].metadata.id);
        assert(folded == start + digits);
        assert(folded.subrange(0, start.len() as int) =~= start);
        assert(folded.skip(start.len() as int) =~= digits);
        text::numbers_are_read_as_written(number);
        assert(id_number(cards[i].metadata.id, prefix) == Some(number));
        lemma_number_bound(cards, prefix, cards.len(), i);
    }
}

pub proof fn lemma_ordinal_bound(cards: Seq<CardView>, status: Seq<char>, n: nat, i: int)
    requires
        0 <= i < n <= cards.len(),
        in_column(cards[i], status),
    ensures
        cards[i].metadata.ordinal matches Some(ordinal) ==> (largest_ordinal(
            cards,
            status,
            n,
        ) matches Some(largest) && ordinal <= largest),
    decreases n,
{
    if i < n - 1 {
        lemma_ordinal_bound(cards, status, (n - 1) as nat, i);
    }
}

/// A card that comes into a column comes behind all cards that are there.
pub proof fn newcomers_come_last(cards: Seq<CardView>, status: Seq<char>, i: int)
    requires
        ordinal_after(cards, status) is Ok,
        0 <= i < cards.len(),
        in_column(cards[i], status),
    ensures
        cards[i].metadata.ordinal matches Some(ordinal) ==> ordinal < ordinal_after(
            cards,
            status,
        )->Ok_0,
{
    lemma_ordinal_bound(cards, status, cards.len(), i);
}

/// No card comes into a full column.
pub proof fn full_columns_stay_full(
    project: ProjectView,
    cards: Seq<CardView>,
    input: CreateView,
    time: Seq<char>,
)
    requires
        created(project, cards, input, time) is Ok,
    ensures
        ({
            let status = created(project, cards, input, time)->Ok_0.card.metadata.status;
            config::column_at(project.config.columns, status, 0) matches Some(i) && (
            project.config.columns[i].wip_limit matches Some(limit) ==> count_in_column(
                cards,
                status,
                None,
                cards.len(),
            ) < limit)
        }),
{
}

pub proof fn lemma_count_bound(cards: Seq<CardView>, id: Seq<char>, n: nat, i: int)
    requires
        0 <= i < n <= cards.len(),
    ensures
        has_id(cards[i], id) ==> count_id(cards, id, n) >= 1,
    decreases n,
{
    if i < n - 1 {
        lemma_count_bound(cards, id, (n - 1) as nat, i);
    }
}

pub proof fn lemma_count_two(cards: Seq<CardView>, id: Seq<char>, n: nat, i: int, j: int)
    requires
        0 <= i < j < n <= cards.len(),
        has_id(cards[i], id),
        has_id(cards[j], id),
    ensures
        count_id(cards, id, n) >= 2,
    decreases n,
{
    if j < n - 1 {
        lemma_count_two(cards, id, (n - 1) as nat, i, j);
    } else {
        lemma_count_bound(cards, id, (n - 1) as nat, i);
    }
}

pub proof fn lemma_none_shared(cards: Seq<CardView>, from: int, i: int)
    requires
        0 <= from <= i < cards.len(),
        first_shared(cards, from) is None,
    ensures
        count_id(cards, cards[i].metadata.id, cards.len()) <= 1,
    decreases i - from,
{
    if from < i {
        lemma_none_shared(cards, from + 1, i);
    }
}

pub proof fn lemma_all_statuses(cards: Seq<CardView>, config: ConfigView, from: int, i: int)
    requires
        0 <= from <= i < cards.len(),
        statuses_check(cards, config, from) is Ok,
    ensures
        config::status_of(config, cards[i].metadata.status) is Some,
    decreases i - from,
{
    if from < i {
        lemma_all_statuses(cards, config, from + 1, i);
    }
}

/// In a checked collection every card is in a column, and no two cards have one id.
pub proof fn checked_collections_are_sound(cards: Seq<CardView>, config: ConfigView)
    requires
        collection_check(cards, config) is Ok,
    ensures
        forall|i: int|
            0 <= i < cards.len() ==> config::status_of(
                config,
                (#[trigger] cards[i]).metadata.status,
            ) is Some,
        forall|i: int, j: int|
            0 <= i < j < cards.len() ==> !text::alike(
                (#[trigger] cards[i]).metadata.id,
                (#[trigger] cards[j]).metadata.id,
            ),
{
    assert forall|i: int| 0 <= i < cards.len() implies config::status_of(
        config,
        (#[trigger] cards[i]).metadata.status,
    ) is Some by {
        lemma_all_statuses(cards, config, 0, i);
    }
    assert forall|i: int, j: int| 0 <= i < j < cards.len() implies !text::alike(
        (#[trigger] cards[i]).metadata.id,
        (#[trigger] cards[j]).metadata.id,
    ) by {
        lemma_none_shared(cards, 0, i);
        if text::alike(cards[i].metadata.id, cards[j].metadata.id) {
            lemma_count_two(cards, cards[i].metadata.id, cards.len(), i, j);
        }
    }
}

/// What a change leaves of a card when it is settled: its id, its creation date, its custom fields
/// and its body are those of the changed card, its status is the name of a column.
pub proof fn settling_keeps_the_card(
    config: ConfigView,
    cards: Seq<CardView>,
    previous: CardView,
    card: CardView,
    time: Seq<char>,
)
    requires
        settled(config, cards, previous, card, time) is Ok,
    ensures
        ({
            let write = settled(config, cards, previous, card, time)->Ok_0;
            let metadata = write.card.metadata;
            &&& write.body == card.body
            &&& write.card.path == card.path
            &&& metadata.id == card.metadata.id
            &&& metadata.created_date == card.metadata.created_date
            &&& metadata.extra == card.metadata.extra
            &&& config::status_of(config, card.metadata.status) == Some(metadata.status)
            &&& text::alike(previous.metadata.status, metadata.status) ==> metadata.ordinal
                == card.metadata.ordinal
            &&& write.body == previous.body || document::document(write.body) is Ok
        }),
{
}

proof fn lemma_kept(values: Seq<Seq<char>>, i: int, done: Seq<Seq<char>>)
    requires
        0 <= i,
        forall|k: int| 0 <= k < done.len() ==> (#[trigger] done[k]).len() > 0,
        done.no_duplicates(),
    ensures
        kept(values, i, done).no_duplicates(),
        forall|k: int|
            0 <= k < kept(values, i, done).len() ==> (#[trigger] kept(values, i, done)[k]).len()
                > 0,
    decreases values.len() - i,
{
    if i < values.len() {
        let value = text::trim(values[i]);
        if value.len() == 0 || done.contains(value) {
            lemma_kept(values, i + 1, done);
        } else {
            lemma_kept(values, i + 1, done.push(value));
        }
    }
}

/// Labels and assignees are kept once each, and none of them is empty.
pub proof fn kept_values_are_distinct(values: Seq<Seq<char>>)
    ensures
        distinct(values).no_duplicates(),
        forall|k: int| 0 <= k < distinct(values).len() ==> (#[trigger] distinct(values)[k]).len() > 0,
{
    lemma_kept(values, 0, Seq::empty());
}

/// Cards with different ids have one order only.
pub proof fn card_order_is_total(a: CardView, b: CardView, config: ConfigView)
    requires
        a.metadata.id != b.metadata.id,
    ensures
        goes_before(a, b, config) != goes_before(b, a, config),
{
    text::lemma_precedes_total(a.metadata.id, b.metadata.id);
    lemma_goes_before(a, b, a, config);
}

/// Issues in the order of their paths are one list.
pub proof fn issues_have_one_order(
    issues: Seq<IssueView>,
    a: Seq<IssueView>,
    b: Seq<IssueView>,
)
    requires
        is_arranged(issues, a),
        is_arranged(issues, b),
    ensures
        a == b,
{
    lemma_one_order(a, b);
}

proof fn lemma_one_order(a: Seq<IssueView>, b: Seq<IssueView>)
    requires
        a.len() == b.len(),
        issues_by_path(a),
        issues_by_path(b),
        forall|path: Seq<char>| #[trigger] told_at(a, path) == told_at(b, path),
    ensures
        a == b,
    decreases a.len(),
{
    if a.len() > 0 {
        let p = a.last().path;
        let q = b.last().path;
        lemma_last_path(a, b);
        lemma_last_path(b, a);
        if p != q {
            text::lemma_precedes_transitive(p, q, p);
            text::lemma_precedes_self(p);
        }
        assert(told_at(a, p) == told_at(b, p));
        assert(told_at(a, p).last() == a.last().message);
        assert(told_at(b, p).last() == b.last().message);
        assert forall|path: Seq<char>| #[trigger]
            told_at(a.drop_last(), path) == told_at(b.drop_last(), path) by {
            assert(told_at(a, path) == told_at(b, path));
            if path == p {
                assert(told_at(a, p).drop_last() =~= told_at(a.drop_last(), p));
                assert(told_at(b, p).drop_last() =~= told_at(b.drop_last(), p));
            }
        }
        lemma_one_order(a.drop_last(), b.drop_last());
        assert(a =~= a.drop_last().push(a.last()));
        assert(b =~= b.drop_last().push(b.last()));
    } else {
        assert(a =~= b);
    }
}

/// The last path of one list is not behind the last path of another one with the same issues.
proof fn lemma_last_path(a: Seq<IssueView>, b: Seq<IssueView>)
    requires
        a.len() == b.len() > 0,
        issues_by_path(b),
        forall|path: Seq<char>| #[trigger] told_at(a, path) == told_at(b, path),
    ensures
        a.last().path == b.last().path || text::precedes(a.last().path, b.last().path),
{
    let p = a.last().path;
    assert(told_at(a, p).len() > 0);
    assert(told_at(b, p).len() > 0);
    let i = lemma_told(b, p);
    assert(b[i].path == p);
    assert(b[b.len() - 1] == b.last());
}

/// Where something is told at a path, an issue has it.
proof fn lemma_told(issues: Seq<IssueView>, path: Seq<char>) -> (i: int)
    requires
        told_at(issues, path).len() > 0,
    ensures
        0 <= i < issues.len(),
        issues[i].path == path,
    decreases issues.len(),
{
    if issues.last().path == path {
        issues.len() - 1
    } else {
        lemma_told(issues.drop_last(), path)
    }
}

} // verus!
