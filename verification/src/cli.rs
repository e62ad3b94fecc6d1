//! What the commands read from their arguments and what they print.

use crate::change;
use crate::change::{Change, Edit};
use crate::comments;
use crate::config;
use crate::config::{BoardConfig, ColumnView, ConfigView};
use crate::document;
use crate::document::CommentView;
use crate::error;
use crate::error::{Error, ErrorKind, Failure};
use crate::fields;
use crate::fields::Fields;
use crate::markdown;
use crate::markdown::{ChecklistItem, ItemView, Section, SectionView};
use crate::model;
use crate::model::{Card, CardView, MetadataView};
use crate::outside;
use crate::source;
use crate::store;
use crate::store::{CardWrite, CreateCard, CreateView, FileView, LoadedFile, Project, ProjectView};
use crate::text;
use crate::text::CharClass;
use vstd::prelude::*;
use vstd::slice::slice_subrange;

verus! {

/// The version of the JSON that the commands print.
pub const JSON_SCHEMA_VERSION: u8 = 1;

/// An assignment as specifications speak of it: what stands before its first equals sign, trimmed,
/// and what stands behind.
pub open spec fn assignment(definition: Seq<char>, kind: Seq<char>) -> Result<
    (Seq<char>, Seq<char>),
    Failure,
> {
    let at = text::next_index(definition, '=', 0);
    if at >= definition.len() {
        Err(error::about(ErrorKind::AssignmentSyntax, kind))
    } else if text::is_blank(definition.take(at)) {
        Err(error::about(ErrorKind::AssignmentName, kind))
    } else {
        Ok((text::trim(definition.take(at)), definition.skip(at + 1)))
    }
}

/// Splits an assignment at its first equals sign.
pub fn split_assignment(definition: &str, kind: &str) -> (r: Result<(String, String), Error>)
    ensures
        error::agrees(r, assignment(definition@, kind@)),
{
    let chars = text::chars_of(definition);
    let at = text::find_char(&chars, '=', 0);
    if at == chars.len() {
        return Err(Error::about(ErrorKind::AssignmentSyntax, &text::chars_of(kind)));
    }
    let name = slice_subrange(chars.as_slice(), 0, at);
    let value = slice_subrange(chars.as_slice(), at + 1, chars.len());
    assert(name@ =~= definition@.take(at as int));
    assert(value@ =~= definition@.skip(at + 1));
    if text::blank(name) {
        return Err(Error::about(ErrorKind::AssignmentName, &text::chars_of(kind)));
    }
    Ok((text::string_of(text::trimmed(name, CharClass::Space)), text::string_of(value)))
}

/// What is demanded of the name of a custom field.
pub open spec fn key_check(key: Seq<char>) -> Result<(), Failure> {
    if text::is_blank(key) || key.contains('\r') || key.contains('\n') {
        Err(error::plain(ErrorKind::FieldKey))
    } else if fields::is_reserved(key) {
        Err(error::about(ErrorKind::ReservedKey, key))
    } else {
        Ok(())
    }
}

/// Checks the name of a custom field.
pub fn ensure_custom_key(key: &str) -> (r: Result<(), Error>)
    ensures
        error::decides(r, key_check(key@)),
{
    let chars = text::chars_of(key);
    if text::blank(&chars) || text::holds_char(&chars, '\r') || text::holds_char(&chars, '\n') {
        return Err(Error::plain(ErrorKind::FieldKey));
    }
    if fields::reserved(key) {
        return Err(Error::about(ErrorKind::ReservedKey, &chars));
    }
    Ok(())
}

/// The JSON text of the value that a YAML text stands for, or why there is none.
pub open spec fn yaml_result(json: Option<Seq<char>>) -> Result<Seq<char>, Failure> {
    match json {
        Some(json) => Ok(json),
        None => Err(error::plain(ErrorKind::InvalidYamlValue)),
    }
}

/// Reads a typed value: its JSON text.
pub fn parse_yaml_value(yaml: &str) -> (r: Result<String, Error>)
    ensures
        error::agrees(r, yaml_result(outside::yaml_value(yaml@))),
{
    match outside::read_yaml_value(yaml) {
        Some(json) => Ok(json),
        None => Err(Error::plain(ErrorKind::InvalidYamlValue)),
    }
}

/// The value of a field that is set: a string, or a typed value in YAML.
pub open spec fn field_value(value: Seq<char>, yaml: bool) -> Result<Seq<char>, Failure> {
    if yaml {
        yaml_result(outside::yaml_value(value))
    } else {
        Ok(outside::string_json(value))
    }
}

/// Reads the value of a field that is set: its JSON text.
pub fn parse_field_value(value: &str, yaml: bool) -> (r: Result<String, Error>)
    ensures
        error::agrees(r, field_value(value@, yaml)),
{
    if yaml {
        parse_yaml_value(value)
    } else {
        Ok(outside::write_string_json(value))
    }
}

/// The value of a custom field of a card.
pub open spec fn field_of(card: CardView, key: Seq<char>) -> Result<Seq<char>, Failure> {
    if card.metadata.extra.dom().contains(key) {
        Ok(card.metadata.extra[key])
    } else {
        Err(error::about(ErrorKind::FieldNotFound, key))
    }
}

/// The value of a custom field of a card.
pub fn get_custom_field(card: &Card, key: &str) -> (r: Result<String, Error>)
    ensures
        error::agrees(r, field_of(card@, key@)),
{
    match card.metadata.extra.get(key) {
        Some(value) => Ok(text::copy_string(value)),
        None => Err(Error::about(ErrorKind::FieldNotFound, &text::chars_of(key))),
    }
}

/// A value as YAML, or why it cannot be written.
pub open spec fn yaml_text(yaml: Option<Seq<char>>) -> Result<Seq<char>, Failure> {
    match yaml {
        Some(yaml) => Ok(yaml),
        None => Err(error::plain(ErrorKind::YamlNotWritten)),
    }
}

/// Writes the value of a custom field of a card as YAML.
pub fn field_text(card: &Card, key: &str) -> (r: Result<String, Error>)
    ensures
        error::agrees(
            r,
            match field_of(card@, key@) {
                Err(failure) => Err(failure),
                Ok(json) => yaml_text(outside::value_yaml(json)),
            },
        ),
{
    match get_custom_field(card, key) {
        Err(error) => Err(error),
        Ok(json) => match outside::write_value_yaml(&json) {
            Some(yaml) => Ok(yaml),
            None => Err(Error::plain(ErrorKind::YamlNotWritten)),
        },
    }
}

/// The JSON text of the first `n` members of an object, each value a JSON text itself.
pub open spec fn members(entries: Seq<(Seq<char>, Seq<char>)>, n: nat) -> Seq<char>
    decreases n,
{
    if n == 0 || n > entries.len() {
        Seq::empty()
    } else {
        let (key, value) = entries[n - 1];
        members(entries, (n - 1) as nat) + (if n > 1 {
            ","@
        } else {
            Seq::empty()
        }) + outside::string_json(key) + ":"@ + value
    }
}

/// The JSON text of an object, each value a JSON text itself.
pub open spec fn object(entries: Seq<(Seq<char>, Seq<char>)>) -> Seq<char> {
    "{"@ + members(entries, entries.len()) + "}"@
}

/// Writes an object in JSON, given its members in order.
fn write_object(entries: &Vec<(String, String)>) -> (r: String)
    ensures
        r@ == object(outside::entry_views(entries@)),
{
    let ghost views = outside::entry_views(entries@);
    let mut out = text::chars_of("{");
    let mut i: usize = 0;
    assert(out@ =~= "{"@ + members(views, 0));
    while i < entries.len()
        invariant
            i <= entries@.len(),
            views == outside::entry_views(entries@),
            views.len() == entries@.len(),
            out@ == "{"@ + members(views, i as nat),
        decreases entries@.len() - i,
    {
        let entry = &entries[i];
        assert(views[i as int] == (entry.0@, entry.1@));
        if i > 0 {
            text::push_str(&mut out, ",");
        }
        text::push_str(&mut out, &outside::write_string_json(&entry.0));
        text::push_str(&mut out, ":");
        text::push_str(&mut out, &entry.1);
        assert(out@ =~= "{"@ + members(views, (i + 1) as nat));
        i += 1;
    }
    text::push_str(&mut out, "}");
    text::string_of(&out)
}

/// Custom fields as YAML.
pub open spec fn fields_yaml(entries: Seq<(Seq<char>, Seq<char>)>) -> Result<Seq<char>, Failure> {
    yaml_text(outside::value_yaml(object(entries)))
}

/// Writes custom fields as YAML.
pub fn fields_text(extra: &Fields) -> (r: Result<String, Error>)
    ensures
        error::agrees(r, fields_yaml(extra.listing())),
{
    match outside::write_value_yaml(&write_object(&extra.entries())) {
        Some(yaml) => Ok(yaml),
        None => Err(Error::plain(ErrorKind::YamlNotWritten)),
    }
}

/// What a list of custom fields prints.
pub fn field_list_text(extra: &Fields) -> (r: Result<String, Error>)
    ensures
        error::agrees(
            r,
            if extra.listing().len() == 0 {
                Ok("No custom fields.\n"@)
            } else {
                fields_yaml(extra.listing())
            },
        ),
{
    if extra.len() == 0 {
        return Ok(text::copy_string("No custom fields.\n"));
    }
    fields_text(extra)
}

/// What a new card is made of on the command line, as specifications speak of it.
#[verifier::ext_equal]
pub struct AddView {
    pub card: CreateView,
    pub sections: Seq<Seq<char>>,
    pub checks: Seq<Seq<char>>,
    pub fields: Seq<Seq<char>>,
    pub yaml_fields: Seq<Seq<char>>,
}

/// What a new card is made of on the command line: its parts, and assignments that add to them.
pub struct AddCard {
    pub title: String,
    pub status: Option<String>,
    pub body: String,
    pub labels: Vec<String>,
    pub assignees: Vec<String>,
    pub sections: Vec<String>,
    pub checks: Vec<String>,
    pub fields: Vec<String>,
    pub yaml_fields: Vec<String>,
}

/// A body with the sections from `i` on set, each given as an assignment.
pub open spec fn with_sections(body: Seq<char>, definitions: Seq<Seq<char>>, i: int) -> Result<
    Seq<char>,
    Failure,
>
    decreases definitions.len() - i,
{
    if i < 0 || i >= definitions.len() {
        Ok(body)
    } else {
        match assignment(definitions[i], "section"@) {
            Err(failure) => Err(failure),
            Ok((heading, content)) => match markdown::section_set(body, heading, content) {
                Err(failure) => Err(failure),
                Ok(next) => with_sections(next, definitions, i + 1),
            },
        }
    }
}

/// A body with the checklist items from `i` on added, each given as an assignment.
pub open spec fn with_checks(body: Seq<char>, definitions: Seq<Seq<char>>, i: int) -> Result<
    Seq<char>,
    Failure,
>
    decreases definitions.len() - i,
{
    if i < 0 || i >= definitions.len() {
        Ok(body)
    } else {
        match assignment(definitions[i], "check"@) {
            Err(failure) => Err(failure),
            Ok((heading, text)) => match markdown::item_added(body, heading, text) {
                Err(failure) => Err(failure),
                Ok(next) => with_checks(next, definitions, i + 1),
            },
        }
    }
}

/// How fields of a sort are called in messages.
pub open spec fn field_kind(yaml: bool) -> Seq<char> {
    if yaml {
        "field-yaml"@
    } else {
        "field"@
    }
}

/// Fields with those from `i` on set, each given as an assignment.
pub open spec fn with_fields(
    extra: Map<Seq<char>, Seq<char>>,
    definitions: Seq<Seq<char>>,
    yaml: bool,
    i: int,
) -> Result<Map<Seq<char>, Seq<char>>, Failure>
    decreases definitions.len() - i,
{
    if i < 0 || i >= definitions.len() {
        Ok(extra)
    } else {
        match assignment(definitions[i], field_kind(yaml)) {
            Err(failure) => Err(failure),
            Ok((key, value)) => match (key_check(key), field_value(value, yaml)) {
                (Err(failure), _) => Err(failure),
                (_, Err(failure)) => Err(failure),
                (Ok(_), Ok(json)) => with_fields(
                    extra.insert(key, json),
                    definitions,
                    yaml,
                    i + 1,
                ),
            },
        }
    }
}

/// The body of a new card.
pub open spec fn add_body(
    body: Seq<char>,
    sections: Seq<Seq<char>>,
    checks: Seq<Seq<char>>,
) -> Result<Seq<char>, Failure> {
    match with_sections(body, sections, 0) {
        Err(failure) => Err(failure),
        Ok(next) => with_checks(next, checks, 0),
    }
}

/// The custom fields of a new card.
pub open spec fn add_fields(strings: Seq<Seq<char>>, yaml: Seq<Seq<char>>) -> Result<
    Map<Seq<char>, Seq<char>>,
    Failure,
> {
    match with_fields(Map::empty(), strings, false, 0) {
        Err(failure) => Err(failure),
        Ok(next) => with_fields(next, yaml, true, 0),
    }
}

/// Sets sections of a body, each given as an assignment.
fn set_sections(body: &str, definitions: &Vec<String>) -> (r: Result<String, Error>)
    ensures
        error::agrees(r, with_sections(body@, text::strings(definitions@), 0)),
{
    let ghost views = text::strings(definitions@);
    let mut current = text::copy_string(body);
    let mut i: usize = 0;
    while i < definitions.len()
        invariant
            i <= definitions@.len(),
            views == text::strings(definitions@),
            with_sections(current@, views, i as int) == with_sections(body@, views, 0),
        decreases definitions@.len() - i,
    {
        assert(views[i as int] == definitions@[i as int]@);
        match split_assignment(&definitions[i], "section") {
            Err(error) => {
                return Err(error);
            },
            Ok((heading, content)) => match markdown::set_section(&current, &heading, &content) {
                Err(error) => {
                    return Err(error);
                },
                Ok(next) => {
                    current = next;
                },
            },
        }
        i += 1;
    }
    Ok(current)
}

/// Adds checklist items to a body, each given as an assignment.
fn add_checks(body: &str, definitions: &Vec<String>) -> (r: Result<String, Error>)
    ensures
        error::agrees(r, with_checks(body@, text::strings(definitions@), 0)),
{
    let ghost views = text::strings(definitions@);
    let mut current = text::copy_string(body);
    let mut i: usize = 0;
    while i < definitions.len()
        invariant
            i <= definitions@.len(),
            views == text::strings(definitions@),
            with_checks(current@, views, i as int) == with_checks(body@, views, 0),
        decreases definitions@.len() - i,
    {
        assert(views[i as int] == definitions@[i as int]@);
        match split_assignment(&definitions[i], "check") {
            Err(error) => {
                return Err(error);
            },
            Ok((heading, item)) => match markdown::add_checklist_item(&current, &heading, &item) {
                Err(error) => {
                    return Err(error);
                },
                Ok(next) => {
                    current = next;
                },
            },
        }
        i += 1;
    }
    Ok(current)
}

/// Sets custom fields, each given as an assignment.
fn set_fields(extra: Fields, definitions: &Vec<String>, yaml: bool) -> (r: Result<Fields, Error>)
    ensures
        error::agrees(r, with_fields(extra@, text::strings(definitions@), yaml, 0)),
{
    let ghost views = text::strings(definitions@);
    let ghost first = extra@;
    let mut current = extra;
    let kind = if yaml {
        "field-yaml"
    } else {
        "field"
    };
    let mut i: usize = 0;
    while i < definitions.len()
        invariant
            i <= definitions@.len(),
            views == text::strings(definitions@),
            kind@ == field_kind(yaml),
            first == extra@,
            with_fields(current@, views, yaml, i as int) == with_fields(first, views, yaml, 0),
        decreases definitions@.len() - i,
    {
        assert(views[i as int] == definitions@[i as int]@);
        match split_assignment(&definitions[i], kind) {
            Err(error) => {
                return Err(error);
            },
            Ok((key, value)) => {
                match ensure_custom_key(&key) {
                    Ok(_) => {},
                    Err(error) => {
                        return Err(error);
                    },
                }
                match parse_field_value(&value, yaml) {
                    Err(error) => {
                        return Err(error);
                    },
                    Ok(json) => {
                        current = current.with(&key, &json);
                    },
                }
            },
        }
        i += 1;
    }
    Ok(current)
}

/// What the new card of a command line is made of.
pub open spec fn add_plan(input: AddView) -> Result<CreateView, Failure> {
    match (
        add_body(input.card.body, input.sections, input.checks),
        add_fields(input.fields, input.yaml_fields),
    ) {
        (Err(failure), _) => Err(failure),
        (_, Err(failure)) => Err(failure),
        (Ok(body), Ok(extra)) => Ok(CreateView { body, extra, ..input.card }),
    }
}

impl View for AddCard {
    type V = AddView;

    open spec fn view(&self) -> AddView {
        AddView {
            card: CreateView {
                title: self.title@,
                status: match self.status {
                    Some(status) => Some(status@),
                    None => None,
                },
                body: self.body@,
                labels: text::strings(self.labels@),
                assignees: text::strings(self.assignees@),
                extra: Map::empty(),
            },
            sections: text::strings(self.sections@),
            checks: text::strings(self.checks@),
            fields: text::strings(self.fields@),
            yaml_fields: text::strings(self.yaml_fields@),
        }
    }
}

/// Makes a new card out of a command line.
pub fn plan_add(input: AddCard) -> (r: Result<CreateCard, Error>)
    ensures
        error::agrees(r, add_plan(input@)),
{
    let body = match set_sections(&input.body, &input.sections) {
        Ok(body) => body,
        Err(error) => {
            return Err(error);
        },
    };
    let body = match add_checks(&body, &input.checks) {
        Ok(body) => body,
        Err(error) => {
            return Err(error);
        },
    };
    let extra = match set_fields(Fields::new(), &input.fields, false) {
        Ok(extra) => extra,
        Err(error) => {
            return Err(error);
        },
    };
    let extra = match set_fields(extra, &input.yaml_fields, true) {
        Ok(extra) => extra,
        Err(error) => {
            return Err(error);
        },
    };
    Ok(
        CreateCard {
            title: input.title,
            status: input.status,
            body,
            labels: input.labels,
            assignees: input.assignees,
            extra,
        },
    )
}

/// The status that a list is restricted to, in canonical spelling.
pub open spec fn list_status(config: ConfigView, status: Option<Seq<char>>) -> Result<
    Option<Seq<char>>,
    Failure,
> {
    match status {
        None => Ok(None),
        Some(status) => match config::status_of(config, status) {
            Some(name) => Ok(Some(name)),
            None => Err(error::about(ErrorKind::NoSuchStatus, status)),
        },
    }
}

/// Whether a card is in a list that may be restricted to a status and a label.
pub open spec fn is_in_list(
    card: CardView,
    status: Option<Seq<char>>,
    label: Option<Seq<char>>,
) -> bool {
    &&& status matches Some(status) ==> store::in_column(card, status)
    &&& label matches Some(label) ==> change::has_alike(card.metadata.labels, label)
}

/// The first `n` cards without those that are not in a list.
pub open spec fn in_list(
    cards: Seq<CardView>,
    status: Option<Seq<char>>,
    label: Option<Seq<char>>,
    n: nat,
) -> Seq<CardView>
    decreases n,
{
    if n == 0 || n > cards.len() {
        Seq::empty()
    } else {
        let before = in_list(cards, status, label, (n - 1) as nat);
        if is_in_list(cards[n - 1], status, label) {
            before.push(cards[n - 1])
        } else {
            before
        }
    }
}

/// The text of an optional string.
pub open spec fn text_of(value: Option<String>) -> Option<Seq<char>> {
    match value {
        Some(value) => Some(value@),
        None => None,
    }
}

/// Restricts a list of cards to a status and a label.
pub fn filter_cards(
    cards: &Vec<Card>,
    config: &BoardConfig,
    status: &Option<String>,
    label: &Option<String>,
) -> (r: Result<Vec<Card>, Error>)
    ensures
        match (r, list_status(config@, text_of(*status))) {
            (Ok(kept), Ok(name)) => model::card_views(kept@) == in_list(
                model::card_views(cards@),
                name,
                text_of(*label),
                cards@.len(),
            ),
            (Err(error), Err(failure)) => error@ == failure,
            _ => false,
        },
{
    let name: Option<String> = match status {
        None => None,
        Some(status) => match config.resolve_status(status) {
            Some(name) => Some(text::copy_string(name)),
            None => {
                return Err(Error::about(ErrorKind::NoSuchStatus, &text::chars_of(status)));
            },
        },
    };
    let ghost views = model::card_views(cards@);
    let ghost wanted = text_of(name);
    let mut kept: Vec<Card> = Vec::new();
    assert(model::card_views(kept@) =~= Seq::empty());
    let mut i: usize = 0;
    while i < cards.len()
        invariant
            i <= cards@.len(),
            views == model::card_views(cards@),
            views.len() == cards@.len(),
            wanted == text_of(name),
            model::card_views(kept@) == in_list(views, wanted, text_of(*label), i as nat),
        decreases cards@.len() - i,
    {
        assert(views[i as int] == cards@[i as int]@);
        let in_status = match &name {
            Some(name) => text::alike_strings(&cards[i].metadata.status, name),
            None => true,
        };
        let labelled = match label {
            Some(label) => change::holds_alike(&cards[i].metadata.labels, label),
            None => true,
        };
        if in_status && labelled {
            let card = cards[i].copied();
            let ghost before = model::card_views(kept@);
            let ghost added = card@;
            kept.push(card);
            assert(model::card_views(kept@) =~= before.push(added));
        }
        i += 1;
    }
    Ok(kept)
}

/// How far a checklist is, where there is one.
pub open spec fn progress_text(body: Seq<char>) -> Seq<char> {
    let (checked, total) = model::progress(body);
    if total > 0 {
        " ["@ + text::decimal(checked) + "/"@ + text::decimal(total) + "]"@
    } else {
        Seq::empty()
    }
}

/// Appends how far the checklist of a card is.
fn push_progress(out: &mut Vec<char>, card: &Card)
    ensures
        final(out)@ == old(out)@ + progress_text(card@.body),
{
    let (checked, total) = card.checklist_progress();
    if total > 0 {
        text::push_str(out, " [");
        text::push_number(out, checked);
        text::push_str(out, "/");
        text::push_number(out, total);
        text::push_str(out, "]");
    }
    assert(out@ =~= old(out)@ + progress_text(card@.body));
}

/// Labels behind a card.
pub open spec fn labels_text(labels: Seq<Seq<char>>) -> Seq<char> {
    if labels.len() == 0 {
        Seq::empty()
    } else {
        " #"@ + text::listed(labels, " #"@, labels.len())
    }
}

/// The line of a card on a board.
pub open spec fn board_line(card: CardView) -> Seq<char> {
    "  "@ + text::padded_right(card.metadata.id, 10) + " "@ + card.metadata.title + progress_text(
        card.body,
    ) + labels_text(card.metadata.labels) + "\n"@
}

/// The lines of the first `n` cards that are in a column.
pub open spec fn board_lines(cards: Seq<CardView>, column: Seq<char>, n: nat) -> Seq<char>
    decreases n,
{
    if n == 0 || n > cards.len() {
        Seq::empty()
    } else {
        let before = board_lines(cards, column, (n - 1) as nat);
        if store::in_column(cards[n - 1], column) {
            before + board_line(cards[n - 1])
        } else {
            before
        }
    }
}

/// The limit of a column behind its count.
pub open spec fn limit_text(limit: Option<usize>) -> Seq<char> {
    match limit {
        Some(limit) => "/"@ + text::decimal(limit as nat),
        None => Seq::empty(),
    }
}

/// A column of a board.
pub open spec fn board_column(cards: Seq<CardView>, column: ColumnView) -> Seq<char> {
    let count = store::count_in_column(cards, column.name, None, cards.len());
    "\n"@ + column.name + " ("@ + text::decimal(count) + limit_text(column.wip_limit) + ")\n"@ + if count
        == 0 {
        "  ·\n"@
    } else {
        Seq::empty()
    } + board_lines(cards, column.name, cards.len())
}

/// The first `n` columns of a board.
pub open spec fn board_columns(cards: Seq<CardView>, columns: Seq<ColumnView>, n: nat) -> Seq<char>
    decreases n,
{
    if n == 0 || n > columns.len() {
        Seq::empty()
    } else {
        board_columns(cards, columns, (n - 1) as nat) + board_column(cards, columns[n - 1])
    }
}

/// A board in text.
pub open spec fn board(config: ConfigView, cards: Seq<CardView>) -> Seq<char> {
    config.name + "\n"@ + board_columns(cards, config.columns, config.columns.len())
}

/// Appends the line of a card on a board.
fn push_board_line(out: &mut Vec<char>, card: &Card)
    ensures
        final(out)@ == old(out)@ + board_line(card@),
{
    let ghost start = out@;
    text::push_str(out, "  ");
    text::push_padded_right(out, &text::chars_of(&card.metadata.id), 10);
    text::push_str(out, " ");
    text::push_str(out, &card.metadata.title);
    push_progress(out, card);
    let ghost titled = out@;
    if card.metadata.labels.len() > 0 {
        text::push_str(out, " #");
        let labels = text::list_strings(&card.metadata.labels, " #");
        text::push_str(out, &labels);
    }
    assert(card@.metadata.labels.len() == card.metadata.labels@.len());
    assert(out@ =~= titled + labels_text(card@.metadata.labels));
    text::push_str(out, "\n");
    assert(out@ =~= start + board_line(card@));
}

/// Appends the lines of the cards that are in a column.
fn push_board_lines(out: &mut Vec<char>, cards: &Vec<Card>, column: &str)
    ensures
        final(out)@ == old(out)@ + board_lines(
            model::card_views(cards@),
            column@,
            cards@.len(),
        ),
{
    let ghost views = model::card_views(cards@);
    let ghost start = out@;
    let mut i: usize = 0;
    assert(out@ =~= start + board_lines(views, column@, 0));
    while i < cards.len()
        invariant
            i <= cards@.len(),
            views == model::card_views(cards@),
            views.len() == cards@.len(),
            out@ == start + board_lines(views, column@, i as nat),
        decreases cards@.len() - i,
    {
        assert(views[i as int] == cards@[i as int]@);
        if text::alike_strings(&cards[i].metadata.status, column) {
            push_board_line(out, &cards[i]);
        }
        assert(out@ =~= start + board_lines(views, column@, (i + 1) as nat));
        i += 1;
    }
}

/// Appends a column of a board.
fn push_board_column(out: &mut Vec<char>, cards: &Vec<Card>, column: &config::ColumnConfig)
    ensures
        final(out)@ == old(out)@ + board_column(model::card_views(cards@), column@),
{
    let ghost views = model::card_views(cards@);
    let ghost start = out@;
    let count = store::count_column(cards, &column.name, None);
    text::push_str(out, "\n");
    text::push_str(out, &column.name);
    text::push_str(out, " (");
    text::push_number(out, count);
    let ghost counted = out@;
    if let Some(limit) = column.wip_limit {
        text::push_str(out, "/");
        text::push_number(out, limit);
    }
    assert(out@ =~= counted + limit_text(column@.wip_limit));
    text::push_str(out, ")\n");
    let ghost headed = out@;
    if count == 0 {
        text::push_str(out, "  ·\n");
    }
    let ghost mark = if count == 0 {
        "  ·\n"@
    } else {
        Seq::empty()
    };
    assert(out@ =~= headed + mark);
    push_board_lines(out, cards, &column.name);
    assert(out@ =~= start + board_column(views, column@));
}

/// Writes a board, given its cards in order.
pub fn board_text(config: &BoardConfig, cards: &Vec<Card>) -> (r: String)
    ensures
        r@ == board(config@, model::card_views(cards@)),
{
    let ghost views = model::card_views(cards@);
    let ghost columns = config@.columns;
    let mut out = text::chars_of(&config.name);
    text::push_str(&mut out, "\n");
    let ghost start = out@;
    let mut i: usize = 0;
    assert(out@ =~= start + board_columns(views, columns, 0));
    while i < config.columns.len()
        invariant
            i <= config.columns@.len(),
            columns == config@.columns,
            columns.len() == config.columns@.len(),
            views == model::card_views(cards@),
            out@ == start + board_columns(views, columns, i as nat),
        decreases config.columns@.len() - i,
    {
        assert(columns[i as int] == config.columns@[i as int]@);
        push_board_column(&mut out, cards, &config.columns[i]);
        assert(out@ =~= start + board_columns(views, columns, (i + 1) as nat));
        i += 1;
    }
    text::string_of(&out)
}

/// The number of bytes of the longest id of the first `n` cards, and at least two.
pub open spec fn id_width(cards: Seq<CardView>, n: nat) -> nat
    decreases n,
{
    if n == 0 || n > cards.len() {
        2
    } else {
        let before = id_width(cards, (n - 1) as nat);
        let size = vstd::utf8::encode_utf8(cards[n - 1].metadata.id).len();
        if size > before {
            size
        } else {
            before
        }
    }
}

/// The number of bytes of the longest status of the first `n` cards, and at least six.
pub open spec fn status_width(cards: Seq<CardView>, n: nat) -> nat
    decreases n,
{
    if n == 0 || n > cards.len() {
        6
    } else {
        let before = status_width(cards, (n - 1) as nat);
        let size = vstd::utf8::encode_utf8(cards[n - 1].metadata.status).len();
        if size > before {
            size
        } else {
            before
        }
    }
}

/// The row of a card in a table.
pub open spec fn table_row(card: CardView, ids: nat, statuses: nat) -> Seq<char> {
    text::padded_right(card.metadata.id, ids) + "  "@ + text::padded_right(
        card.metadata.status,
        statuses,
    ) + "  "@ + card.metadata.title + progress_text(card.body) + "\n"@
}

/// The rows of the first `n` cards in a table.
pub open spec fn table_rows(cards: Seq<CardView>, ids: nat, statuses: nat, n: nat) -> Seq<char>
    decreases n,
{
    if n == 0 || n > cards.len() {
        Seq::empty()
    } else {
        table_rows(cards, ids, statuses, (n - 1) as nat) + table_row(cards[n - 1], ids, statuses)
    }
}

/// Cards in a table.
pub open spec fn card_table(cards: Seq<CardView>) -> Seq<char> {
    let ids = id_width(cards, cards.len());
    let statuses = status_width(cards, cards.len());
    if cards.len() == 0 {
        "No cards.\n"@
    } else {
        text::padded_right("ID"@, ids) + "  "@ + text::padded_right("STATUS"@, statuses)
            + "  TITLE\n"@ + table_rows(cards, ids, statuses, cards.len())
    }
}

/// Appends the row of a card in a table.
fn push_row(out: &mut Vec<char>, card: &Card, ids: usize, statuses: usize)
    ensures
        final(out)@ == old(out)@ + table_row(card@, ids as nat, statuses as nat),
{
    let ghost start = out@;
    text::push_padded_right(out, &text::chars_of(&card.metadata.id), ids);
    text::push_str(out, "  ");
    text::push_padded_right(out, &text::chars_of(&card.metadata.status), statuses);
    text::push_str(out, "  ");
    text::push_str(out, &card.metadata.title);
    push_progress(out, card);
    text::push_str(out, "\n");
    assert(out@ =~= start + table_row(card@, ids as nat, statuses as nat));
}

/// Writes cards in a table.
pub fn table_text(cards: &Vec<Card>) -> (r: String)
    ensures
        r@ == card_table(model::card_views(cards@)),
{
    if cards.len() == 0 {
        return text::copy_string("No cards.\n");
    }
    let ghost views = model::card_views(cards@);
    let mut ids: usize = 2;
    let mut statuses: usize = 6;
    let mut i: usize = 0;
    while i < cards.len()
        invariant
            i <= cards@.len(),
            views == model::card_views(cards@),
            views.len() == cards@.len(),
            ids == id_width(views, i as nat),
            statuses == status_width(views, i as nat),
        decreases cards@.len() - i,
    {
        assert(views[i as int] == cards@[i as int]@);
        let id = source::size_of(&cards[i].metadata.id);
        if id > ids {
            ids = id;
        }
        let status = source::size_of(&cards[i].metadata.status);
        if status > statuses {
            statuses = status;
        }
        i += 1;
    }
    let mut out: Vec<char> = Vec::new();
    text::push_padded_right(&mut out, &text::chars_of("ID"), ids);
    text::push_str(&mut out, "  ");
    text::push_padded_right(&mut out, &text::chars_of("STATUS"), statuses);
    text::push_str(&mut out, "  TITLE\n");
    let ghost start = out@;
    let mut i: usize = 0;
    assert(out@ =~= start + table_rows(views, ids as nat, statuses as nat, 0));
    while i < cards.len()
        invariant
            i <= cards@.len(),
            views == model::card_views(cards@),
            views.len() == cards@.len(),
            out@ == start + table_rows(views, ids as nat, statuses as nat, i as nat),
        decreases cards@.len() - i,
    {
        assert(views[i as int] == cards@[i as int]@);
        push_row(&mut out, &cards[i], ids, statuses);
        assert(out@ =~= start + table_rows(views, ids as nat, statuses as nat, (i + 1) as nat));
        i += 1;
    }
    assert(out@ =~= card_table(views));
    text::string_of(&out)
}

/// A line with a list of values, where there are any.
pub open spec fn list_line(name: Seq<char>, values: Seq<Seq<char>>) -> Seq<char> {
    if values.len() == 0 {
        Seq::empty()
    } else {
        name + text::listed(values, ", "@, values.len()) + "\n"@
    }
}

/// What is shown of a card, given its custom fields in YAML where it has any.
pub open spec fn card_text(card: CardView, fields: Option<Seq<char>>) -> Seq<char> {
    let (checked, total) = model::progress(card.body);
    card.metadata.id + " — "@ + card.metadata.title + "\nStatus: "@ + card.metadata.status + "\n"@
        + list_line("Labels: "@, card.metadata.labels) + list_line(
        "Assignees: "@,
        card.metadata.assignees,
    ) + (if total > 0 {
        "Checklist: "@ + text::decimal(checked) + "/"@ + text::decimal(total) + "\n"@
    } else {
        Seq::empty()
    }) + (match fields {
        Some(yaml) => "Custom fields:\n"@ + yaml,
        None => Seq::empty(),
    }) + if card.body.len() == 0 {
        Seq::empty()
    } else {
        "\n"@ + text::trim_end(card.body, CharClass::Space) + "\n"@
    }
}

/// Appends a line with a list of values.
fn push_list_line(out: &mut Vec<char>, name: &str, values: &Vec<String>)
    ensures
        final(out)@ == old(out)@ + list_line(name@, text::strings(values@)),
{
    let ghost start = out@;
    if values.len() > 0 {
        text::push_str(out, name);
        let listed = text::list_strings(values, ", ");
        text::push_str(out, &listed);
        text::push_str(out, "\n");
    }
    assert(text::strings(values@).len() == values@.len());
    assert(out@ =~= start + list_line(name@, text::strings(values@)));
}

/// Writes what is shown of a card, given its custom fields in YAML.
fn write_card_text(card: &Card, fields: &Option<String>) -> (r: String)
    ensures
        r@ == card_text(card@, text_of(*fields)),
{
    let (checked, total) = card.checklist_progress();
    let mut out = text::chars_of(&card.metadata.id);
    text::push_str(&mut out, " — ");
    text::push_str(&mut out, &card.metadata.title);
    text::push_str(&mut out, "\nStatus: ");
    text::push_str(&mut out, &card.metadata.status);
    text::push_str(&mut out, "\n");
    push_list_line(&mut out, "Labels: ", &card.metadata.labels);
    push_list_line(&mut out, "Assignees: ", &card.metadata.assignees);
    let ghost so_far = out@;
    let ghost progress = if total > 0 {
        "Checklist: "@ + text::decimal(checked as nat) + "/"@ + text::decimal(total as nat) + "\n"@
    } else {
        Seq::empty()
    };
    if total > 0 {
        text::push_str(&mut out, "Checklist: ");
        text::push_number(&mut out, checked);
        text::push_str(&mut out, "/");
        text::push_number(&mut out, total);
        text::push_str(&mut out, "\n");
    }
    assert(out@ =~= so_far + progress);
    let ghost custom = match fields {
        Some(yaml) => "Custom fields:\n"@ + yaml@,
        None => Seq::empty(),
    };
    if let Some(yaml) = fields {
        text::push_str(&mut out, "Custom fields:\n");
        text::push_str(&mut out, yaml);
    }
    assert(out@ =~= so_far + progress + custom);
    let body = text::chars_of(&card.body);
    let ghost last = if card@.body.len() == 0 {
        Seq::empty()
    } else {
        "\n"@ + text::trim_end(card@.body, CharClass::Space) + "\n"@
    };
    if body.len() > 0 {
        text::push_str(&mut out, "\n");
        text::push_all(&mut out, text::without_trail(&body, CharClass::Space));
        text::push_str(&mut out, "\n");
    }
    assert(out@ =~= so_far + progress + custom + last);
    text::string_of(&out)
}

/// Writes what is shown of a card.
pub fn show_text(card: &Card) -> (r: Result<String, Error>)
    ensures
        error::agrees(
            r,
            if card.metadata.extra.listing().len() == 0 {
                Ok(card_text(card@, None))
            } else {
                match fields_yaml(card.metadata.extra.listing()) {
                    Ok(yaml) => Ok(card_text(card@, Some(yaml))),
                    Err(failure) => Err(failure),
                }
            },
        ),
{
    if card.metadata.extra.len() == 0 {
        return Ok(write_card_text(card, &None));
    }
    match fields_text(&card.metadata.extra) {
        Ok(yaml) => Ok(write_card_text(card, &Some(yaml))),
        Err(error) => Err(error),
    }
}

/// Whether an item is in a list that may be restricted to a section.
pub open spec fn is_item_listed(item: ItemView, section: Option<Seq<char>>) -> bool {
    section matches Some(name) ==> (item.section matches Some(title) && text::alike(title, name))
}

/// The first `n` items without those that are not in a list.
pub open spec fn listed_items(items: Seq<ItemView>, section: Option<Seq<char>>, n: nat) -> Seq<
    ItemView,
>
    decreases n,
{
    if n == 0 || n > items.len() {
        Seq::empty()
    } else {
        let before = listed_items(items, section, (n - 1) as nat);
        if is_item_listed(items[n - 1], section) {
            before.push(items[n - 1])
        } else {
            before
        }
    }
}

/// Copies a checklist item.
fn copy_item(item: &ChecklistItem) -> (r: ChecklistItem)
    ensures
        r@ == item@,
{
    let section = match &item.section {
        Some(title) => Some(text::copy_string(title)),
        None => None,
    };
    ChecklistItem {
        section,
        index: item.index,
        global_index: item.global_index,
        text: text::copy_string(&item.text),
        checked: item.checked,
        line_number: item.line_number,
        checkbox: item.checkbox,
        line: item.line,
    }
}

/// Restricts the checklist items of a body to a section.
pub fn filter_items(body: &str, section: &Option<String>) -> (r: Vec<ChecklistItem>)
    ensures
        markdown::item_views(r@) == listed_items(
            markdown::items_in(body@),
            text_of(*section),
            markdown::items_in(body@).len(),
        ),
{
    let items = markdown::checklist_items(body);
    let ghost views = markdown::item_views(items@);
    let mut kept: Vec<ChecklistItem> = Vec::new();
    assert(markdown::item_views(kept@) =~= Seq::empty());
    let mut i: usize = 0;
    while i < items.len()
        invariant
            i <= items@.len(),
            views == markdown::item_views(items@),
            views.len() == items@.len(),
            markdown::item_views(kept@) == listed_items(views, text_of(*section), i as nat),
        decreases items@.len() - i,
    {
        assert(views[i as int] == items@[i as int]@);
        let wanted = match section {
            None => true,
            Some(name) => match &items[i].section {
                Some(title) => text::alike_strings(title, name),
                None => false,
            },
        };
        if wanted {
            let item = copy_item(&items[i]);
            let ghost before = markdown::item_views(kept@);
            let ghost added = item@;
            kept.push(item);
            assert(markdown::item_views(kept@) =~= before.push(added));
        }
        i += 1;
    }
    kept
}

/// The line of a checklist item: its number in the body, its section, its number there, its state
/// and its text.
pub open spec fn item_row(item: ItemView) -> Seq<char> {
    text::padded_left(text::decimal(item.global_index), 3) + " "@ + text::padded_right(
        markdown::item_label(item),
        20,
    ) + " "@ + text::padded_left(text::decimal(item.index), 3) + (if item.checked {
        " [x] "@
    } else {
        " [ ] "@
    }) + item.text + "\n"@
}

/// The lines of the first `n` checklist items.
pub open spec fn item_rows(items: Seq<ItemView>, n: nat) -> Seq<char>
    decreases n,
{
    if n == 0 || n > items.len() {
        Seq::empty()
    } else {
        item_rows(items, (n - 1) as nat) + item_row(items[n - 1])
    }
}

/// Appends the line of a checklist item.
fn push_item(out: &mut Vec<char>, item: &ChecklistItem)
    ensures
        final(out)@ == old(out)@ + item_row(item@),
{
    let ghost start = out@;
    text::push_padded_left(out, &text::decimal_of(item.global_index as u64), 3);
    text::push_str(out, " ");
    let label = match &item.section {
        Some(title) => text::chars_of(title),
        None => text::chars_of("(preamble)"),
    };
    text::push_padded_right(out, &label, 20);
    text::push_str(out, " ");
    text::push_padded_left(out, &text::decimal_of(item.index as u64), 3);
    if item.checked {
        text::push_str(out, " [x] ");
    } else {
        text::push_str(out, " [ ] ");
    }
    text::push_str(out, &item.text);
    text::push_str(out, "\n");
    assert(out@ =~= start + item_row(item@));
}

/// Writes checklist items, a line each.
pub fn items_text(items: &Vec<ChecklistItem>) -> (r: String)
    ensures
        r@ == item_rows(markdown::item_views(items@), items@.len()),
{
    let ghost views = markdown::item_views(items@);
    let mut out: Vec<char> = Vec::new();
    let mut i: usize = 0;
    while i < items.len()
        invariant
            i <= items@.len(),
            views == markdown::item_views(items@),
            views.len() == items@.len(),
            out@ == item_rows(views, i as nat),
        decreases items@.len() - i,
    {
        assert(views[i as int] == items@[i as int]@);
        push_item(&mut out, &items[i]);
        i += 1;
    }
    text::string_of(&out)
}

/// The line of a section: as many number signs as it is deep, and its title.
pub open spec fn section_row(section: SectionView) -> Seq<char> {
    Seq::new(section.level as nat, |i: int| '#') + " "@ + section.title + "\n"@
}

/// The lines of the first `n` sections.
pub open spec fn section_rows(sections: Seq<SectionView>, n: nat) -> Seq<char>
    decreases n,
{
    if n == 0 || n > sections.len() {
        Seq::empty()
    } else {
        section_rows(sections, (n - 1) as nat) + section_row(sections[n - 1])
    }
}

/// Appends the line of a section.
fn push_section(out: &mut Vec<char>, section: &Section)
    ensures
        final(out)@ == old(out)@ + section_row(section@),
{
    let ghost start = out@;
    let mut i: u8 = 0;
    while i < section.level
        invariant
            i <= section.level,
            out@ =~= start + Seq::new(i as nat, |i: int| '#'),
        decreases section.level - i,
    {
        out.push('#');
        i += 1;
    }
    text::push_str(out, " ");
    text::push_str(out, &section.title);
    text::push_str(out, "\n");
    assert(out@ =~= start + section_row(section@));
}

/// Writes the sections of a body, a line each.
pub fn sections_text(body: &str) -> (r: String)
    ensures
        r@ == section_rows(
            markdown::sections_in_bytes(body@),
            markdown::sections_in_bytes(body@).len(),
        ),
{
    let sections = markdown::sections(body);
    let ghost views = sections@.map_values(|section: Section| section@);
    let mut out: Vec<char> = Vec::new();
    let mut i: usize = 0;
    while i < sections.len()
        invariant
            i <= sections@.len(),
            views == sections@.map_values(|section: Section| section@),
            views.len() == sections@.len(),
            out@ == section_rows(views, i as nat),
        decreases sections@.len() - i,
    {
        assert(views[i as int] == sections@[i as int]@);
        push_section(&mut out, &sections[i]);
        i += 1;
    }
    text::string_of(&out)
}

/// What is shown of a section: its content, where there is one.
pub open spec fn shown_section(s: Seq<char>, heading: Seq<char>) -> Result<Seq<char>, Failure> {
    match markdown::content_named(s, heading) {
        Err(failure) => Err(failure),
        Ok(None) => Err(error::about(ErrorKind::SectionNotFound, heading)),
        Ok(Some(content)) => Ok(content),
    }
}

/// The content of a section that is to be shown.
pub fn show_section(body: &str, heading: &str) -> (r: Result<String, Error>)
    ensures
        error::agrees(r, shown_section(body@, heading@)),
{
    match markdown::section_content(body, heading) {
        Err(error) => Err(error),
        Ok(None) => Err(Error::about(ErrorKind::SectionNotFound, &text::chars_of(heading))),
        Ok(Some(content)) => Ok(content),
    }
}

/// Refuses to append nothing to a section.
pub fn ensure_content(content: &str) -> (r: Result<(), Error>)
    ensures
        error::decides(
            r,
            if text::is_blank(content@) {
                Err(error::plain(ErrorKind::EmptyAppend))
            } else {
                Ok(())
            },
        ),
{
    if text::blank(&text::chars_of(content)) {
        return Err(Error::plain(ErrorKind::EmptyAppend));
    }
    Ok(())
}

/// What is shown of a comment: its id, author and time in a line, and its text.
pub open spec fn comment_text(comment: CommentView) -> Seq<char> {
    comment.id + " — "@ + comment.author + " — "@ + comment.created_at + "\n\n"@ + comment.body
        + "\n"@
}

/// What is shown of the first `n` comments.
pub open spec fn comments_text(comments: Seq<CommentView>, n: nat) -> Seq<char>
    decreases n,
{
    if n == 0 || n > comments.len() {
        Seq::empty()
    } else if n == 1 {
        comment_text(comments[0])
    } else {
        comments_text(comments, (n - 1) as nat) + "\n"@ + comment_text(comments[n - 1])
    }
}

/// Appends what is shown of a comment.
fn push_comment(out: &mut Vec<char>, comment: &comments::Comment)
    ensures
        final(out)@ == old(out)@ + comment_text(comment@),
{
    let ghost start = out@;
    text::push_str(out, &comment.id);
    text::push_str(out, " — ");
    text::push_str(out, &comment.author);
    text::push_str(out, " — ");
    text::push_str(out, &comment.created_at);
    text::push_str(out, "\n\n");
    text::push_str(out, &comment.body);
    text::push_str(out, "\n");
    assert(out@ =~= start + comment_text(comment@));
}

/// Writes a comment.
pub fn show_comment(comment: &comments::Comment) -> (r: String)
    ensures
        r@ == comment_text(comment@),
{
    let mut out: Vec<char> = Vec::new();
    push_comment(&mut out, comment);
    text::string_of(&out)
}

/// Writes comments in their order.
pub fn list_comments(comments: &Vec<comments::Comment>) -> (r: String)
    ensures
        r@ == if comments@.len() == 0 {
            "No comments.\n"@
        } else {
            comments_text(document::comment_views(comments@), comments@.len())
        },
{
    if comments.len() == 0 {
        return text::copy_string("No comments.\n");
    }
    let ghost views = document::comment_views(comments@);
    let mut out: Vec<char> = Vec::new();
    let mut i: usize = 0;
    while i < comments.len()
        invariant
            i <= comments@.len(),
            views == document::comment_views(comments@),
            views.len() == comments@.len(),
            out@ == comments_text(views, i as nat),
        decreases comments@.len() - i,
    {
        assert(views[i as int] == comments@[i as int]@);
        if i > 0 {
            text::push_str(&mut out, "\n");
        }
        push_comment(&mut out, &comments[i]);
        assert(out@ =~= comments_text(views, (i + 1) as nat));
        i += 1;
    }
    text::string_of(&out)
}

/// The comments of a card, or why there are none, with the path of its file.
pub open spec fn card_comments(card: CardView) -> Result<Seq<CommentView>, Failure> {
    match document::document(card.body) {
        Ok(document) => Ok(document.comments),
        Err(failure) => Err(
            error::detailed(ErrorKind::InFile, card.path, error::told(failure)),
        ),
    }
}

/// Reads the comments of a card.
pub fn read_comments(card: &Card) -> (r: Result<Vec<comments::Comment>, Error>)
    ensures
        match (r, card_comments(card@)) {
            (Ok(comments), Ok(expected)) => document::comment_views(comments@) == expected,
            (Err(error), Err(failure)) => error@ == failure,
            _ => false,
        },
{
    match comments::parse(&card.body) {
        Ok(comments) => Ok(comments),
        Err(error) => {
            let told = error.message();
            Err(
                Error::detailed(
                    ErrorKind::InFile,
                    &text::chars_of(&card.path),
                    &text::chars_of(&told),
                ),
            )
        },
    }
}

/// The name of a new board: the one that is given, else that of its directory, else a general one.
pub open spec fn board_name(given: Option<Seq<char>>, directory: Option<Seq<char>>) -> Seq<char> {
    match given {
        Some(name) => name,
        None => match directory {
            Some(name) => if name.len() > 0 {
                name
            } else {
                "Kanban"@
            },
            None => "Kanban"@,
        },
    }
}

/// Chooses the configuration of a new board.
pub fn init_config(
    name: &Option<String>,
    directory: &Option<String>,
    prefix: &str,
    statuses: Vec<String>,
) -> (r: BoardConfig)
    ensures
        r@ == config::new_config(
            board_name(text_of(*name), text_of(*directory)),
            prefix@,
            text::strings(statuses@),
        ),
{
    let chosen = match name {
        Some(name) => text::copy_string(name),
        None => match directory {
            Some(name) => if text::chars_of(name).len() > 0 {
                text::copy_string(name)
            } else {
                text::copy_string("Kanban")
            },
            None => text::copy_string("Kanban"),
        },
    };
    BoardConfig::new(&chosen, prefix, statuses)
}

/// What is told of the issues of a project: a line each.
pub open spec fn issue_lines(issues: Seq<store::IssueView>, n: nat) -> Seq<char>
    decreases n,
{
    if n == 0 || n > issues.len() {
        Seq::empty()
    } else {
        issue_lines(issues, (n - 1) as nat) + issues[n - 1].path + ": "@ + issues[n - 1].message
            + "\n"@
    }
}

/// Writes the issues of a project, a line each.
pub fn issues_text(issues: &Vec<store::ValidationIssue>) -> (r: String)
    ensures
        r@ == issue_lines(store::issue_views(issues@), issues@.len()),
{
    let ghost views = store::issue_views(issues@);
    let mut out: Vec<char> = Vec::new();
    let mut i: usize = 0;
    while i < issues.len()
        invariant
            i <= issues@.len(),
            views == store::issue_views(issues@),
            views.len() == issues@.len(),
            out@ == issue_lines(views, i as nat),
        decreases issues@.len() - i,
    {
        assert(views[i as int] == issues@[i as int]@);
        text::push_str(&mut out, &issues[i].path);
        text::push_str(&mut out, ": ");
        text::push_str(&mut out, &issues[i].message);
        text::push_str(&mut out, "\n");
        i += 1;
    }
    text::string_of(&out)
}

/// The outcome of checking a project: an error that counts its issues, where there are any.
pub fn validation_outcome(issues: &Vec<store::ValidationIssue>) -> (r: Result<(), Error>)
    ensures
        error::decides(
            r,
            if issues@.len() == 0 {
                Ok(())
            } else {
                Err(error::about(ErrorKind::ValidationFailed, text::decimal(issues@.len())))
            },
        ),
{
    if issues.len() == 0 {
        return Ok(());
    }
    let count = text::decimal_of(issues.len() as u64);
    Err(Error::about(ErrorKind::ValidationFailed, &count))
}

/// A change of a checklist that is asked for: in a section, or anywhere in the body.
#[derive(Clone, Debug, PartialEq, Eq)]
pub enum CheckCommand {
    Add { section: String, text: String },
    Toggle { section: String, index: usize },
    Check { section: String, index: usize },
    Uncheck { section: String, index: usize },
    Remove { section: String, index: usize },
    ToggleGlobal { index: usize },
    CheckGlobal { index: usize },
    UncheckGlobal { index: usize },
    RemoveGlobal { index: usize },
}

/// The change of a card that is asked for.
pub open spec fn check_change(command: CheckCommand) -> Change {
    match command {
        CheckCommand::Add { section, text } => Change::AddItem { section, text },
        CheckCommand::Toggle { section, index } => Change::ToggleItem { section, index },
        CheckCommand::Check { section, index } => Change::SetItem { section, index, checked: true },
        CheckCommand::Uncheck { section, index } => Change::SetItem {
            section,
            index,
            checked: false,
        },
        CheckCommand::Remove { section, index } => Change::RemoveItem { section, index },
        CheckCommand::ToggleGlobal { index } => Change::ToggleGlobal { index },
        CheckCommand::CheckGlobal { index } => Change::SetGlobal { index, checked: true },
        CheckCommand::UncheckGlobal { index } => Change::SetGlobal { index, checked: false },
        CheckCommand::RemoveGlobal { index } => Change::RemoveGlobal { index },
    }
}

/// What the checklist is called in the answer.
pub open spec fn check_name(command: CheckCommand) -> Seq<char> {
    match command {
        CheckCommand::Add { section, .. } => section@,
        CheckCommand::Toggle { section, .. } => section@,
        CheckCommand::Check { section, .. } => section@,
        CheckCommand::Uncheck { section, .. } => section@,
        CheckCommand::Remove { section, .. } => section@,
        _ => "global"@,
    }
}

/// Whether a result is that of changing a card at some time, and of answering with a text and the id
/// of the card.
pub open spec fn is_told(
    project: ProjectView,
    files: Seq<FileView>,
    id: Seq<char>,
    change: Change,
    answer: Seq<char>,
    result: Result<(CardWrite, String), Error>,
) -> bool {
    match result {
        Ok((write, told)) => store::is_update(project, files, id, change, Ok(write)) && told@
            == answer + write@.card.metadata.id + "\n"@,
        Err(error) => store::is_update(project, files, id, change, Err(error)),
    }
}

/// Changes a card, and answers with a text and the id of the card.
fn tell_update(
    project: &Project,
    files: &Vec<LoadedFile>,
    id: &str,
    change: &Change,
    answer: Vec<char>,
) -> (r: Result<(CardWrite, String), Error>)
    ensures
        is_told(project@, store::file_views(files@), id@, *change, answer@, r),
{
    match project.update_card(files, id, change) {
        Ok(write) => {
            let mut told = answer;
            text::push_str(&mut told, &write.card.metadata.id);
            text::push_str(&mut told, "\n");
            Ok((write, text::string_of(&told)))
        },
        Err(error) => Err(error),
    }
}

/// A text, a quoted name and a text.
pub open spec fn quoting(before: Seq<char>, name: Seq<char>, after: Seq<char>) -> Seq<char> {
    before + outside::debug_form(name) + after
}

/// Writes a text, a quoted name and a text.
fn quote(before: &str, name: &str, after: &str) -> (r: Vec<char>)
    ensures
        r@ == quoting(before@, name@, after@),
{
    let mut out = text::chars_of(before);
    text::push_str(&mut out, &outside::debug_quoted(name));
    text::push_str(&mut out, after);
    out
}

/// Changes a checklist of a card, given the files of the project, and answers.
pub fn change_checklist(
    project: &Project,
    files: &Vec<LoadedFile>,
    id: &str,
    command: CheckCommand,
) -> (r: Result<(CardWrite, String), Error>)
    ensures
        is_told(
            project@,
            store::file_views(files@),
            id@,
            check_change(command),
            quoting("Updated checklist "@, check_name(command), " on "@),
            r,
        ),
{
    let name = match &command {
        CheckCommand::Add { section, .. } => text::copy_string(section),
        CheckCommand::Toggle { section, .. } => text::copy_string(section),
        CheckCommand::Check { section, .. } => text::copy_string(section),
        CheckCommand::Uncheck { section, .. } => text::copy_string(section),
        CheckCommand::Remove { section, .. } => text::copy_string(section),
        _ => text::copy_string("global"),
    };
    let change = match command {
        CheckCommand::Add { section, text } => Change::AddItem { section, text },
        CheckCommand::Toggle { section, index } => Change::ToggleItem { section, index },
        CheckCommand::Check { section, index } => Change::SetItem { section, index, checked: true },
        CheckCommand::Uncheck { section, index } => Change::SetItem {
            section,
            index,
            checked: false,
        },
        CheckCommand::Remove { section, index } => Change::RemoveItem { section, index },
        CheckCommand::ToggleGlobal { index } => Change::ToggleGlobal { index },
        CheckCommand::CheckGlobal { index } => Change::SetGlobal { index, checked: true },
        CheckCommand::UncheckGlobal { index } => Change::SetGlobal { index, checked: false },
        CheckCommand::RemoveGlobal { index } => Change::RemoveGlobal { index },
    };
    let answer = quote("Updated checklist ", &name, " on ");
    tell_update(project, files, id, &change, answer)
}

/// A change of a section that is asked for.
#[derive(Clone, Debug, PartialEq, Eq)]
pub enum SectionCommand {
    Replace { heading: String, content: String },
    Append { heading: String, content: String },
    Remove { heading: String },
}

/// Whether a result is that of changing a section of a card at some time, and of answering. Nothing
/// cannot be appended.
pub open spec fn is_section_changed(
    project: ProjectView,
    files: Seq<FileView>,
    id: Seq<char>,
    command: SectionCommand,
    result: Result<(CardWrite, String), Error>,
) -> bool {
    match command {
        SectionCommand::Replace { heading, content } => is_told(
            project,
            files,
            id,
            Change::SetSection { heading, content },
            quoting("Set section "@, heading@, " on "@),
            result,
        ),
        SectionCommand::Append { heading, content } => if text::is_blank(content@) {
            result matches Err(error) && error@ == error::plain(ErrorKind::EmptyAppend)
        } else {
            is_told(
                project,
                files,
                id,
                Change::AppendSection { heading, content },
                quoting("Appended to section "@, heading@, " on "@),
                result,
            )
        },
        SectionCommand::Remove { heading } => is_told(
            project,
            files,
            id,
            Change::RemoveSection { heading },
            quoting("Removed section "@, heading@, " from "@),
            result,
        ),
    }
}

/// Changes a section of a card, given the files of the project, and answers.
pub fn change_section(
    project: &Project,
    files: &Vec<LoadedFile>,
    id: &str,
    command: SectionCommand,
) -> (r: Result<(CardWrite, String), Error>)
    ensures
        is_section_changed(project@, store::file_views(files@), id@, command, r),
{
    match command {
        SectionCommand::Replace { heading, content } => {
            let answer = quote("Set section ", &heading, " on ");
            tell_update(project, files, id, &Change::SetSection { heading, content }, answer)
        },
        SectionCommand::Append { heading, content } => {
            match ensure_content(&content) {
                Ok(_) => {},
                Err(error) => {
                    return Err(error);
                },
            }
            let answer = quote("Appended to section ", &heading, " on ");
            tell_update(project, files, id, &Change::AppendSection { heading, content }, answer)
        },
        SectionCommand::Remove { heading } => {
            let answer = quote("Removed section ", &heading, " from ");
            tell_update(project, files, id, &Change::RemoveSection { heading }, answer)
        },
    }
}

/// A change of a custom field that is asked for.
#[derive(Clone, Debug, PartialEq, Eq)]
pub enum FieldCommand {
    /// The value is a string, or a typed value in YAML.
    Assign { key: String, value: String, yaml: bool },
    Unset { key: String },
}

/// Whether a result is that of setting a custom field to a JSON text at some time, and of answering.
pub open spec fn is_field_set(
    project: ProjectView,
    files: Seq<FileView>,
    id: Seq<char>,
    key: String,
    json: Seq<char>,
    result: Result<(CardWrite, String), Error>,
) -> bool {
    exists|value: String|
        value@ == json && #[trigger] is_told(
            project,
            files,
            id,
            Change::SetField { key, value },
            "Set "@ + key@ + " on "@,
            result,
        )
}

/// Whether a result is that of changing a custom field of a card at some time, and of answering.
/// What names no custom field, or stands for no value, is refused.
pub open spec fn is_field_changed(
    project: ProjectView,
    files: Seq<FileView>,
    id: Seq<char>,
    command: FieldCommand,
    result: Result<(CardWrite, String), Error>,
) -> bool {
    match command {
        FieldCommand::Assign { key, value, yaml } => match (key_check(key@), field_value(value@, yaml)) {
            (Err(failure), _) => result matches Err(error) && error@ == failure,
            (Ok(_), Err(failure)) => result matches Err(error) && error@ == failure,
            (Ok(_), Ok(json)) => is_field_set(project, files, id, key, json, result),
        },
        FieldCommand::Unset { key } => match key_check(key@) {
            Err(failure) => result matches Err(error) && error@ == failure,
            Ok(_) => is_told(
                project,
                files,
                id,
                Change::UnsetField { key },
                "Removed "@ + key@ + " from "@,
                result,
            ),
        },
    }
}

/// Changes a custom field of a card, given the files of the project, and answers.
pub fn change_field(
    project: &Project,
    files: &Vec<LoadedFile>,
    id: &str,
    command: FieldCommand,
) -> (r: Result<(CardWrite, String), Error>)
    ensures
        is_field_changed(project@, store::file_views(files@), id@, command, r),
{
    let key = match &command {
        FieldCommand::Assign { key, .. } => key,
        FieldCommand::Unset { key } => key,
    };
    match ensure_custom_key(key) {
        Ok(_) => {},
        Err(error) => {
            return Err(error);
        },
    }
    match command {
        FieldCommand::Assign { key, value, yaml } => {
            let json = match parse_field_value(&value, yaml) {
                Ok(json) => json,
                Err(error) => {
                    return Err(error);
                },
            };
            let mut answer = text::chars_of("Set ");
            text::push_str(&mut answer, &key);
            text::push_str(&mut answer, " on ");
            let ghost (name, text) = (key, json);
            let r = tell_update(project, files, id, &Change::SetField { key, value: json }, answer);
            assert(is_told(
                project@,
                store::file_views(files@),
                id@,
                Change::SetField { key: name, value: text },
                "Set "@ + name@ + " on "@,
                r,
            ));
            r
        },
        FieldCommand::Unset { key } => {
            let mut answer = text::chars_of("Removed ");
            text::push_str(&mut answer, &key);
            text::push_str(&mut answer, " from ");
            tell_update(project, files, id, &Change::UnsetField { key }, answer)
        },
    }
}

/// Whether a result is that of editing a card at some time. An edit that changes nothing is refused.
pub open spec fn is_edited(
    project: ProjectView,
    files: Seq<FileView>,
    id: Seq<char>,
    edit: Edit,
    result: Result<CardWrite, Error>,
) -> bool {
    if change::is_empty_edit(edit) {
        result matches Err(error) && error@ == error::plain(ErrorKind::NoEdits)
    } else {
        store::is_update(project, files, id, Change::Edit(edit), result)
    }
}

/// Edits a card, given the files of the project.
pub fn edit_card(project: &Project, files: &Vec<LoadedFile>, id: &str, edit: Edit) -> (r: Result<
    CardWrite,
    Error,
>)
    ensures
        is_edited(project@, store::file_views(files@), id@, edit, r),
{
    match change::ensure_edit(&edit) {
        Ok(_) => {},
        Err(error) => {
            return Err(error);
        },
    }
    project.update_card(files, id, &Change::Edit(edit))
}

/// The answer to a command that wrote a card.
pub open spec fn card_line(verb: Seq<char>, metadata: MetadataView) -> Seq<char> {
    verb + " "@ + metadata.id + " — "@ + metadata.title + "\n"@
}

/// Answers a command that wrote a card.
pub fn mutation_text(card: &Card, verb: &str) -> (r: String)
    ensures
        r@ == card_line(verb@, card@.metadata),
{
    let mut out = text::chars_of(verb);
    text::push_str(&mut out, " ");
    text::push_str(&mut out, &card.metadata.id);
    text::push_str(&mut out, " — ");
    text::push_str(&mut out, &card.metadata.title);
    text::push_str(&mut out, "\n");
    text::string_of(&out)
}

/// Answers a command that created a card: with the card and the path of its file.
pub fn created_text(card: &Card) -> (r: String)
    ensures
        r@ == card_line("Created"@, card@.metadata) + card@.path + "\n"@,
{
    let mut out = text::chars_of(&mutation_text(card, "Created"));
    text::push_str(&mut out, &card.path);
    text::push_str(&mut out, "\n");
    text::string_of(&out)
}

} // verus!
