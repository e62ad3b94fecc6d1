//! The configuration of a board.

use crate::error;
use crate::error::{Error, ErrorKind, Failure};
use crate::outside;
use crate::text;
use crate::text::CharClass;
use vstd::prelude::*;

verus! {

/// A board configuration as specifications speak of it.
#[verifier::ext_equal]
pub struct ConfigView {
    pub version: u8,
    pub name: Seq<char>,
    pub cards_dir: Seq<char>,
    pub id_prefix: Seq<char>,
    pub default_status: Seq<char>,
    pub columns: Seq<ColumnView>,
}

/// A column as specifications speak of it.
#[verifier::ext_equal]
pub struct ColumnView {
    pub name: Seq<char>,
    pub color: Option<Seq<char>>,
    pub wip_limit: Option<usize>,
}

/// Project configuration stored in `.kbmd/config.yml`.
#[derive(Clone, Debug, PartialEq, Eq)]
pub struct BoardConfig {
    pub version: u8,
    pub name: String,
    pub cards_dir: String,
    pub id_prefix: String,
    pub default_status: String,
    pub columns: Vec<ColumnConfig>,
}

/// One kanban column. The name is the exact value written to card frontmatter.
#[derive(Clone, Debug, PartialEq, Eq)]
pub struct ColumnConfig {
    pub name: String,
    pub color: Option<String>,
    pub wip_limit: Option<usize>,
}

impl View for ColumnConfig {
    type V = ColumnView;

    open spec fn view(&self) -> ColumnView {
        ColumnView {
            name: self.name@,
            color: match self.color {
                Some(color) => Some(color@),
                None => None,
            },
            wip_limit: self.wip_limit,
        }
    }
}

/// The columns in a list.
pub open spec fn column_views(columns: Seq<ColumnConfig>) -> Seq<ColumnView> {
    columns.map_values(|c: ColumnConfig| c@)
}

impl View for BoardConfig {
    type V = ConfigView;

    open spec fn view(&self) -> ConfigView {
        ConfigView {
            version: self.version,
            name: self.name@,
            cards_dir: self.cards_dir@,
            id_prefix: self.id_prefix@,
            default_status: self.default_status@,
            columns: column_views(self.columns@),
        }
    }
}

/// The version that this library reads and writes.
pub const SCHEMA_VERSION: u8 = 1;

/// The color that a new column gets by its place.
pub open spec fn column_color(index: int) -> Seq<char> {
    if index % 6 == 0 {
        "gray"@
    } else if index % 6 == 1 {
        "blue"@
    } else if index % 6 == 2 {
        "yellow"@
    } else if index % 6 == 3 {
        "magenta"@
    } else if index % 6 == 4 {
        "green"@
    } else {
        "cyan"@
    }
}

/// The color that a new column gets by its place.
fn default_column_color(index: usize) -> (r: String)
    ensures
        r@ == column_color(index as int),
{
    let place = index % 6;
    let color = if place == 0 {
        "gray"
    } else if place == 1 {
        "blue"
    } else if place == 2 {
        "yellow"
    } else if place == 3 {
        "magenta"
    } else if place == 4 {
        "green"
    } else {
        "cyan"
    };
    text::copy_string(color)
}

/// The columns of a new board.
pub open spec fn new_columns(statuses: Seq<Seq<char>>) -> Seq<ColumnView> {
    Seq::new(
        statuses.len(),
        |i: int|
            ColumnView {
                name: text::trim(statuses[i]),
                color: Some(column_color(i)),
                wip_limit: None,
            },
    )
}

/// A new board.
pub open spec fn new_config(
    name: Seq<char>,
    id_prefix: Seq<char>,
    statuses: Seq<Seq<char>>,
) -> ConfigView {
    ConfigView {
        version: SCHEMA_VERSION,
        name: text::trim(name),
        cards_dir: "cards"@,
        id_prefix: text::raise(text::trim(id_prefix)),
        default_status: if statuses.len() > 0 {
            text::trim(statuses[0])
        } else {
            Seq::empty()
        },
        columns: new_columns(statuses),
    }
}

/// The first column from `i` on with a name, whatever the case of its letters.
pub open spec fn column_at(columns: Seq<ColumnView>, name: Seq<char>, i: int) -> Option<int>
    decreases columns.len() - i,
{
    if i < 0 || i >= columns.len() {
        None
    } else if text::alike(columns[i].name, name) {
        Some(i)
    } else {
        column_at(columns, name, i + 1)
    }
}

/// What `column_at` finds.
pub proof fn lemma_column_at(columns: Seq<ColumnView>, name: Seq<char>, i: int)
    requires
        0 <= i,
    ensures
        match column_at(columns, name, i) {
            Some(k) => i <= k < columns.len() && text::alike(columns[k].name, name) && (forall|
                j: int,
            |
                i <= j < k ==> !text::alike((#[trigger] columns[j]).name, name)),
            None => forall|j: int|
                i <= j < columns.len() ==> !text::alike((#[trigger] columns[j]).name, name),
        },
    decreases columns.len() - i,
{
    if i < columns.len() && !text::alike(columns[i].name, name) {
        lemma_column_at(columns, name, i + 1);
    }
}

/// The canonical spelling of a status: the name of its column.
pub open spec fn status_of(config: ConfigView, candidate: Seq<char>) -> Option<Seq<char>> {
    match column_at(config.columns, text::trim(candidate), 0) {
        Some(i) => Some(config.columns[i].name),
        None => None,
    }
}

/// Whether two names are one, whatever the case of their letters: by Unicode, or by ASCII as statuses
/// are looked up.
pub open spec fn same_name(a: Seq<char>, b: Seq<char>) -> bool {
    outside::lowercase(a) == outside::lowercase(b) || text::alike(a, b)
}

/// Whether an earlier column has the name, whatever the case of its letters.
pub open spec fn named_before(columns: Seq<ColumnView>, i: int) -> bool {
    exists|j: int| 0 <= j < i && same_name((#[trigger] columns[j]).name, columns[i].name)
}

/// What is demanded of a column.
pub open spec fn column_check(columns: Seq<ColumnView>, i: int) -> Result<(), Failure> {
    let column = columns[i];
    if text::is_blank(column.name) {
        Err(error::plain(ErrorKind::EmptyColumnName))
    } else if text::trim(column.name) != column.name {
        Err(error::plain(ErrorKind::PaddedColumnName))
    } else if text::has_control(column.name) {
        Err(error::about(ErrorKind::ControlCharacters, "column names"@))
    } else if named_before(columns, i) {
        Err(error::about(ErrorKind::DuplicateColumn, column.name))
    } else if column.wip_limit == Some(0usize) {
        Err(error::about(ErrorKind::ZeroWipLimit, column.name))
    } else {
        Ok(())
    }
}

/// What is demanded of the columns from `i` on.
pub open spec fn columns_check(columns: Seq<ColumnView>, i: int) -> Result<(), Failure>
    decreases columns.len() - i,
{
    if i < 0 || i >= columns.len() {
        Ok(())
    } else {
        match column_check(columns, i) {
            Err(failure) => Err(failure),
            Ok(_) => columns_check(columns, i + 1),
        }
    }
}

/// Whether a character can stand in an id prefix.
pub open spec fn is_prefix_char(c: char) -> bool {
    'a' <= c <= 'z' || 'A' <= c <= 'Z' || '0' <= c <= '9' || c == '_'
}

/// Whether a text can be an id prefix.
pub open spec fn is_prefix(s: Seq<char>) -> bool {
    s.len() > 0 && (forall|i: int| 0 <= i < s.len() ==> is_prefix_char(#[trigger] s[i]))
}

/// Whether the segment of a path that begins at an index leads to the parent directory.
pub open spec fn is_parent_segment(s: Seq<char>, i: int) -> bool {
    &&& text::occurs_at(s, ".."@, i)
    &&& i == 0 || s[i - 1] == '/'
    &&& i + 2 == s.len() || s[i + 2] == '/'
}

/// Whether a path is relative and stays below where it starts.
pub open spec fn is_inner_path(s: Seq<char>) -> bool {
    &&& s.len() > 0
    &&& s[0] != '/'
    &&& forall|i: int| 0 <= i < s.len() ==> !is_parent_segment(s, i)
}

/// What is demanded of a configuration.
pub open spec fn config_check(config: ConfigView) -> Result<(), Failure> {
    if config.version != SCHEMA_VERSION {
        Err(error::about(ErrorKind::ConfigVersion, text::decimal(config.version as nat)))
    } else if text::is_blank(config.name) {
        Err(error::plain(ErrorKind::EmptyBoardName))
    } else if text::trim(config.name) != config.name {
        Err(error::plain(ErrorKind::PaddedBoardName))
    } else if text::has_control(config.name) {
        Err(error::about(ErrorKind::ControlCharacters, "board name"@))
    } else if config.columns.len() == 0 {
        Err(error::plain(ErrorKind::NoColumns))
    } else if columns_check(config.columns, 0) is Err {
        columns_check(config.columns, 0)
    } else if status_of(config, config.default_status) is None {
        Err(error::about(ErrorKind::UnknownDefaultStatus, config.default_status))
    } else if text::trim(config.id_prefix) != config.id_prefix {
        Err(error::plain(ErrorKind::PaddedPrefix))
    } else if !is_prefix(config.id_prefix) {
        Err(error::plain(ErrorKind::InvalidPrefix))
    } else if text::has_control(config.cards_dir) {
        Err(error::about(ErrorKind::ControlCharacters, "cards_dir"@))
    } else if !is_inner_path(config.cards_dir) {
        Err(error::plain(ErrorKind::CardsDirectory))
    } else {
        Ok(())
    }
}

/// Refuses a value with a control character.
fn reject_control_characters(field: &str, value: &str) -> (r: Result<(), Error>)
    ensures
        error::decides(
            r,
            if text::has_control(value@) {
                Err(error::about(ErrorKind::ControlCharacters, field@))
            } else {
                Ok(())
            },
        ),
{
    if text::controlled(&text::chars_of(value)) {
        return Err(Error::about(ErrorKind::ControlCharacters, &text::chars_of(field)));
    }
    Ok(())
}

/// Whether a text has surrounding white space.
fn is_padded(value: &[char]) -> (r: bool)
    ensures
        r == (text::trim(value@) != value@),
{
    !text::same(text::trimmed(value, CharClass::Space), value)
}

/// Whether a text can be an id prefix.
fn valid_prefix(s: &[char]) -> (r: bool)
    ensures
        r == is_prefix(s@),
{
    let mut i: usize = 0;
    while i < s.len()
        invariant
            i <= s@.len(),
            forall|k: int| 0 <= k < i ==> is_prefix_char(#[trigger] s@[k]),
        decreases s@.len() - i,
    {
        let c = s[i];
        if !(('a' <= c && c <= 'z') || ('A' <= c && c <= 'Z') || ('0' <= c && c <= '9') || c
            == '_') {
            assert(!is_prefix_char(s@[i as int]));
            return false;
        }
        i += 1;
    }
    s.len() > 0
}

/// Whether a path is relative and stays below where it starts.
fn inner_path(s: &[char]) -> (r: bool)
    ensures
        r == is_inner_path(s@),
{
    if s.len() == 0 || s[0] == '/' {
        return false;
    }
    let parent = text::chars_of("..");
    proof {
        reveal_strlit("..");
    }
    let mut i: usize = 0;
    while i < s.len()
        invariant
            i <= s@.len(),
            s@.len() > 0,
            parent@ == ".."@,
            ".."@.len() == 2,
            forall|k: int| 0 <= k < i ==> !is_parent_segment(s@, k),
        decreases s@.len() - i,
    {
        if text::stands_at(s, &parent, i) && (i == 0 || s[i - 1] == '/') && (s.len() - i == 2
            || s[i + 2] == '/') {
            assert(is_parent_segment(s@, i as int));
            return false;
        }
        i += 1;
    }
    true
}

impl BoardConfig {
    /// A board with the given columns. The first is the default one.
    pub fn new(name: &str, id_prefix: &str, statuses: Vec<String>) -> (r: BoardConfig)
        ensures
            r@ == new_config(name@, id_prefix@, text::strings(statuses@)),
    {
        let ghost names = text::strings(statuses@);
        let mut columns: Vec<ColumnConfig> = Vec::new();
        let mut i: usize = 0;
        while i < statuses.len()
            invariant
                i <= statuses@.len(),
                names == text::strings(statuses@),
                column_views(columns@) =~= new_columns(names).take(i as int),
            decreases statuses@.len() - i,
        {
            assert(names[i as int] == statuses@[i as int]@);
            let column = ColumnConfig {
                name: text::trim_string(&statuses[i]),
                color: Some(default_column_color(i)),
                wip_limit: None,
            };
            let ghost before = column_views(columns@);
            let ghost added = column@;
            assert(added =~= new_columns(names)[i as int]);
            columns.push(column);
            assert(column_views(columns@) =~= before.push(added));
            assert(new_columns(names).take(i + 1) =~= new_columns(names).take(i as int).push(
                added,
            ));
            i += 1;
        }
        assert(new_columns(names).take(i as int) =~= new_columns(names));
        let default_status = if statuses.len() > 0 {
            assert(names[0] == statuses@[0]@);
            text::trim_string(&statuses[0])
        } else {
            String::new()
        };
        let prefix = text::trim_string(id_prefix);
        BoardConfig {
            version: SCHEMA_VERSION,
            name: text::trim_string(name),
            cards_dir: text::copy_string("cards"),
            id_prefix: text::raise_string(&prefix),
            default_status,
            columns,
        }
    }

    /// Checks the configuration.
    pub fn validate(&self) -> (r: Result<(), Error>)
        ensures
            error::decides(r, config_check(self@)),
    {
        if self.version != SCHEMA_VERSION {
            let version = text::decimal_of(self.version as u64);
            return Err(Error::about(ErrorKind::ConfigVersion, &version));
        }
        let name = text::chars_of(&self.name);
        if text::blank(&name) {
            return Err(Error::plain(ErrorKind::EmptyBoardName));
        }
        if is_padded(&name) {
            return Err(Error::plain(ErrorKind::PaddedBoardName));
        }
        match reject_control_characters("board name", &self.name) {
            Ok(_) => {},
            Err(error) => {
                return Err(error);
            },
        }
        if self.columns.len() == 0 {
            return Err(Error::plain(ErrorKind::NoColumns));
        }
        match self.validate_columns() {
            Ok(_) => {},
            Err(error) => {
                return Err(error);
            },
        }
        if self.resolve_status(&self.default_status).is_none() {
            let status = text::chars_of(&self.default_status);
            return Err(Error::about(ErrorKind::UnknownDefaultStatus, &status));
        }
        let prefix = text::chars_of(&self.id_prefix);
        if is_padded(&prefix) {
            return Err(Error::plain(ErrorKind::PaddedPrefix));
        }
        if !valid_prefix(&prefix) {
            return Err(Error::plain(ErrorKind::InvalidPrefix));
        }
        match reject_control_characters("cards_dir", &self.cards_dir) {
            Ok(_) => {},
            Err(error) => {
                return Err(error);
            },
        }
        if !inner_path(&text::chars_of(&self.cards_dir)) {
            return Err(Error::plain(ErrorKind::CardsDirectory));
        }
        Ok(())
    }

    /// Checks the columns.
    fn validate_columns(&self) -> (r: Result<(), Error>)
        ensures
            error::decides(r, columns_check(self@.columns, 0)),
    {
        let ghost views = column_views(self.columns@);
        let mut lowered: Vec<String> = Vec::new();
        let mut i: usize = 0;
        while i < self.columns.len()
            invariant
                i <= self.columns@.len(),
                views == column_views(self.columns@),
                views.len() == self.columns@.len(),
                lowered@.len() == i,
                forall|k: int|
                    0 <= k < i ==> (#[trigger] lowered@[k])@ == outside::lowercase(views[k].name),
                columns_check(views, i as int) == columns_check(views, 0),
            decreases self.columns@.len() - i,
        {
            let column = &self.columns[i];
            assert(views[i as int] == column@);
            let name = text::chars_of(&column.name);
            if text::blank(&name) {
                return Err(Error::plain(ErrorKind::EmptyColumnName));
            }
            if is_padded(&name) {
                return Err(Error::plain(ErrorKind::PaddedColumnName));
            }
            match reject_control_characters("column names", &column.name) {
                Ok(_) => {},
                Err(error) => {
                    return Err(error);
                },
            }
            let low = outside::lowercased(&column.name);
            let mut k: usize = 0;
            while k < lowered.len()
                invariant
                    k <= lowered@.len(),
                    lowered@.len() == i,
                    i < views.len(),
                    low@ == outside::lowercase(views[i as int].name),
                    column@ == views[i as int],
                    views == column_views(self.columns@),
                    views.len() == self.columns@.len(),
                    name@ == views[i as int].name,
                    columns_check(views, i as int) == columns_check(views, 0),
                    columns_check(views, 0) == columns_check(self@.columns, 0),
                    !text::is_blank(name@),
                    text::trim(name@) == name@,
                    !text::has_control(name@),
                    forall|j: int|
                        0 <= j < i ==> (#[trigger] lowered@[j])@ == outside::lowercase(
                            views[j].name,
                        ),
                    forall|j: int|
                        0 <= j < k ==> !same_name((#[trigger] views[j]).name, name@),
                decreases lowered@.len() - k,
            {
                assert(views[k as int] == self.columns@[k as int]@);
                if text::same_string(&lowered[k], &low) || text::alike_strings(
                    &self.columns[k].name,
                    &column.name,
                ) {
                    assert(same_name(views[k as int].name, name@));
                    assert(named_before(views, i as int));
                    return Err(Error::about(ErrorKind::DuplicateColumn, &name));
                }
                assert(lowered@[k as int]@ == outside::lowercase(views[k as int].name));
                k += 1;
            }
            assert(!named_before(views, i as int));
            if let Some(limit) = column.wip_limit {
                if limit == 0 {
                    return Err(Error::about(ErrorKind::ZeroWipLimit, &name));
                }
            }
            lowered.push(low);
            i += 1;
        }
        Ok(())
    }

    /// Resolves a status, whatever the case of its letters, to its canonical spelling.
    pub fn resolve_status(&self, candidate: &str) -> (r: Option<&str>)
        ensures
            match r {
                Some(name) => status_of(self@, candidate@) == Some(name@),
                None => status_of(self@, candidate@) is None,
            },
    {
        let chars = text::chars_of(candidate);
        match self.find_column(text::trimmed(&chars, CharClass::Space)) {
            Some(i) => {
                assert(self@.columns[i as int] == self.columns@[i as int]@);
                Some(self.columns[i].name.as_str())
            },
            None => None,
        }
    }

    /// The place of the column with a name, whatever the case of its letters.
    pub fn column_index(&self, status: &str) -> (r: Option<usize>)
        ensures
            match r {
                Some(i) => i < self.columns@.len() && column_at(self@.columns, status@, 0) == Some(
                    i as int,
                ),
                None => column_at(self@.columns, status@, 0) is None,
            },
    {
        self.find_column(&text::chars_of(status))
    }

    /// Finds the column with a name.
    fn find_column(&self, name: &[char]) -> (r: Option<usize>)
        ensures
            match r {
                Some(i) => i < self.columns@.len() && column_at(self@.columns, name@, 0) == Some(
                    i as int,
                ),
                None => column_at(self@.columns, name@, 0) is None,
            },
    {
        let ghost views = column_views(self.columns@);
        let mut i: usize = 0;
        while i < self.columns.len()
            invariant
                i <= self.columns@.len(),
                views == column_views(self.columns@),
                column_at(views, name@, i as int) == column_at(views, name@, 0),
            decreases self.columns@.len() - i,
        {
            assert(views[i as int] == self.columns@[i as int]@);
            if text::same_folded(&text::chars_of(&self.columns[i].name), name) {
                return Some(i);
            }
            i += 1;
        }
        None
    }
}

pub proof fn lemma_columns_ok(columns: Seq<ColumnView>, from: int, i: int)
    requires
        0 <= from <= i < columns.len(),
        columns_check(columns, from) is Ok,
    ensures
        column_check(columns, i) is Ok,
    decreases i - from,
{
    if from < i {
        lemma_columns_ok(columns, from + 1, i);
    }
}

/// The canonical spelling of a status is its own: resolving it again changes nothing.
pub proof fn resolving_again_changes_nothing(config: ConfigView, candidate: Seq<char>)
    requires
        config_check(config) is Ok,
        status_of(config, candidate) is Some,
    ensures
        status_of(config, status_of(config, candidate)->0) == status_of(config, candidate),
{
    let name = status_of(config, candidate)->0;
    lemma_column_at(config.columns, text::trim(candidate), 0);
    let k = column_at(config.columns, text::trim(candidate), 0)->0;
    lemma_columns_ok(config.columns, 0, k);
    lemma_column_at(config.columns, name, 0);
    let j = column_at(config.columns, name, 0)->0;
    if j < k {
        assert(text::alike(config.columns[j].name, text::trim(candidate)));
    }
}

/// A checked board has at least one column, its default status is one, and no two of its columns
/// have names that differ only in case.
pub proof fn checked_boards_are_sound(config: ConfigView)
    requires
        config_check(config) is Ok,
    ensures
        config.columns.len() > 0,
        status_of(config, config.default_status) is Some,
        forall|i: int, j: int|
            0 <= i < j < config.columns.len() ==> !same_name(
                (#[trigger] config.columns[i]).name,
                (#[trigger] config.columns[j]).name,
            ),
{
    assert forall|i: int, j: int| 0 <= i < j < config.columns.len() implies !same_name(
        (#[trigger] config.columns[i]).name,
        (#[trigger] config.columns[j]).name,
    ) by {
        lemma_columns_ok(config.columns, 0, j);
        assert(!named_before(config.columns, j));
    }
}

/// Each column of a checked board is found by its name at its own place, and the name resolves to
/// itself.
pub proof fn columns_are_found_at_their_place(config: ConfigView, i: int)
    requires
        config_check(config) is Ok,
        0 <= i < config.columns.len(),
    ensures
        column_at(config.columns, config.columns[i].name, 0) == Some(i),
        status_of(config, config.columns[i].name) == Some(config.columns[i].name),
{
    let name = config.columns[i].name;
    checked_boards_are_sound(config);
    lemma_columns_ok(config.columns, 0, i);
    lemma_column_at(config.columns, name, 0);
    let k = column_at(config.columns, name, 0)->0;
    if column_at(config.columns, name, 0) is None {
        assert(!text::alike(config.columns[i].name, name));
    } else if k < i {
        assert(!same_name(config.columns[k].name, config.columns[i].name));
    } else if i < k {
        assert(!text::alike(config.columns[i].name, name));
    }
}

/// A status resolves just where it is the name of a column but for the case of its letters and the
/// white space around it.
pub proof fn statuses_are_names_of_columns(config: ConfigView, candidate: Seq<char>)
    ensures
        status_of(config, candidate) is Some <==> exists|i: int|
            0 <= i < config.columns.len() && text::alike(
                (#[trigger] config.columns[i]).name,
                text::trim(candidate),
            ),
{
    lemma_column_at(config.columns, text::trim(candidate), 0);
}

} // verus!
