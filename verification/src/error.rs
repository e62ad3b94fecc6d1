//! What can go wrong, and how it is told.

use crate::outside;
use crate::text;
use vstd::prelude::*;

verus! {

/// What went wrong.
#[derive(Clone, Copy, Debug, PartialEq, Eq, Structural)]
pub enum ErrorKind {
    /// The Markdown parser reported a range that does not lie in the text.
    ParserRange,
    /// A body holds a NUL or a vertical tab.
    ControlByte,
    /// A control marker is indented.
    IndentedMarker,
    /// A start marker is not alone on its line.
    MalformedStart,
    /// A start record has no metadata.
    MalformedRecord,
    /// An end marker stands outside a block.
    OrphanEnd,
    /// A marker is none of the known ones.
    UnsupportedMarker,
    /// Metadata ends in the middle of a line.
    InlineTerminator,
    /// A marker stands inside metadata.
    NestedMarkerInMetadata,
    /// A start record does not end.
    UnterminatedStart,
    /// A metadata line is indented.
    IndentedMetadata,
    /// A metadata line has no key.
    MalformedMetadata,
    /// A metadata key is not known.
    UnknownMetadataKey,
    /// A metadata key occurs twice.
    DuplicateMetadataKey,
    /// A metadata key is missing.
    MissingMetadataKey,
    /// Metadata is no YAML mapping of the four values.
    InvalidMetadataYaml,
    /// A comment has another version.
    UnsupportedVersion,
    /// A comment id lacks its prefix.
    IdPrefix,
    /// A comment id holds no UUID.
    IdNotUuid,
    /// A comment id holds a UUID of another version.
    IdNotVersionSeven,
    /// A comment id is not in canonical form.
    IdNotCanonical,
    /// An author has surrounding white space.
    PaddedAuthor,
    /// An author is empty.
    EmptyAuthor,
    /// An author is too long.
    LongAuthor,
    /// An author holds a control character.
    ControlInAuthor,
    /// An author would end an HTML comment.
    TerminatorInAuthor,
    /// The author given on the command line is refused.
    ExplicitAuthor,
    /// The author in the environment is refused.
    EnvironmentAuthor,
    /// The author in the environment is no text.
    EnvironmentNotUnicode,
    /// The author that Git knows is refused.
    GitAuthor,
    /// No author is configured.
    NoAuthor,
    /// A creation time is no RFC 3339 time.
    InvalidTimestamp,
    /// A creation time is not in UTC.
    TimestampNotUtc,
    /// A registry marker stands inside a block.
    NestedRegistry,
    /// There is a second registry marker.
    SecondRegistry,
    /// A start marker stands inside a block.
    NestedStart,
    /// Two comments have one id.
    DuplicateComment,
    /// An end marker has no start marker.
    OrphanEndOf,
    /// An end marker has another id than its start marker.
    MismatchedEnd,
    /// A block has no end marker.
    UnfinishedComment,
    /// There are comments and no registry.
    NoRegistry,
    /// The registry is in no section.
    RegistryOutsideSection,
    /// A comment is not below the registry in its section.
    CommentOutsideRegistry,
    /// A block has no attribution.
    MissingAttribution,
    /// A block has another attribution than its metadata.
    InvalidAttribution,
    /// Attribution and text are not separated.
    MissingBlankLine,
    /// A block has no text.
    EmptyCommentText,
    /// The text of a comment holds a marker.
    NestedMarker,
    /// A new comment has no text.
    EmptyText,
    /// Metadata could not be written as YAML.
    MetadataNotRendered,
    /// Two or more sections have the title.
    AmbiguousSection,
    /// No comment has the id.
    CommentNotFound,
    /// No section has the title.
    SectionNotFound,
    /// A checklist item has no text.
    EmptyItem,
    /// No checklist item has the number.
    ItemNotFound,
    /// No checklist item of the section has the number.
    ItemNotInSection,
    /// Items are counted from one.
    ZeroIndex,
    /// A change would touch the managed comments.
    ProtectedSection,
    /// A section title is empty.
    EmptyTitle,
    /// A section title has a line break.
    TitleLines,
    /// The configuration is of another version.
    ConfigVersion,
    /// The board has no name.
    EmptyBoardName,
    /// The name of the board has surrounding white space.
    PaddedBoardName,
    /// A value holds a control character.
    ControlCharacters,
    /// The board has no columns.
    NoColumns,
    /// A column has no name.
    EmptyColumnName,
    /// The name of a column has surrounding white space.
    PaddedColumnName,
    /// Two columns have one name.
    DuplicateColumn,
    /// A column can hold no card.
    ZeroWipLimit,
    /// The default status is no column.
    UnknownDefaultStatus,
    /// The id prefix has surrounding white space.
    PaddedPrefix,
    /// The id prefix holds another character than it can.
    InvalidPrefix,
    /// The cards directory is not inside the project.
    CardsDirectory,
    /// A document is empty.
    EmptyDocument,
    /// A document does not begin with frontmatter.
    NoFrontmatter,
    /// The frontmatter does not end.
    OpenFrontmatter,
    /// The frontmatter is empty.
    EmptyFrontmatter,
    /// A card has no id.
    EmptyCardId,
    /// A card has no title.
    EmptyCardTitle,
    /// A card has no status.
    EmptyCardStatus,
    /// There is a project already.
    ProjectExists,
    /// There is no project.
    NoProject,
    /// A status is no column.
    UnknownStatus,
    /// Something is wrong with a card file.
    InFile,
    /// Two cards have one id.
    DuplicateCards,
    /// A card has the id of another one.
    DuplicateInFiles,
    /// No card has the id.
    CardNotFound,
    /// Two or more cards have the id.
    AmbiguousCard,
    /// There are no more card ids.
    IdsExhausted,
    /// There are no more ordinals in a column.
    OrdinalsExhausted,
    /// A column is full.
    WipLimit,
    /// A column holds more cards than it can.
    WipExceeded,
    /// A custom field has the name of a card field.
    ReservedField,
    /// A card file cannot be read.
    BrokenCard,
    /// An argument is no assignment.
    AssignmentSyntax,
    /// An assignment has no name.
    AssignmentName,
    /// A value is no YAML.
    InvalidYamlValue,
    /// A custom field has no name, or one of several lines.
    FieldKey,
    /// A custom field has the name of a card field.
    ReservedKey,
    /// No custom field has the name.
    FieldNotFound,
    /// There is nothing to change.
    NoEdits,
    /// There is nothing to append.
    EmptyAppend,
    /// A status to list is no column.
    NoSuchStatus,
    /// A project has issues.
    ValidationFailed,
    /// A value could not be written as YAML.
    YamlNotWritten,
}

/// How a value appears in a message.
#[derive(Clone, Copy, Debug, PartialEq, Eq, Structural)]
pub enum Show {
    /// Not at all.
    Absent,
    /// As it is.
    Plain,
    /// In quotation marks, with escapes.
    Quoted,
}

/// The fixed parts of a message and how the subject and the detail appear between them.
pub struct Wording {
    pub before: &'static str,
    pub subject: Show,
    pub middle: &'static str,
    pub detail: Show,
    pub after: &'static str,
}

/// A failure as specifications speak of it.
#[verifier::ext_equal]
pub struct Failure {
    pub kind: ErrorKind,
    pub subject: Seq<char>,
    pub detail: Seq<char>,
}

/// An error: its kind, what it is about, and a further detail.
#[derive(Clone, Debug, PartialEq, Eq)]
pub struct Error {
    pub kind: ErrorKind,
    pub subject: String,
    pub detail: String,
}

impl View for Error {
    type V = Failure;

    open spec fn view(&self) -> Failure {
        Failure { kind: self.kind, subject: self.subject@, detail: self.detail@ }
    }
}

/// A failure that is about nothing in particular.
pub open spec fn plain(kind: ErrorKind) -> Failure {
    Failure { kind, subject: Seq::empty(), detail: Seq::empty() }
}

/// A failure about one thing.
pub open spec fn about(kind: ErrorKind, subject: Seq<char>) -> Failure {
    Failure { kind, subject, detail: Seq::empty() }
}

/// A failure about one thing, with a detail.
pub open spec fn detailed(kind: ErrorKind, subject: Seq<char>, detail: Seq<char>) -> Failure {
    Failure { kind, subject, detail }
}

/// Whether a result is the one that a specification gives.
pub open spec fn agrees<T: View>(result: Result<T, Error>, expected: Result<T::V, Failure>) -> bool {
    match (result, expected) {
        (Ok(value), Ok(model)) => value@ == model,
        (Err(error), Err(failure)) => error@ == failure,
        _ => false,
    }
}

/// Whether a result without a value is the one that a specification gives.
pub open spec fn decides(result: Result<(), Error>, expected: Result<(), Failure>) -> bool {
    match (result, expected) {
        (Ok(_), Ok(_)) => true,
        (Err(error), Err(failure)) => error@ == failure,
        _ => false,
    }
}

/// How each kind of failure is worded.
pub open spec fn worded(kind: ErrorKind) -> Wording {
    match kind {
        ErrorKind::ParserRange => Wording {
            before: "the Markdown parser reported a range outside the text",
            subject: Show::Absent,
            middle: "",
            detail: Show::Absent,
            after: "",
        },
        ErrorKind::ControlByte => Wording {
            before: "card body contains a control byte unsupported by structured comments",
            subject: Show::Absent,
            middle: "",
            detail: Show::Absent,
            after: "",
        },
        ErrorKind::IndentedMarker => Wording {
            before: "kbmd comment control markers must start at column zero",
            subject: Show::Absent,
            middle: "",
            detail: Show::Absent,
            after: "",
        },
        ErrorKind::MalformedStart => Wording {
            before: "malformed comment start marker",
            subject: Show::Absent,
            middle: "",
            detail: Show::Absent,
            after: "",
        },
        ErrorKind::MalformedRecord => Wording {
            before: "malformed comment start marker: ",
            subject: Show::Quoted,
            middle: "",
            detail: Show::Absent,
            after: "",
        },
        ErrorKind::OrphanEnd => Wording {
            before: "orphan or malformed comment end marker",
            subject: Show::Absent,
            middle: "",
            detail: Show::Absent,
            after: "",
        },
        ErrorKind::UnsupportedMarker => Wording {
            before: "malformed or unsupported kbmd comment marker",
            subject: Show::Absent,
            middle: "",
            detail: Show::Absent,
            after: "",
        },
        ErrorKind::InlineTerminator => Wording {
            before: "comment metadata cannot contain an inline HTML comment terminator",
            subject: Show::Absent,
            middle: "",
            detail: Show::Absent,
            after: "",
        },
        ErrorKind::NestedMarkerInMetadata => Wording {
            before: "nested comment control marker in comment metadata",
            subject: Show::Absent,
            middle: "",
            detail: Show::Absent,
            after: "",
        },
        ErrorKind::UnterminatedStart => Wording {
            before: "comment start marker is missing a standalone --> terminator",
            subject: Show::Absent,
            middle: "",
            detail: Show::Absent,
            after: "",
        },
        ErrorKind::IndentedMetadata => Wording {
            before: "comment metadata values must be single-line YAML scalars",
            subject: Show::Absent,
            middle: "",
            detail: Show::Absent,
            after: "",
        },
        ErrorKind::MalformedMetadata => Wording {
            before: "malformed comment metadata entry",
            subject: Show::Absent,
            middle: "",
            detail: Show::Absent,
            after: "",
        },
        ErrorKind::UnknownMetadataKey => Wording {
            before: "unknown comment metadata key ",
            subject: Show::Quoted,
            middle: "",
            detail: Show::Absent,
            after: "",
        },
        ErrorKind::DuplicateMetadataKey => Wording {
            before: "duplicate comment metadata key ",
            subject: Show::Quoted,
            middle: "",
            detail: Show::Absent,
            after: "",
        },
        ErrorKind::MissingMetadataKey => Wording {
            before: "comment metadata is missing ",
            subject: Show::Quoted,
            middle: "",
            detail: Show::Absent,
            after: "",
        },
        ErrorKind::InvalidMetadataYaml => Wording {
            before: "invalid comment metadata YAML",
            subject: Show::Absent,
            middle: "",
            detail: Show::Absent,
            after: "",
        },
        ErrorKind::UnsupportedVersion => Wording {
            before: "unsupported comment version ",
            subject: Show::Plain,
            middle: "",
            detail: Show::Absent,
            after: "",
        },
        ErrorKind::IdPrefix => Wording {
            before: "comment id must start with CMT-",
            subject: Show::Absent,
            middle: "",
            detail: Show::Absent,
            after: "",
        },
        ErrorKind::IdNotUuid => Wording {
            before: "comment id does not contain a valid UUID",
            subject: Show::Absent,
            middle: "",
            detail: Show::Absent,
            after: "",
        },
        ErrorKind::IdNotVersionSeven => Wording {
            before: "comment id must contain a UUIDv7",
            subject: Show::Absent,
            middle: "",
            detail: Show::Absent,
            after: "",
        },
        ErrorKind::IdNotCanonical => Wording {
            before: "comment id must use canonical CMT-<UUIDv7> form",
            subject: Show::Absent,
            middle: "",
            detail: Show::Absent,
            after: "",
        },
        ErrorKind::PaddedAuthor => Wording {
            before: "comment author cannot have leading or trailing whitespace",
            subject: Show::Absent,
            middle: "",
            detail: Show::Absent,
            after: "",
        },
        ErrorKind::EmptyAuthor => Wording {
            before: "comment author cannot be empty",
            subject: Show::Absent,
            middle: "",
            detail: Show::Absent,
            after: "",
        },
        ErrorKind::LongAuthor => Wording {
            before: "comment author cannot exceed 128 characters",
            subject: Show::Absent,
            middle: "",
            detail: Show::Absent,
            after: "",
        },
        ErrorKind::ControlInAuthor => Wording {
            before: "comment author cannot contain control characters",
            subject: Show::Absent,
            middle: "",
            detail: Show::Absent,
            after: "",
        },
        ErrorKind::TerminatorInAuthor => Wording {
            before: "comment author cannot contain an HTML comment terminator",
            subject: Show::Absent,
            middle: "",
            detail: Show::Absent,
            after: "",
        },
        ErrorKind::ExplicitAuthor => Wording {
            before: "invalid --author value: ",
            subject: Show::Plain,
            middle: "",
            detail: Show::Absent,
            after: "",
        },
        ErrorKind::EnvironmentAuthor => Wording {
            before: "invalid KBMD_AUTHOR value: ",
            subject: Show::Plain,
            middle: "",
            detail: Show::Absent,
            after: "",
        },
        ErrorKind::EnvironmentNotUnicode => Wording {
            before: "KBMD_AUTHOR is not valid Unicode",
            subject: Show::Absent,
            middle: "",
            detail: Show::Absent,
            after: "",
        },
        ErrorKind::GitAuthor => Wording {
            before: "invalid Git user.name: ",
            subject: Show::Plain,
            middle: "",
            detail: Show::Absent,
            after: "",
        },
        ErrorKind::NoAuthor => Wording {
            before: "no comment author is configured; use --author, set KBMD_AUTHOR, or configure Git user.name",
            subject: Show::Absent,
            middle: "",
            detail: Show::Absent,
            after: "",
        },
        ErrorKind::InvalidTimestamp => Wording {
            before: "invalid comment created_at",
            subject: Show::Absent,
            middle: "",
            detail: Show::Absent,
            after: "",
        },
        ErrorKind::TimestampNotUtc => Wording {
            before: "comment created_at must be UTC",
            subject: Show::Absent,
            middle: "",
            detail: Show::Absent,
            after: "",
        },
        ErrorKind::NestedRegistry => Wording {
            before: "comments registry marker cannot be nested inside a comment block",
            subject: Show::Absent,
            middle: "",
            detail: Show::Absent,
            after: "",
        },
        ErrorKind::SecondRegistry => Wording {
            before: "a card can contain only one kbmd comments registry",
            subject: Show::Absent,
            middle: "",
            detail: Show::Absent,
            after: "",
        },
        ErrorKind::NestedStart => Wording {
            before: "nested comment start marker is not allowed",
            subject: Show::Absent,
            middle: "",
            detail: Show::Absent,
            after: "",
        },
        ErrorKind::DuplicateComment => Wording {
            before: "duplicate comment id ",
            subject: Show::Quoted,
            middle: "",
            detail: Show::Absent,
            after: "",
        },
        ErrorKind::OrphanEndOf => Wording {
            before: "orphan comment end marker for ",
            subject: Show::Quoted,
            middle: "",
            detail: Show::Absent,
            after: "",
        },
        ErrorKind::MismatchedEnd => Wording {
            before: "comment end marker id ",
            subject: Show::Quoted,
            middle: " does not match start id ",
            detail: Show::Quoted,
            after: "",
        },
        ErrorKind::UnfinishedComment => Wording {
            before: "comment ",
            subject: Show::Quoted,
            middle: " has no matching end marker",
            detail: Show::Absent,
            after: "",
        },
        ErrorKind::NoRegistry => Wording {
            before: "structured comments require a <!-- kbmd:comments:v1 --> registry marker",
            subject: Show::Absent,
            middle: "",
            detail: Show::Absent,
            after: "",
        },
        ErrorKind::RegistryOutsideSection => Wording {
            before: "comments registry must be inside a Markdown section",
            subject: Show::Absent,
            middle: "",
            detail: Show::Absent,
            after: "",
        },
        ErrorKind::CommentOutsideRegistry => Wording {
            before: "every structured comment must follow the registry in its section's direct content",
            subject: Show::Absent,
            middle: "",
            detail: Show::Absent,
            after: "",
        },
        ErrorKind::MissingAttribution => Wording {
            before: "comment ",
            subject: Show::Quoted,
            middle: " is missing its visible attribution",
            detail: Show::Absent,
            after: "",
        },
        ErrorKind::InvalidAttribution => Wording {
            before: "comment ",
            subject: Show::Quoted,
            middle: " has invalid visible attribution",
            detail: Show::Absent,
            after: "",
        },
        ErrorKind::MissingBlankLine => Wording {
            before: "comment ",
            subject: Show::Quoted,
            middle: " must separate attribution and text with a blank line",
            detail: Show::Absent,
            after: "",
        },
        ErrorKind::EmptyCommentText => Wording {
            before: "comment ",
            subject: Show::Quoted,
            middle: " text cannot be empty",
            detail: Show::Absent,
            after: "",
        },
        ErrorKind::NestedMarker => Wording {
            before: "comment ",
            subject: Show::Quoted,
            middle: " contains a nested kbmd comment control marker",
            detail: Show::Absent,
            after: "",
        },
        ErrorKind::EmptyText => Wording {
            before: "comment text cannot be empty",
            subject: Show::Absent,
            middle: "",
            detail: Show::Absent,
            after: "",
        },
        ErrorKind::MetadataNotRendered => Wording {
            before: "could not serialize comment metadata",
            subject: Show::Absent,
            middle: "",
            detail: Show::Absent,
            after: "",
        },
        ErrorKind::AmbiguousSection => Wording {
            before: "section ",
            subject: Show::Quoted,
            middle: " is ambiguous because it appears ",
            detail: Show::Plain,
            after: " times",
        },
        ErrorKind::CommentNotFound => Wording {
            before: "comment ",
            subject: Show::Quoted,
            middle: " was not found",
            detail: Show::Absent,
            after: "",
        },
        ErrorKind::SectionNotFound => Wording {
            before: "section ",
            subject: Show::Quoted,
            middle: " was not found",
            detail: Show::Absent,
            after: "",
        },
        ErrorKind::EmptyItem => Wording {
            before: "checklist text cannot be empty",
            subject: Show::Absent,
            middle: "",
            detail: Show::Absent,
            after: "",
        },
        ErrorKind::ItemNotFound => Wording {
            before: "checklist item ",
            subject: Show::Plain,
            middle: " was not found",
            detail: Show::Absent,
            after: "",
        },
        ErrorKind::ItemNotInSection => Wording {
            before: "checklist item ",
            subject: Show::Plain,
            middle: " was not found in section ",
            detail: Show::Quoted,
            after: "",
        },
        ErrorKind::ZeroIndex => Wording {
            before: "checklist indexes start at 1",
            subject: Show::Absent,
            middle: "",
            detail: Show::Absent,
            after: "",
        },
        ErrorKind::ProtectedSection => Wording {
            before: "section ",
            subject: Show::Quoted,
            middle: " contains structured comments; use `kbmd comment` commands instead",
            detail: Show::Absent,
            after: "",
        },
        ErrorKind::EmptyTitle => Wording {
            before: "section title cannot be empty",
            subject: Show::Absent,
            middle: "",
            detail: Show::Absent,
            after: "",
        },
        ErrorKind::TitleLines => Wording {
            before: "section title must fit on one line",
            subject: Show::Absent,
            middle: "",
            detail: Show::Absent,
            after: "",
        },
        ErrorKind::ConfigVersion => Wording {
            before: "unsupported config version ",
            subject: Show::Plain,
            middle: "; this build supports version 1",
            detail: Show::Absent,
            after: "",
        },
        ErrorKind::EmptyBoardName => Wording {
            before: "board name cannot be empty",
            subject: Show::Absent,
            middle: "",
            detail: Show::Absent,
            after: "",
        },
        ErrorKind::PaddedBoardName => Wording {
            before: "board name cannot start or end with whitespace",
            subject: Show::Absent,
            middle: "",
            detail: Show::Absent,
            after: "",
        },
        ErrorKind::ControlCharacters => Wording {
            before: "",
            subject: Show::Plain,
            middle: " cannot contain control characters",
            detail: Show::Absent,
            after: "",
        },
        ErrorKind::NoColumns => Wording {
            before: "at least one column is required",
            subject: Show::Absent,
            middle: "",
            detail: Show::Absent,
            after: "",
        },
        ErrorKind::EmptyColumnName => Wording {
            before: "column names cannot be empty",
            subject: Show::Absent,
            middle: "",
            detail: Show::Absent,
            after: "",
        },
        ErrorKind::PaddedColumnName => Wording {
            before: "column names cannot start or end with whitespace",
            subject: Show::Absent,
            middle: "",
            detail: Show::Absent,
            after: "",
        },
        ErrorKind::DuplicateColumn => Wording {
            before: "duplicate column name: ",
            subject: Show::Plain,
            middle: "",
            detail: Show::Absent,
            after: "",
        },
        ErrorKind::ZeroWipLimit => Wording {
            before: "WIP limit for ",
            subject: Show::Plain,
            middle: " must be greater than zero",
            detail: Show::Absent,
            after: "",
        },
        ErrorKind::UnknownDefaultStatus => Wording {
            before: "default status ",
            subject: Show::Quoted,
            middle: " is not one of the configured columns",
            detail: Show::Absent,
            after: "",
        },
        ErrorKind::PaddedPrefix => Wording {
            before: "id_prefix cannot start or end with whitespace",
            subject: Show::Absent,
            middle: "",
            detail: Show::Absent,
            after: "",
        },
        ErrorKind::InvalidPrefix => Wording {
            before: "id_prefix must contain only ASCII letters, digits, or underscores",
            subject: Show::Absent,
            middle: "",
            detail: Show::Absent,
            after: "",
        },
        ErrorKind::CardsDirectory => Wording {
            before: "cards_dir must be a relative path contained inside .kbmd",
            subject: Show::Absent,
            middle: "",
            detail: Show::Absent,
            after: "",
        },
        ErrorKind::EmptyDocument => Wording {
            before: "document is empty; expected YAML frontmatter",
            subject: Show::Absent,
            middle: "",
            detail: Show::Absent,
            after: "",
        },
        ErrorKind::NoFrontmatter => Wording {
            before: "document must start with a YAML frontmatter delimiter (`---`)",
            subject: Show::Absent,
            middle: "",
            detail: Show::Absent,
            after: "",
        },
        ErrorKind::OpenFrontmatter => Wording {
            before: "YAML frontmatter has no closing delimiter",
            subject: Show::Absent,
            middle: "",
            detail: Show::Absent,
            after: "",
        },
        ErrorKind::EmptyFrontmatter => Wording {
            before: "YAML frontmatter cannot be empty",
            subject: Show::Absent,
            middle: "",
            detail: Show::Absent,
            after: "",
        },
        ErrorKind::EmptyCardId => Wording {
            before: "card id cannot be empty",
            subject: Show::Absent,
            middle: "",
            detail: Show::Absent,
            after: "",
        },
        ErrorKind::EmptyCardTitle => Wording {
            before: "card title cannot be empty",
            subject: Show::Absent,
            middle: "",
            detail: Show::Absent,
            after: "",
        },
        ErrorKind::EmptyCardStatus => Wording {
            before: "card status cannot be empty",
            subject: Show::Absent,
            middle: "",
            detail: Show::Absent,
            after: "",
        },
        ErrorKind::ProjectExists => Wording {
            before: "a kbmd project already exists at ",
            subject: Show::Plain,
            middle: "",
            detail: Show::Absent,
            after: "",
        },
        ErrorKind::NoProject => Wording {
            before: "no kbmd project found from ",
            subject: Show::Plain,
            middle: "; run `kbmd init` first",
            detail: Show::Absent,
            after: "",
        },
        ErrorKind::UnknownStatus => Wording {
            before: "unknown status ",
            subject: Show::Quoted,
            middle: "; expected one of: ",
            detail: Show::Plain,
            after: "",
        },
        ErrorKind::InFile => Wording {
            before: "in ",
            subject: Show::Plain,
            middle: ": ",
            detail: Show::Plain,
            after: "",
        },
        ErrorKind::DuplicateCards => Wording {
            before: "duplicate card id ",
            subject: Show::Quoted,
            middle: " in: ",
            detail: Show::Plain,
            after: "",
        },
        ErrorKind::DuplicateInFiles => Wording {
            before: "duplicate card id ",
            subject: Show::Quoted,
            middle: " appears in ",
            detail: Show::Plain,
            after: " files",
        },
        ErrorKind::CardNotFound => Wording {
            before: "card ",
            subject: Show::Quoted,
            middle: " was not found",
            detail: Show::Absent,
            after: "",
        },
        ErrorKind::AmbiguousCard => Wording {
            before: "card id ",
            subject: Show::Quoted,
            middle: " is ambiguous across ",
            detail: Show::Plain,
            after: " files",
        },
        ErrorKind::IdsExhausted => Wording {
            before: "card ID space is exhausted",
            subject: Show::Absent,
            middle: "",
            detail: Show::Absent,
            after: "",
        },
        ErrorKind::OrdinalsExhausted => Wording {
            before: "card ordering value is exhausted in status ",
            subject: Show::Quoted,
            middle: "",
            detail: Show::Absent,
            after: "",
        },
        ErrorKind::WipLimit => Wording {
            before: "column ",
            subject: Show::Quoted,
            middle: " has reached its WIP limit of ",
            detail: Show::Plain,
            after: "",
        },
        ErrorKind::WipExceeded => Wording {
            before: "column ",
            subject: Show::Quoted,
            middle: " exceeds its WIP limit of ",
            detail: Show::Plain,
            after: "",
        },
        ErrorKind::ReservedField => Wording {
            before: "custom field ",
            subject: Show::Quoted,
            middle: " conflicts with a reserved card field",
            detail: Show::Absent,
            after: "",
        },
        ErrorKind::BrokenCard => Wording {
            before: "",
            subject: Show::Plain,
            middle: "",
            detail: Show::Absent,
            after: "",
        },
        ErrorKind::AssignmentSyntax => Wording {
            before: "",
            subject: Show::Plain,
            middle: " must use NAME=VALUE syntax",
            detail: Show::Absent,
            after: "",
        },
        ErrorKind::AssignmentName => Wording {
            before: "",
            subject: Show::Plain,
            middle: " name cannot be empty",
            detail: Show::Absent,
            after: "",
        },
        ErrorKind::InvalidYamlValue => Wording {
            before: "invalid YAML value",
            subject: Show::Absent,
            middle: "",
            detail: Show::Absent,
            after: "",
        },
        ErrorKind::FieldKey => Wording {
            before: "custom field key must be a non-empty single line",
            subject: Show::Absent,
            middle: "",
            detail: Show::Absent,
            after: "",
        },
        ErrorKind::ReservedKey => Wording {
            before: "",
            subject: Show::Quoted,
            middle: " is reserved; use `kbmd edit` for canonical fields",
            detail: Show::Absent,
            after: "",
        },
        ErrorKind::FieldNotFound => Wording {
            before: "custom field ",
            subject: Show::Quoted,
            middle: " was not found",
            detail: Show::Absent,
            after: "",
        },
        ErrorKind::NoEdits => Wording {
            before: "no edits were supplied",
            subject: Show::Absent,
            middle: "",
            detail: Show::Absent,
            after: "",
        },
        ErrorKind::EmptyAppend => Wording {
            before: "content to append cannot be empty",
            subject: Show::Absent,
            middle: "",
            detail: Show::Absent,
            after: "",
        },
        ErrorKind::NoSuchStatus => Wording {
            before: "unknown status ",
            subject: Show::Quoted,
            middle: "",
            detail: Show::Absent,
            after: "",
        },
        ErrorKind::ValidationFailed => Wording {
            before: "validation found ",
            subject: Show::Plain,
            middle: " issue(s)",
            detail: Show::Absent,
            after: "",
        },
        ErrorKind::YamlNotWritten => Wording {
            before: "could not serialize YAML",
            subject: Show::Absent,
            middle: "",
            detail: Show::Absent,
            after: "",
        },
    }
}

/// A value as it appears in a message.
pub open spec fn shown(show: Show, value: Seq<char>) -> Seq<char> {
    match show {
        Show::Absent => Seq::empty(),
        Show::Plain => value,
        Show::Quoted => outside::debug_form(value),
    }
}

/// The message that tells a failure.
pub open spec fn told(failure: Failure) -> Seq<char> {
    let wording = worded(failure.kind);
    wording.before@ + shown(wording.subject, failure.subject) + wording.middle@ + shown(
        wording.detail,
        failure.detail,
    ) + wording.after@
}

/// Looks up how a kind of failure is worded.
fn wording_of(kind: ErrorKind) -> (r: Wording)
    ensures
        r == worded(kind),
{
    match kind {
        ErrorKind::ParserRange => Wording {
            before: "the Markdown parser reported a range outside the text",
            subject: Show::Absent,
            middle: "",
            detail: Show::Absent,
            after: "",
        },
        ErrorKind::ControlByte => Wording {
            before: "card body contains a control byte unsupported by structured comments",
            subject: Show::Absent,
            middle: "",
            detail: Show::Absent,
            after: "",
        },
        ErrorKind::IndentedMarker => Wording {
            before: "kbmd comment control markers must start at column zero",
            subject: Show::Absent,
            middle: "",
            detail: Show::Absent,
            after: "",
        },
        ErrorKind::MalformedStart => Wording {
            before: "malformed comment start marker",
            subject: Show::Absent,
            middle: "",
            detail: Show::Absent,
            after: "",
        },
        ErrorKind::MalformedRecord => Wording {
            before: "malformed comment start marker: ",
            subject: Show::Quoted,
            middle: "",
            detail: Show::Absent,
            after: "",
        },
        ErrorKind::OrphanEnd => Wording {
            before: "orphan or malformed comment end marker",
            subject: Show::Absent,
            middle: "",
            detail: Show::Absent,
            after: "",
        },
        ErrorKind::UnsupportedMarker => Wording {
            before: "malformed or unsupported kbmd comment marker",
            subject: Show::Absent,
            middle: "",
            detail: Show::Absent,
            after: "",
        },
        ErrorKind::InlineTerminator => Wording {
            before: "comment metadata cannot contain an inline HTML comment terminator",
            subject: Show::Absent,
            middle: "",
            detail: Show::Absent,
            after: "",
        },
        ErrorKind::NestedMarkerInMetadata => Wording {
            before: "nested comment control marker in comment metadata",
            subject: Show::Absent,
            middle: "",
            detail: Show::Absent,
            after: "",
        },
        ErrorKind::UnterminatedStart => Wording {
            before: "comment start marker is missing a standalone --> terminator",
            subject: Show::Absent,
            middle: "",
            detail: Show::Absent,
            after: "",
        },
        ErrorKind::IndentedMetadata => Wording {
            before: "comment metadata values must be single-line YAML scalars",
            subject: Show::Absent,
            middle: "",
            detail: Show::Absent,
            after: "",
        },
        ErrorKind::MalformedMetadata => Wording {
            before: "malformed comment metadata entry",
            subject: Show::Absent,
            middle: "",
            detail: Show::Absent,
            after: "",
        },
        ErrorKind::UnknownMetadataKey => Wording {
            before: "unknown comment metadata key ",
            subject: Show::Quoted,
            middle: "",
            detail: Show::Absent,
            after: "",
        },
        ErrorKind::DuplicateMetadataKey => Wording {
            before: "duplicate comment metadata key ",
            subject: Show::Quoted,
            middle: "",
            detail: Show::Absent,
            after: "",
        },
        ErrorKind::MissingMetadataKey => Wording {
            before: "comment metadata is missing ",
            subject: Show::Quoted,
            middle: "",
            detail: Show::Absent,
            after: "",
        },
        ErrorKind::InvalidMetadataYaml => Wording {
            before: "invalid comment metadata YAML",
            subject: Show::Absent,
            middle: "",
            detail: Show::Absent,
            after: "",
        },
        ErrorKind::UnsupportedVersion => Wording {
            before: "unsupported comment version ",
            subject: Show::Plain,
            middle: "",
            detail: Show::Absent,
            after: "",
        },
        ErrorKind::IdPrefix => Wording {
            before: "comment id must start with CMT-",
            subject: Show::Absent,
            middle: "",
            detail: Show::Absent,
            after: "",
        },
        ErrorKind::IdNotUuid => Wording {
            before: "comment id does not contain a valid UUID",
            subject: Show::Absent,
            middle: "",
            detail: Show::Absent,
            after: "",
        },
        ErrorKind::IdNotVersionSeven => Wording {
            before: "comment id must contain a UUIDv7",
            subject: Show::Absent,
            middle: "",
            detail: Show::Absent,
            after: "",
        },
        ErrorKind::IdNotCanonical => Wording {
            before: "comment id must use canonical CMT-<UUIDv7> form",
            subject: Show::Absent,
            middle: "",
            detail: Show::Absent,
            after: "",
        },
        ErrorKind::PaddedAuthor => Wording {
            before: "comment author cannot have leading or trailing whitespace",
            subject: Show::Absent,
            middle: "",
            detail: Show::Absent,
            after: "",
        },
        ErrorKind::EmptyAuthor => Wording {
            before: "comment author cannot be empty",
            subject: Show::Absent,
            middle: "",
            detail: Show::Absent,
            after: "",
        },
        ErrorKind::LongAuthor => Wording {
            before: "comment author cannot exceed 128 characters",
            subject: Show::Absent,
            middle: "",
            detail: Show::Absent,
            after: "",
        },
        ErrorKind::ControlInAuthor => Wording {
            before: "comment author cannot contain control characters",
            subject: Show::Absent,
            middle: "",
            detail: Show::Absent,
            after: "",
        },
        ErrorKind::TerminatorInAuthor => Wording {
            before: "comment author cannot contain an HTML comment terminator",
            subject: Show::Absent,
            middle: "",
            detail: Show::Absent,
            after: "",
        },
        ErrorKind::ExplicitAuthor => Wording {
            before: "invalid --author value: ",
            subject: Show::Plain,
            middle: "",
            detail: Show::Absent,
            after: "",
        },
        ErrorKind::EnvironmentAuthor => Wording {
            before: "invalid KBMD_AUTHOR value: ",
            subject: Show::Plain,
            middle: "",
            detail: Show::Absent,
            after: "",
        },
        ErrorKind::EnvironmentNotUnicode => Wording {
            before: "KBMD_AUTHOR is not valid Unicode",
            subject: Show::Absent,
            middle: "",
            detail: Show::Absent,
            after: "",
        },
        ErrorKind::GitAuthor => Wording {
            before: "invalid Git user.name: ",
            subject: Show::Plain,
            middle: "",
            detail: Show::Absent,
            after: "",
        },
        ErrorKind::NoAuthor => Wording {
            before: "no comment author is configured; use --author, set KBMD_AUTHOR, or configure Git user.name",
            subject: Show::Absent,
            middle: "",
            detail: Show::Absent,
            after: "",
        },
        ErrorKind::InvalidTimestamp => Wording {
            before: "invalid comment created_at",
            subject: Show::Absent,
            middle: "",
            detail: Show::Absent,
            after: "",
        },
        ErrorKind::TimestampNotUtc => Wording {
            before: "comment created_at must be UTC",
            subject: Show::Absent,
            middle: "",
            detail: Show::Absent,
            after: "",
        },
        ErrorKind::NestedRegistry => Wording {
            before: "comments registry marker cannot be nested inside a comment block",
            subject: Show::Absent,
            middle: "",
            detail: Show::Absent,
            after: "",
        },
        ErrorKind::SecondRegistry => Wording {
            before: "a card can contain only one kbmd comments registry",
            subject: Show::Absent,
            middle: "",
            detail: Show::Absent,
            after: "",
        },
        ErrorKind::NestedStart => Wording {
            before: "nested comment start marker is not allowed",
            subject: Show::Absent,
            middle: "",
            detail: Show::Absent,
            after: "",
        },
        ErrorKind::DuplicateComment => Wording {
            before: "duplicate comment id ",
            subject: Show::Quoted,
            middle: "",
            detail: Show::Absent,
            after: "",
        },
        ErrorKind::OrphanEndOf => Wording {
            before: "orphan comment end marker for ",
            subject: Show::Quoted,
            middle: "",
            detail: Show::Absent,
            after: "",
        },
        ErrorKind::MismatchedEnd => Wording {
            before: "comment end marker id ",
            subject: Show::Quoted,
            middle: " does not match start id ",
            detail: Show::Quoted,
            after: "",
        },
        ErrorKind::UnfinishedComment => Wording {
            before: "comment ",
            subject: Show::Quoted,
            middle: " has no matching end marker",
            detail: Show::Absent,
            after: "",
        },
        ErrorKind::NoRegistry => Wording {
            before: "structured comments require a <!-- kbmd:comments:v1 --> registry marker",
            subject: Show::Absent,
            middle: "",
            detail: Show::Absent,
            after: "",
        },
        ErrorKind::RegistryOutsideSection => Wording {
            before: "comments registry must be inside a Markdown section",
            subject: Show::Absent,
            middle: "",
            detail: Show::Absent,
            after: "",
        },
        ErrorKind::CommentOutsideRegistry => Wording {
            before: "every structured comment must follow the registry in its section's direct content",
            subject: Show::Absent,
            middle: "",
            detail: Show::Absent,
            after: "",
        },
        ErrorKind::MissingAttribution => Wording {
            before: "comment ",
            subject: Show::Quoted,
            middle: " is missing its visible attribution",
            detail: Show::Absent,
            after: "",
        },
        ErrorKind::InvalidAttribution => Wording {
            before: "comment ",
            subject: Show::Quoted,
            middle: " has invalid visible attribution",
            detail: Show::Absent,
            after: "",
        },
        ErrorKind::MissingBlankLine => Wording {
            before: "comment ",
            subject: Show::Quoted,
            middle: " must separate attribution and text with a blank line",
            detail: Show::Absent,
            after: "",
        },
        ErrorKind::EmptyCommentText => Wording {
            before: "comment ",
            subject: Show::Quoted,
            middle: " text cannot be empty",
            detail: Show::Absent,
            after: "",
        },
        ErrorKind::NestedMarker => Wording {
            before: "comment ",
            subject: Show::Quoted,
            middle: " contains a nested kbmd comment control marker",
            detail: Show::Absent,
            after: "",
        },
        ErrorKind::EmptyText => Wording {
            before: "comment text cannot be empty",
            subject: Show::Absent,
            middle: "",
            detail: Show::Absent,
            after: "",
        },
        ErrorKind::MetadataNotRendered => Wording {
            before: "could not serialize comment metadata",
            subject: Show::Absent,
            middle: "",
            detail: Show::Absent,
            after: "",
        },
        ErrorKind::AmbiguousSection => Wording {
            before: "section ",
            subject: Show::Quoted,
            middle: " is ambiguous because it appears ",
            detail: Show::Plain,
            after: " times",
        },
        ErrorKind::CommentNotFound => Wording {
            before: "comment ",
            subject: Show::Quoted,
            middle: " was not found",
            detail: Show::Absent,
            after: "",
        },
        ErrorKind::SectionNotFound => Wording {
            before: "section ",
            subject: Show::Quoted,
            middle: " was not found",
            detail: Show::Absent,
            after: "",
        },
        ErrorKind::EmptyItem => Wording {
            before: "checklist text cannot be empty",
            subject: Show::Absent,
            middle: "",
            detail: Show::Absent,
            after: "",
        },
        ErrorKind::ItemNotFound => Wording {
            before: "checklist item ",
            subject: Show::Plain,
            middle: " was not found",
            detail: Show::Absent,
            after: "",
        },
        ErrorKind::ItemNotInSection => Wording {
            before: "checklist item ",
            subject: Show::Plain,
            middle: " was not found in section ",
            detail: Show::Quoted,
            after: "",
        },
        ErrorKind::ZeroIndex => Wording {
            before: "checklist indexes start at 1",
            subject: Show::Absent,
            middle: "",
            detail: Show::Absent,
            after: "",
        },
        ErrorKind::ProtectedSection => Wording {
            before: "section ",
            subject: Show::Quoted,
            middle: " contains structured comments; use `kbmd comment` commands instead",
            detail: Show::Absent,
            after: "",
        },
        ErrorKind::EmptyTitle => Wording {
            before: "section title cannot be empty",
            subject: Show::Absent,
            middle: "",
            detail: Show::Absent,
            after: "",
        },
        ErrorKind::TitleLines => Wording {
            before: "section title must fit on one line",
            subject: Show::Absent,
            middle: "",
            detail: Show::Absent,
            after: "",
        },
        ErrorKind::ConfigVersion => Wording {
            before: "unsupported config version ",
            subject: Show::Plain,
            middle: "; this build supports version 1",
            detail: Show::Absent,
            after: "",
        },
        ErrorKind::EmptyBoardName => Wording {
            before: "board name cannot be empty",
            subject: Show::Absent,
            middle: "",
            detail: Show::Absent,
            after: "",
        },
        ErrorKind::PaddedBoardName => Wording {
            before: "board name cannot start or end with whitespace",
            subject: Show::Absent,
            middle: "",
            detail: Show::Absent,
            after: "",
        },
        ErrorKind::ControlCharacters => Wording {
            before: "",
            subject: Show::Plain,
            middle: " cannot contain control characters",
            detail: Show::Absent,
            after: "",
        },
        ErrorKind::NoColumns => Wording {
            before: "at least one column is required",
            subject: Show::Absent,
            middle: "",
            detail: Show::Absent,
            after: "",
        },
        ErrorKind::EmptyColumnName => Wording {
            before: "column names cannot be empty",
            subject: Show::Absent,
            middle: "",
            detail: Show::Absent,
            after: "",
        },
        ErrorKind::PaddedColumnName => Wording {
            before: "column names cannot start or end with whitespace",
            subject: Show::Absent,
            middle: "",
            detail: Show::Absent,
            after: "",
        },
        ErrorKind::DuplicateColumn => Wording {
            before: "duplicate column name: ",
            subject: Show::Plain,
            middle: "",
            detail: Show::Absent,
            after: "",
        },
        ErrorKind::ZeroWipLimit => Wording {
            before: "WIP limit for ",
            subject: Show::Plain,
            middle: " must be greater than zero",
            detail: Show::Absent,
            after: "",
        },
        ErrorKind::UnknownDefaultStatus => Wording {
            before: "default status ",
            subject: Show::Quoted,
            middle: " is not one of the configured columns",
            detail: Show::Absent,
            after: "",
        },
        ErrorKind::PaddedPrefix => Wording {
            before: "id_prefix cannot start or end with whitespace",
            subject: Show::Absent,
            middle: "",
            detail: Show::Absent,
            after: "",
        },
        ErrorKind::InvalidPrefix => Wording {
            before: "id_prefix must contain only ASCII letters, digits, or underscores",
            subject: Show::Absent,
            middle: "",
            detail: Show::Absent,
            after: "",
        },
        ErrorKind::CardsDirectory => Wording {
            before: "cards_dir must be a relative path contained inside .kbmd",
            subject: Show::Absent,
            middle: "",
            detail: Show::Absent,
            after: "",
        },
        ErrorKind::EmptyDocument => Wording {
            before: "document is empty; expected YAML frontmatter",
            subject: Show::Absent,
            middle: "",
            detail: Show::Absent,
            after: "",
        },
        ErrorKind::NoFrontmatter => Wording {
            before: "document must start with a YAML frontmatter delimiter (`---`)",
            subject: Show::Absent,
            middle: "",
            detail: Show::Absent,
            after: "",
        },
        ErrorKind::OpenFrontmatter => Wording {
            before: "YAML frontmatter has no closing delimiter",
            subject: Show::Absent,
            middle: "",
            detail: Show::Absent,
            after: "",
        },
        ErrorKind::EmptyFrontmatter => Wording {
            before: "YAML frontmatter cannot be empty",
            subject: Show::Absent,
            middle: "",
            detail: Show::Absent,
            after: "",
        },
        ErrorKind::EmptyCardId => Wording {
            before: "card id cannot be empty",
            subject: Show::Absent,
            middle: "",
            detail: Show::Absent,
            after: "",
        },
        ErrorKind::EmptyCardTitle => Wording {
            before: "card title cannot be empty",
            subject: Show::Absent,
            middle: "",
            detail: Show::Absent,
            after: "",
        },
        ErrorKind::EmptyCardStatus => Wording {
            before: "card status cannot be empty",
            subject: Show::Absent,
            middle: "",
            detail: Show::Absent,
            after: "",
        },
        ErrorKind::ProjectExists => Wording {
            before: "a kbmd project already exists at ",
            subject: Show::Plain,
            middle: "",
            detail: Show::Absent,
            after: "",
        },
        ErrorKind::NoProject => Wording {
            before: "no kbmd project found from ",
            subject: Show::Plain,
            middle: "; run `kbmd init` first",
            detail: Show::Absent,
            after: "",
        },
        ErrorKind::UnknownStatus => Wording {
            before: "unknown status ",
            subject: Show::Quoted,
            middle: "; expected one of: ",
            detail: Show::Plain,
            after: "",
        },
        ErrorKind::InFile => Wording {
            before: "in ",
            subject: Show::Plain,
            middle: ": ",
            detail: Show::Plain,
            after: "",
        },
        ErrorKind::DuplicateCards => Wording {
            before: "duplicate card id ",
            subject: Show::Quoted,
            middle: " in: ",
            detail: Show::Plain,
            after: "",
        },
        ErrorKind::DuplicateInFiles => Wording {
            before: "duplicate card id ",
            subject: Show::Quoted,
            middle: " appears in ",
            detail: Show::Plain,
            after: " files",
        },
        ErrorKind::CardNotFound => Wording {
            before: "card ",
            subject: Show::Quoted,
            middle: " was not found",
            detail: Show::Absent,
            after: "",
        },
        ErrorKind::AmbiguousCard => Wording {
            before: "card id ",
            subject: Show::Quoted,
            middle: " is ambiguous across ",
            detail: Show::Plain,
            after: " files",
        },
        ErrorKind::IdsExhausted => Wording {
            before: "card ID space is exhausted",
            subject: Show::Absent,
            middle: "",
            detail: Show::Absent,
            after: "",
        },
        ErrorKind::OrdinalsExhausted => Wording {
            before: "card ordering value is exhausted in status ",
            subject: Show::Quoted,
            middle: "",
            detail: Show::Absent,
            after: "",
        },
        ErrorKind::WipLimit => Wording {
            before: "column ",
            subject: Show::Quoted,
            middle: " has reached its WIP limit of ",
            detail: Show::Plain,
            after: "",
        },
        ErrorKind::WipExceeded => Wording {
            before: "column ",
            subject: Show::Quoted,
            middle: " exceeds its WIP limit of ",
            detail: Show::Plain,
            after: "",
        },
        ErrorKind::ReservedField => Wording {
            before: "custom field ",
            subject: Show::Quoted,
            middle: " conflicts with a reserved card field",
            detail: Show::Absent,
            after: "",
        },
        ErrorKind::BrokenCard => Wording {
            before: "",
            subject: Show::Plain,
            middle: "",
            detail: Show::Absent,
            after: "",
        },
        ErrorKind::AssignmentSyntax => Wording {
            before: "",
            subject: Show::Plain,
            middle: " must use NAME=VALUE syntax",
            detail: Show::Absent,
            after: "",
        },
        ErrorKind::AssignmentName => Wording {
            before: "",
            subject: Show::Plain,
            middle: " name cannot be empty",
            detail: Show::Absent,
            after: "",
        },
        ErrorKind::InvalidYamlValue => Wording {
            before: "invalid YAML value",
            subject: Show::Absent,
            middle: "",
            detail: Show::Absent,
            after: "",
        },
        ErrorKind::FieldKey => Wording {
            before: "custom field key must be a non-empty single line",
            subject: Show::Absent,
            middle: "",
            detail: Show::Absent,
            after: "",
        },
        ErrorKind::ReservedKey => Wording {
            before: "",
            subject: Show::Quoted,
            middle: " is reserved; use `kbmd edit` for canonical fields",
            detail: Show::Absent,
            after: "",
        },
        ErrorKind::FieldNotFound => Wording {
            before: "custom field ",
            subject: Show::Quoted,
            middle: " was not found",
            detail: Show::Absent,
            after: "",
        },
        ErrorKind::NoEdits => Wording {
            before: "no edits were supplied",
            subject: Show::Absent,
            middle: "",
            detail: Show::Absent,
            after: "",
        },
        ErrorKind::EmptyAppend => Wording {
            before: "content to append cannot be empty",
            subject: Show::Absent,
            middle: "",
            detail: Show::Absent,
            after: "",
        },
        ErrorKind::NoSuchStatus => Wording {
            before: "unknown status ",
            subject: Show::Quoted,
            middle: "",
            detail: Show::Absent,
            after: "",
        },
        ErrorKind::ValidationFailed => Wording {
            before: "validation found ",
            subject: Show::Plain,
            middle: " issue(s)",
            detail: Show::Absent,
            after: "",
        },
        ErrorKind::YamlNotWritten => Wording {
            before: "could not serialize YAML",
            subject: Show::Absent,
            middle: "",
            detail: Show::Absent,
            after: "",
        },
    }
}

/// Appends a value as it appears in a message.
fn push_shown(out: &mut Vec<char>, show: Show, value: &str)
    ensures
        final(out)@ == old(out)@ + shown(show, value@),
{
    match show {
        Show::Absent => {},
        Show::Plain => {
            text::push_all(out, &text::chars_of(value));
        },
        Show::Quoted => {
            let quoted = outside::debug_quoted(value);
            text::push_all(out, &text::chars_of(&quoted));
        },
    }
}

impl Error {
    /// An error about nothing in particular.
    pub fn plain(kind: ErrorKind) -> (r: Error)
        ensures
            r@ == plain(kind),
    {
        Error { kind, subject: String::new(), detail: String::new() }
    }

    /// An error about one thing.
    pub fn about(kind: ErrorKind, subject: &[char]) -> (r: Error)
        ensures
            r@ == about(kind, subject@),
    {
        Error { kind, subject: text::string_of(subject), detail: String::new() }
    }

    /// An error about one thing, with a detail.
    pub fn detailed(kind: ErrorKind, subject: &[char], detail: &[char]) -> (r: Error)
        ensures
            r@ == detailed(kind, subject@, detail@),
    {
        Error { kind, subject: text::string_of(subject), detail: text::string_of(detail) }
    }

    /// The message that tells the error.
    pub fn message(&self) -> (r: String)
        ensures
            r@ == told(self@),
    {
        let wording = wording_of(self.kind);
        let mut out: Vec<char> = text::chars_of(wording.before);
        push_shown(&mut out, wording.subject, &self.subject);
        text::push_all(&mut out, &text::chars_of(wording.middle));
        push_shown(&mut out, wording.detail, &self.detail);
        text::push_all(&mut out, &text::chars_of(wording.after));
        text::string_of(&out)
    }
}

} // verus!
