//! Cards: their metadata and their body.

use crate::error;
use crate::error::{Error, ErrorKind, Failure};
use crate::fields::Fields;
use crate::markdown;
use crate::markdown::ItemView;
use crate::outside;
use crate::text;
use vstd::prelude::*;

verus! {

/// The metadata of a card as specifications speak of it.
#[verifier::ext_equal]
pub struct MetadataView {
    pub id: Seq<char>,
    pub title: Seq<char>,
    pub status: Seq<char>,
    pub labels: Seq<Seq<char>>,
    pub assignees: Seq<Seq<char>>,
    pub ordinal: Option<i64>,
    pub created_date: Seq<char>,
    pub updated_date: Seq<char>,
    pub extra: Map<Seq<char>, Seq<char>>,
}

/// A card as specifications speak of it.
#[verifier::ext_equal]
pub struct CardView {
    pub metadata: MetadataView,
    pub body: Seq<char>,
    pub path: Seq<char>,
}

/// The card fields that the library knows. All others are kept in `extra` when a card is rewritten.
#[derive(Debug, PartialEq, Eq)]
pub struct CardMetadata {
    pub id: String,
    pub title: String,
    pub status: String,
    pub labels: Vec<String>,
    pub assignees: Vec<String>,
    pub ordinal: Option<i64>,
    pub created_date: String,
    pub updated_date: String,
    pub extra: Fields,
}

/// A card with its Markdown body and the path of its file.
#[derive(Debug, PartialEq, Eq)]
pub struct Card {
    pub metadata: CardMetadata,
    pub body: String,
    pub path: String,
}

impl View for CardMetadata {
    type V = MetadataView;

    open spec fn view(&self) -> MetadataView {
        MetadataView {
            id: self.id@,
            title: self.title@,
            status: self.status@,
            labels: text::strings(self.labels@),
            assignees: text::strings(self.assignees@),
            ordinal: self.ordinal,
            created_date: self.created_date@,
            updated_date: self.updated_date@,
            extra: self.extra@,
        }
    }
}

impl View for Card {
    type V = CardView;

    open spec fn view(&self) -> CardView {
        CardView { metadata: self.metadata@, body: self.body@, path: self.path@ }
    }
}

/// The cards in a list.
pub open spec fn card_views(cards: Seq<Card>) -> Seq<CardView> {
    cards.map_values(|c: Card| c@)
}

/// The metadata of a new card at a time.
pub open spec fn new_metadata(
    id: Seq<char>,
    title: Seq<char>,
    status: Seq<char>,
    ordinal: i64,
    time: Seq<char>,
) -> MetadataView {
    MetadataView {
        id,
        title,
        status,
        labels: Seq::empty(),
        assignees: Seq::empty(),
        ordinal: Some(ordinal),
        created_date: time,
        updated_date: time,
        extra: Map::empty(),
    }
}

/// What is demanded of the metadata of a card.
pub open spec fn metadata_check(metadata: MetadataView) -> Result<(), Failure> {
    if text::is_blank(metadata.id) {
        Err(error::plain(ErrorKind::EmptyCardId))
    } else if text::is_blank(metadata.title) {
        Err(error::plain(ErrorKind::EmptyCardTitle))
    } else if text::is_blank(metadata.status) {
        Err(error::plain(ErrorKind::EmptyCardStatus))
    } else {
        Ok(())
    }
}

/// What is demanded of a title that a card is given.
pub open spec fn title_check(title: Seq<char>) -> Result<(), Failure> {
    if text::has_control(title) {
        Err(error::about(ErrorKind::ControlCharacters, "card title"@))
    } else {
        Ok(())
    }
}

/// Checks a title that a card is given.
pub fn validate_title(title: &str) -> (r: Result<(), Error>)
    ensures
        error::decides(r, title_check(title@)),
{
    if text::controlled(&text::chars_of(title)) {
        return Err(Error::about(ErrorKind::ControlCharacters, &text::chars_of("card title")));
    }
    Ok(())
}

/// The present time in UTC, by RFC 3339 with seconds.
pub fn now() -> (r: String)
    ensures
        outside::is_utc(r@, 20),
{
    outside::timestamp_in_seconds()
}

impl CardMetadata {
    /// The metadata of a new card. Both of its dates are the present time.
    pub fn new(id: String, title: String, status: String, ordinal: i64) -> (r: CardMetadata)
        ensures
            r@ == new_metadata(id@, title@, status@, ordinal, r@.created_date),
            outside::is_utc(r@.created_date, 20),
    {
        let time = now();
        let again = text::copy_string(&time);
        let labels: Vec<String> = Vec::new();
        let assignees: Vec<String> = Vec::new();
        assert(text::strings(labels@) =~= Seq::empty());
        CardMetadata {
            id,
            title,
            status,
            labels,
            assignees,
            ordinal: Some(ordinal),
            created_date: time,
            updated_date: again,
            extra: Fields::new(),
        }
    }

    /// Checks the metadata.
    pub fn validate(&self) -> (r: Result<(), Error>)
        ensures
            error::decides(r, metadata_check(self@)),
    {
        if text::blank(&text::chars_of(&self.id)) {
            return Err(Error::plain(ErrorKind::EmptyCardId));
        }
        if text::blank(&text::chars_of(&self.title)) {
            return Err(Error::plain(ErrorKind::EmptyCardTitle));
        }
        if text::blank(&text::chars_of(&self.status)) {
            return Err(Error::plain(ErrorKind::EmptyCardStatus));
        }
        Ok(())
    }

    /// Sets the date of the last change to the present time.
    pub fn touch(&mut self)
        ensures
            final(self)@ == (MetadataView {
                updated_date: final(self)@.updated_date,
                ..old(self)@
            }),
            outside::is_utc(final(self)@.updated_date, 20),
    {
        self.updated_date = now();
    }

    /// A copy of the metadata.
    pub fn copied(&self) -> (r: CardMetadata)
        ensures
            r@ == self@,
    {
        CardMetadata {
            id: text::copy_string(&self.id),
            title: text::copy_string(&self.title),
            status: text::copy_string(&self.status),
            labels: text::copy_strings(&self.labels),
            assignees: text::copy_strings(&self.assignees),
            ordinal: self.ordinal,
            created_date: text::copy_string(&self.created_date),
            updated_date: text::copy_string(&self.updated_date),
            extra: self.extra.copied(),
        }
    }
}

/// How many of the first `n` items are checked.
pub open spec fn count_checked(items: Seq<ItemView>, n: nat) -> nat
    decreases n,
{
    if n == 0 || n > items.len() {
        0
    } else {
        count_checked(items, (n - 1) as nat) + if items[n - 1].checked {
            1nat
        } else {
            0nat
        }
    }
}

/// How many checklist items of a body are checked, and how many there are.
pub open spec fn progress(body: Seq<char>) -> (nat, nat) {
    let items = markdown::items_in(body);
    (count_checked(items, items.len()), items.len())
}

impl Card {
    /// How many checklist items are checked, and how many there are.
    pub fn checklist_progress(&self) -> (r: (usize, usize))
        ensures
            (r.0 as nat, r.1 as nat) == progress(self@.body),
    {
        let items = markdown::checklist_items(&self.body);
        let ghost views = markdown::item_views(items@);
        let mut checked: usize = 0;
        let mut i: usize = 0;
        while i < items.len()
            invariant
                i <= items@.len(),
                checked <= i,
                views == markdown::item_views(items@),
                views.len() == items@.len(),
                checked == count_checked(views, i as nat),
            decreases items@.len() - i,
        {
            let item = &items[i];
            assert(views[i as int] == item@);
            if item.checked {
                checked += 1;
            }
            i += 1;
        }
        (checked, items.len())
    }

    /// A copy of the card.
    pub fn copied(&self) -> (r: Card)
        ensures
            r@ == self@,
    {
        Card {
            metadata: self.metadata.copied(),
            body: text::copy_string(&self.body),
            path: text::copy_string(&self.path),
        }
    }
}

} // verus!
