//! What the board looks like: where everything stands on the screen, and what the mouse meets there.

use crate::config::{ColumnConfig, ColumnView};
use crate::markdown;
use crate::markdown::ItemView;
use crate::model;
use crate::model::{Card, CardView};
use crate::outside;
use crate::outside::{Direction, Extent};
use crate::text;
use crate::text::CharClass;
use crate::tui::app;
use crate::tui::app::{App, AppView, Focus, Mode, ModeView};
use vstd::prelude::*;

verus! {

/// The least width of a column.
pub const MIN_COLUMN_WIDTH: u16 = 22;

/// The space between columns.
pub const COLUMN_GAP: u16 = 1;

/// The height of a card.
pub const CARD_HEIGHT: u16 = 4;

/// The space between cards.
pub const CARD_GAP: u16 = 1;

/// The height of a card with the space below it.
pub const CARD_PITCH: u16 = 5;

/// A rectangle on the screen.
#[derive(Clone, Copy, Debug, PartialEq, Eq, Structural)]
pub struct Rect {
    pub x: u16,
    pub y: u16,
    pub width: u16,
    pub height: u16,
}

impl Rect {
    /// Whether the rectangle ends on a screen of any size.
    pub open spec fn fits(self) -> bool {
        self.x + self.width <= u16::MAX && self.y + self.height <= u16::MAX
    }

    /// The first place to the right of the rectangle.
    pub open spec fn end_x(self) -> int {
        app::least(self.x + self.width, u16::MAX as int)
    }

    /// The first place below the rectangle.
    pub open spec fn end_y(self) -> int {
        app::least(self.y + self.height, u16::MAX as int)
    }

    /// Whether a place is in the rectangle.
    pub open spec fn holds(self, x: u16, y: u16) -> bool {
        self.x <= x < self.end_x() && self.y <= y < self.end_y()
    }

    /// Whether the rectangle has no places.
    pub open spec fn is_void(self) -> bool {
        self.width == 0 || self.height == 0
    }

    /// What a border around the rectangle leaves.
    pub open spec fn framed(self) -> Rect {
        Rect {
            x: app::least(self.x + 1, self.end_x()) as u16,
            y: app::least(self.y + 1, self.end_y()) as u16,
            width: less(self.width as int, 2) as u16,
            height: less(self.height as int, 2) as u16,
        }
    }

    /// The first place to the right of the rectangle.
    pub fn right(&self) -> (r: u16)
        ensures
            r == self.end_x(),
    {
        if self.width > u16::MAX - self.x {
            u16::MAX
        } else {
            self.x + self.width
        }
    }

    /// The first place below the rectangle.
    pub fn bottom(&self) -> (r: u16)
        ensures
            r == self.end_y(),
    {
        if self.height > u16::MAX - self.y {
            u16::MAX
        } else {
            self.y + self.height
        }
    }

    /// Whether a place is in the rectangle.
    pub fn contains(&self, x: u16, y: u16) -> (r: bool)
        ensures
            r == self.holds(x, y),
    {
        x >= self.x && x < self.right() && y >= self.y && y < self.bottom()
    }

    /// What a border around the rectangle leaves.
    pub fn inner(&self) -> (r: Rect)
        ensures
            r == self.framed(),
    {
        let x = if self.right() > self.x {
            self.x + 1
        } else {
            self.x
        };
        let y = if self.bottom() > self.y {
            self.y + 1
        } else {
            self.y
        };
        Rect { x, y, width: take_away(self.width, 2), height: take_away(self.height, 2) }
    }
}

/// A number less another, and at least zero.
pub open spec fn less(a: int, b: int) -> int {
    if a < b {
        0
    } else {
        a - b
    }
}

/// Takes a number away from another, down to zero.
fn take_away(a: u16, b: u16) -> (r: u16)
    ensures
        r == less(a as int, b as int),
{
    if a < b {
        0
    } else {
        a - b
    }
}

/// What the mouse can meet.
#[derive(Clone, Debug, PartialEq, Eq)]
pub enum HitTarget {
    BoardPane,
    DetailPane,
    Column(usize),
    Card { id: String, column: usize, row: usize },
    Checklist { card_id: String, global_index: usize },
}

/// What the mouse can meet, as specifications speak of it.
#[verifier::ext_equal]
pub enum TargetView {
    BoardPane,
    DetailPane,
    Column(usize),
    Card { id: Seq<char>, column: usize, row: usize },
    Checklist { card_id: Seq<char>, global_index: usize },
}

impl View for HitTarget {
    type V = TargetView;

    open spec fn view(&self) -> TargetView {
        match self {
            HitTarget::BoardPane => TargetView::BoardPane,
            HitTarget::DetailPane => TargetView::DetailPane,
            HitTarget::Column(column) => TargetView::Column(*column),
            HitTarget::Card { id, column, row } => TargetView::Card {
                id: id@,
                column: *column,
                row: *row,
            },
            HitTarget::Checklist { card_id, global_index } => TargetView::Checklist {
                card_id: card_id@,
                global_index: *global_index,
            },
        }
    }
}

/// A rectangle with what the mouse meets there.
#[derive(Clone, Debug, PartialEq, Eq)]
pub struct HitRegion {
    pub rect: Rect,
    pub target: HitTarget,
}

/// A rectangle with what the mouse meets there, as specifications speak of it.
#[verifier::ext_equal]
pub struct HitView {
    pub rect: Rect,
    pub target: TargetView,
}

impl View for HitRegion {
    type V = HitView;

    open spec fn view(&self) -> HitView {
        HitView { rect: self.rect, target: self.target@ }
    }
}

/// What the mouse meets on the screen. What comes later lies above what comes before.
#[derive(Clone, Debug, PartialEq, Eq)]
pub struct HitMap {
    pub regions: Vec<HitRegion>,
}

impl View for HitMap {
    type V = Seq<HitView>;

    open spec fn view(&self) -> Seq<HitView> {
        self.regions@.map_values(|r: HitRegion| r@)
    }
}

impl Default for HitMap {
    fn default() -> (r: HitMap)
        ensures
            r@ == Seq::<HitView>::empty(),
    {
        let r = HitMap { regions: Vec::new() };
        assert(r@ =~= Seq::<HitView>::empty());
        r
    }
}

/// A map with one more region, unless it has no places.
pub open spec fn with_region(hits: Seq<HitView>, rect: Rect, target: TargetView) -> Seq<HitView> {
    if rect.is_void() {
        hits
    } else {
        hits.push(HitView { rect, target })
    }
}

/// The last of the first `n` regions that holds a place.
pub open spec fn uppermost(hits: Seq<HitView>, x: u16, y: u16, n: nat) -> Option<TargetView>
    decreases n,
{
    if n == 0 || n > hits.len() {
        None
    } else if hits[n - 1].rect.holds(x, y) {
        Some(hits[n - 1].target)
    } else {
        uppermost(hits, x, y, (n - 1) as nat)
    }
}

/// The last of the first `n` regions that holds a place and is a column.
pub open spec fn uppermost_column(hits: Seq<HitView>, x: u16, y: u16, n: nat) -> Option<usize>
    decreases n,
{
    if n == 0 || n > hits.len() {
        None
    } else if hits[n - 1].rect.holds(x, y) && hits[n - 1].target is Column {
        Some(hits[n - 1].target->Column_0)
    } else {
        uppermost_column(hits, x, y, (n - 1) as nat)
    }
}

/// Whether a place is in the detail.
pub open spec fn in_detail(hits: Seq<HitView>, x: u16, y: u16) -> bool {
    exists|i: int|
        0 <= i < hits.len() && (#[trigger] hits[i]).rect.holds(x, y)
            && hits[i].target is DetailPane
}

/// The target that an optional reference stands for.
pub open spec fn target_of(target: Option<&HitTarget>) -> Option<TargetView> {
    match target {
        Some(target) => Some(target@),
        None => None,
    }
}

impl HitMap {
    /// Adds a region, unless it has no places.
    pub fn push(&mut self, rect: Rect, target: HitTarget)
        ensures
            final(self)@ == with_region(old(self)@, rect, target@),
    {
        if rect.width > 0 && rect.height > 0 {
            let ghost before = self@;
            let ghost added = HitView { rect, target: target@ };
            self.regions.push(HitRegion { rect, target });
            assert(self@ =~= before.push(added));
        }
    }

    /// What lies uppermost at a place.
    pub fn target_at(&self, x: u16, y: u16) -> (r: Option<&HitTarget>)
        ensures
            target_of(r) == uppermost(self@, x, y, self@.len()),
    {
        let mut n = self.regions.len();
        while n > 0
            invariant
                n <= self.regions@.len(),
                self@.len() == self.regions@.len(),
                uppermost(self@, x, y, n as nat) == uppermost(self@, x, y, self@.len()),
            decreases n,
        {
            let region = &self.regions[n - 1];
            assert(self@[n - 1] == region@);
            if region.rect.contains(x, y) {
                return Some(&region.target);
            }
            n -= 1;
        }
        None
    }

    /// The uppermost column at a place.
    pub fn column_at(&self, x: u16, y: u16) -> (r: Option<usize>)
        ensures
            r == uppermost_column(self@, x, y, self@.len()),
    {
        let mut n = self.regions.len();
        while n > 0
            invariant
                n <= self.regions@.len(),
                self@.len() == self.regions@.len(),
                uppermost_column(self@, x, y, n as nat) == uppermost_column(
                    self@,
                    x,
                    y,
                    self@.len(),
                ),
            decreases n,
        {
            let region = &self.regions[n - 1];
            assert(self@[n - 1] == region@);
            if region.rect.contains(x, y) {
                if let HitTarget::Column(column) = region.target {
                    return Some(column);
                }
            }
            n -= 1;
        }
        None
    }

    /// Whether a place is in the detail.
    pub fn is_detail_at(&self, x: u16, y: u16) -> (r: bool)
        ensures
            r == in_detail(self@, x, y),
    {
        let mut i: usize = 0;
        while i < self.regions.len()
            invariant
                i <= self.regions@.len(),
                self@.len() == self.regions@.len(),
                forall|j: int|
                    0 <= j < i ==> !((#[trigger] self@[j]).rect.holds(x, y)
                        && self@[j].target is DetailPane),
            decreases self.regions@.len() - i,
        {
            let region = &self.regions[i];
            assert(self@[i as int] == region@);
            let detail = match region.target {
                HitTarget::DetailPane => true,
                _ => false,
            };
            if detail && region.rect.contains(x, y) {
                return true;
            }
            i += 1;
        }
        false
    }
}

/// A color.
#[derive(Clone, Copy, Debug, PartialEq, Eq, Structural)]
pub enum Color {
    Black,
    Red,
    Green,
    Yellow,
    Blue,
    Magenta,
    Cyan,
    Gray,
    DarkGray,
    White,
    Rgb(u8, u8, u8),
}

/// The color with a name in small letters.
pub open spec fn named_color(name: Seq<char>) -> Option<Color> {
    if name == "black"@ {
        Some(Color::Black)
    } else if name == "red"@ {
        Some(Color::Red)
    } else if name == "green"@ {
        Some(Color::Green)
    } else if name == "yellow"@ {
        Some(Color::Yellow)
    } else if name == "blue"@ {
        Some(Color::Blue)
    } else if name == "magenta"@ || name == "purple"@ {
        Some(Color::Magenta)
    } else if name == "cyan"@ {
        Some(Color::Cyan)
    } else if name == "gray"@ || name == "grey"@ {
        Some(Color::Gray)
    } else if name == "darkgray"@ || name == "dark-gray"@ || name == "dark_gray"@ {
        Some(Color::DarkGray)
    } else if name == "white"@ {
        Some(Color::White)
    } else {
        None
    }
}

/// What a hexadecimal digit counts.
pub open spec fn hex_value(c: char) -> Option<u8> {
    if '0' <= c <= '9' {
        Some((c as u32 - '0' as u32) as u8)
    } else if 'a' <= c <= 'f' {
        Some((c as u32 - 'a' as u32 + 10) as u8)
    } else if 'A' <= c <= 'F' {
        Some((c as u32 - 'A' as u32 + 10) as u8)
    } else {
        None
    }
}

/// The number that two hexadecimal digits stand for.
pub open spec fn hex_pair(a: char, b: char) -> Option<u8> {
    match (hex_value(a), hex_value(b)) {
        (Some(a), Some(b)) => Some((a * 16 + b) as u8),
        _ => None,
    }
}

/// The color that `#rrggbb` stands for.
pub open spec fn rgb_color(s: Seq<char>) -> Option<Color> {
    if s.len() == 7 && s[0] == '#' {
        match (hex_pair(s[1], s[2]), hex_pair(s[3], s[4]), hex_pair(s[5], s[6])) {
            (Some(red), Some(green), Some(blue)) => Some(Color::Rgb(red, green, blue)),
            _ => None,
        }
    } else {
        None
    }
}

/// The color that a text stands for, by its name or as `#rrggbb`.
pub open spec fn color_of(s: Seq<char>) -> Option<Color> {
    let name = text::fold(text::trim(s));
    match named_color(name) {
        Some(color) => Some(color),
        None => rgb_color(name),
    }
}

/// Finds what a hexadecimal digit counts.
fn read_hex(c: char) -> (r: Option<u8>)
    ensures
        r == hex_value(c),
        r matches Some(n) ==> n < 16,
{
    if '0' <= c && c <= '9' {
        Some((c as u32 - '0' as u32) as u8)
    } else if 'a' <= c && c <= 'f' {
        Some((c as u32 - 'a' as u32 + 10) as u8)
    } else if 'A' <= c && c <= 'F' {
        Some((c as u32 - 'A' as u32 + 10) as u8)
    } else {
        None
    }
}

/// Reads a number of two hexadecimal digits.
fn read_hex_pair(a: char, b: char) -> (r: Option<u8>)
    ensures
        r == hex_pair(a, b),
{
    match read_hex(a) {
        Some(a) => match read_hex(b) {
            Some(b) => Some(a * 16 + b),
            None => None,
        },
        None => None,
    }
}

/// Reads a color of the form `#rrggbb`.
fn parse_rgb(s: &[char]) -> (r: Option<Color>)
    ensures
        r == rgb_color(s@),
{
    if s.len() != 7 || s[0] != '#' {
        return None;
    }
    let red = match read_hex_pair(s[1], s[2]) {
        Some(red) => red,
        None => {
            return None;
        },
    };
    let green = match read_hex_pair(s[3], s[4]) {
        Some(green) => green,
        None => {
            return None;
        },
    };
    match read_hex_pair(s[5], s[6]) {
        Some(blue) => Some(Color::Rgb(red, green, blue)),
        None => None,
    }
}

/// Finds the color with a name in small letters.
fn find_color(name: &str) -> (r: Option<Color>)
    ensures
        r == named_color(name@),
{
    if text::same_string(name, "black") {
        Some(Color::Black)
    } else if text::same_string(name, "red") {
        Some(Color::Red)
    } else if text::same_string(name, "green") {
        Some(Color::Green)
    } else if text::same_string(name, "yellow") {
        Some(Color::Yellow)
    } else if text::same_string(name, "blue") {
        Some(Color::Blue)
    } else if text::same_string(name, "magenta") || text::same_string(name, "purple") {
        Some(Color::Magenta)
    } else if text::same_string(name, "cyan") {
        Some(Color::Cyan)
    } else if text::same_string(name, "gray") || text::same_string(name, "grey") {
        Some(Color::Gray)
    } else if text::same_string(name, "darkgray") || text::same_string(name, "dark-gray")
        || text::same_string(name, "dark_gray") {
        Some(Color::DarkGray)
    } else if text::same_string(name, "white") {
        Some(Color::White)
    } else {
        None
    }
}

/// Reads a color, by its name or as `#rrggbb`.
pub fn parse_color(value: &str) -> (r: Option<Color>)
    ensures
        r == color_of(value@),
{
    let name = text::fold_string(&text::trim_string(value));
    match find_color(&name) {
        Some(color) => Some(color),
        None => parse_rgb(&text::chars_of(&name)),
    }
}

/// The columns on the screen that a character takes, where control characters take none.
pub open spec fn cells(c: char) -> usize {
    match outside::char_width(c) {
        Some(width) => width,
        None => 0,
    }
}

/// How many characters from `i` on fit into what is left of a width.
pub open spec fn fitting(s: Seq<char>, i: int, left: int) -> Seq<char>
    decreases s.len() - i,
{
    if i < 0 || i >= s.len() || cells(s[i]) > left {
        Seq::empty()
    } else {
        seq![s[i]] + fitting(s, i + 1, left - cells(s[i]))
    }
}

/// A text cut to a width, with an ellipsis where something was cut.
pub open spec fn truncated(s: Seq<char>, width: usize) -> Seq<char> {
    if outside::text_width(s) <= width {
        s
    } else if width == 0 {
        Seq::empty()
    } else if width == 1 {
        "…"@
    } else {
        fitting(s, 0, width - 1) + "…"@
    }
}

/// Cuts a text to a width.
pub fn truncate(value: &str, width: usize) -> (r: String)
    ensures
        r@ == truncated(value@, width),
{
    if outside::width_of_text(value) <= width {
        return text::copy_string(value);
    }
    if width == 0 {
        let r = String::new();
        assert(r@ =~= Seq::empty());
        return r;
    }
    if width == 1 {
        return text::copy_string("…");
    }
    let chars = text::chars_of(value);
    let mut out: Vec<char> = Vec::new();
    let mut left: usize = width - 1;
    let mut i: usize = 0;
    let ghost whole = fitting(chars@, 0, width - 1);
    assert(out@ + fitting(chars@, i as int, left as int) =~= whole);
    let mut fits = true;
    while fits && i < chars.len()
        invariant
            i <= chars@.len(),
            fits ==> out@ + fitting(chars@, i as int, left as int) == whole,
            !fits ==> out@ == whole,
        decreases chars@.len() - i,
    {
        let c = chars[i];
        let taken = match outside::width_of_char(c) {
            Some(taken) => taken,
            None => 0,
        };
        if taken > left {
            fits = false;
            assert(out@ =~= whole);
        } else {
            let ghost before = out@;
            let ghost rest = fitting(chars@, i + 1, left - taken);
            out.push(c);
            assert(before + (seq![c] + rest) =~= out@ + rest);
            left -= taken;
        }
        i += 1;
    }
    assert(fits ==> out@ + Seq::<char>::empty() =~= out@);
    text::push_str(&mut out, "…");
    text::string_of(&out)
}

/// The columns on the screen that the first `n` characters take together.
pub open spec fn total_cells(s: Seq<char>, n: nat) -> int
    decreases n,
{
    if n == 0 || n > s.len() {
        0
    } else {
        total_cells(s, (n - 1) as nat) + cells(s[n - 1])
    }
}

/// A text is only cut where it is too wide. What is left of it then takes at most the given width
/// together with the ellipsis, and is a beginning of the text.
pub proof fn cut_texts_fit(s: Seq<char>, width: usize)
    requires
        outside::text_width(s) > width,
        width >= 1,
    ensures
        truncated(s, width).len() >= 1,
        truncated(s, width).last() == '…',
        truncated(s, width).drop_last().is_prefix_of(s),
        total_cells(s, (truncated(s, width).len() - 1) as nat) <= width - 1 || width == 1,
{
    reveal_strlit("…");
    let ellipsis = "…"@;
    assert(ellipsis.len() == 1 && ellipsis[0] == '…');
    if width > 1 {
        let kept = fitting(s, 0, width - 1);
        lemma_fitting(s, 0, width - 1);
        assert(truncated(s, width) =~= kept.push('…'));
        assert(truncated(s, width).drop_last() =~= kept);
        assert(s.subrange(0, kept.len() as int) =~= kept);
    } else {
        assert(truncated(s, width).drop_last() =~= Seq::empty());
        assert(s.subrange(0, 0) =~= Seq::empty());
    }
}

/// The characters that fit stand next to each other in the text, and take no more than the width.
proof fn lemma_fitting(s: Seq<char>, i: int, left: int)
    requires
        0 <= i <= s.len(),
        0 <= left,
    ensures
        i + fitting(s, i, left).len() <= s.len(),
        s.subrange(i, i + fitting(s, i, left).len()) == fitting(s, i, left),
        total_cells(s, (i + fitting(s, i, left).len()) as nat) <= total_cells(s, i as nat) + left,
    decreases s.len() - i,
{
    let kept = fitting(s, i, left);
    if i < s.len() && cells(s[i]) <= left {
        let rest = fitting(s, i + 1, left - cells(s[i]));
        lemma_fitting(s, i + 1, left - cells(s[i]));
        assert(kept.len() == rest.len() + 1);
        assert(s.subrange(i, i + kept.len()) =~= seq![s[i]] + s.subrange(
            i + 1,
            i + 1 + rest.len(),
        ));
    } else {
        assert(s.subrange(i, i) =~= Seq::empty());
    }
}

/// How a text looks.
#[derive(Clone, Copy, Debug, PartialEq, Eq)]
pub struct Look {
    pub fg: Option<Color>,
    pub bg: Option<Color>,
    pub bold: bool,
    pub dim: bool,
}

/// The look of a text that is as the screen has it.
pub open spec fn plain() -> Look {
    Look { fg: None, bg: None, bold: false, dim: false }
}

/// The look of a text in a color.
pub open spec fn colored(color: Color) -> Look {
    Look { fg: Some(color), ..plain() }
}

/// The look of a bold text in a color.
pub open spec fn bold(color: Color) -> Look {
    Look { fg: Some(color), bold: true, ..plain() }
}

impl Look {
    /// The look of a text that is as the screen has it.
    pub fn plain() -> (r: Look)
        ensures
            r == plain(),
    {
        Look { fg: None, bg: None, bold: false, dim: false }
    }

    /// The look of a text in a color.
    pub fn colored(color: Color) -> (r: Look)
        ensures
            r == colored(color),
    {
        Look { fg: Some(color), bg: None, bold: false, dim: false }
    }

    /// The look of a bold text in a color.
    pub fn bold(color: Color) -> (r: Look)
        ensures
            r == bold(color),
    {
        Look { fg: Some(color), bg: None, bold: true, dim: false }
    }
}

/// Something that is drawn.
#[derive(Clone, Debug, PartialEq, Eq)]
pub enum Item {
    /// Everything in the rectangle is removed.
    Clear(Rect),
    /// A line along the lower edge of the rectangle.
    Rule(Rect),
    /// A border around the rectangle, in a color, with a title that may be bold.
    Frame { rect: Rect, color: Color, title: String, bold: bool },
    /// A text that starts in the upper left corner of the rectangle.
    Line { rect: Rect, text: String, look: Look },
}

/// Something that is drawn, as specifications speak of it.
#[verifier::ext_equal]
pub enum DrawnView {
    Clear(Rect),
    Rule(Rect),
    Frame { rect: Rect, color: Color, title: Seq<char>, bold: bool },
    Line { rect: Rect, text: Seq<char>, look: Look },
}

impl View for Item {
    type V = DrawnView;

    open spec fn view(&self) -> DrawnView {
        match self {
            Item::Clear(rect) => DrawnView::Clear(*rect),
            Item::Rule(rect) => DrawnView::Rule(*rect),
            Item::Frame { rect, color, title, bold } => DrawnView::Frame {
                rect: *rect,
                color: *color,
                title: title@,
                bold: *bold,
            },
            Item::Line { rect, text, look } => DrawnView::Line {
                rect: *rect,
                text: text@,
                look: *look,
            },
        }
    }
}

/// A picture of the board: what is drawn, one over the other, what the mouse meets, and where the
/// cursor stands.
#[derive(Clone, Debug, PartialEq, Eq)]
pub struct Scene {
    pub items: Vec<Item>,
    pub hit_map: HitMap,
    pub cursor: Option<(u16, u16)>,
}

/// A picture of the board as specifications speak of it.
#[verifier::ext_equal]
pub struct SceneView {
    pub items: Seq<DrawnView>,
    pub hits: Seq<HitView>,
    pub cursor: Option<(u16, u16)>,
}

impl View for Scene {
    type V = SceneView;

    open spec fn view(&self) -> SceneView {
        SceneView {
            items: self.items@.map_values(|i: Item| i@),
            hits: self.hit_map@,
            cursor: self.cursor,
        }
    }
}

/// A picture of nothing.
pub open spec fn nothing() -> SceneView {
    SceneView { items: Seq::empty(), hits: Seq::empty(), cursor: None }
}

impl SceneView {
    /// The picture with one more thing drawn.
    pub open spec fn with(self, item: DrawnView) -> SceneView {
        SceneView { items: self.items.push(item), ..self }
    }

    /// The picture with one more text.
    pub open spec fn line(self, rect: Rect, text: Seq<char>, look: Look) -> SceneView {
        self.with(DrawnView::Line { rect, text, look })
    }

    /// The picture with one more frame.
    pub open spec fn frame(self, rect: Rect, color: Color, title: Seq<char>, bold: bool) -> SceneView {
        self.with(DrawnView::Frame { rect, color, title, bold })
    }

    /// The picture with something more for the mouse.
    pub open spec fn hit(self, rect: Rect, target: TargetView) -> SceneView {
        SceneView { hits: with_region(self.hits, rect, target), ..self }
    }
}

impl Scene {
    /// A picture of nothing.
    fn new() -> (r: Scene)
        ensures
            r@ == nothing(),
    {
        let r = Scene { items: Vec::new(), hit_map: HitMap::default(), cursor: None };
        assert(r@.items =~= nothing().items);
        r
    }

    /// Draws one more thing.
    fn draw(&mut self, item: Item)
        ensures
            final(self)@ == old(self)@.with(item@),
    {
        let ghost before = self@.items;
        let ghost added = item@;
        self.items.push(item);
        assert(self@.items =~= before.push(added));
    }

    /// Draws one more text.
    fn line(&mut self, rect: Rect, text: String, look: Look)
        ensures
            final(self)@ == old(self)@.line(rect, text@, look),
    {
        self.draw(Item::Line { rect, text, look });
    }

    /// Draws one more frame.
    fn frame(&mut self, rect: Rect, color: Color, title: String, bold: bool)
        ensures
            final(self)@ == old(self)@.frame(rect, color, title@, bold),
    {
        self.draw(Item::Frame { rect, color, title, bold });
    }

    /// Adds something for the mouse.
    fn hit(&mut self, rect: Rect, target: HitTarget)
        ensures
            final(self)@ == old(self)@.hit(rect, target@),
    {
        self.hit_map.push(rect, target);
    }
}

/// The line above the board.
pub open spec fn header_text(app: AppView) -> Seq<char> {
    " "@ + app.project.config.name + "  ·  "@ + text::decimal(app.cards.len()) + " cards "@
}

/// How a column is headed.
pub open spec fn column_title(column: ColumnView, count: nat) -> Seq<char> {
    " "@ + column.name + "  "@ + text::decimal(count) + (match column.wip_limit {
        Some(limit) => " / "@ + text::decimal(limit as nat),
        None => Seq::empty(),
    }) + " "@
}

/// The line below the title of a card on the board.
pub open spec fn card_details(card: CardView) -> Seq<char> {
    let (checked, total) = model::progress(card.body);
    card.metadata.id + (if total == 0 {
        Seq::empty()
    } else {
        "  ✓ "@ + text::decimal(checked) + "/"@ + text::decimal(total)
    })
}

/// How the detail of a card is headed.
pub open spec fn detail_title(card: CardView) -> Seq<char> {
    let (checked, total) = model::progress(card.body);
    " "@ + card.metadata.id + " · "@ + card.metadata.title + (if total == 0 {
        Seq::empty()
    } else {
        " · "@ + text::decimal(checked) + "/"@ + text::decimal(total)
    }) + " "@
}

/// Writes the line above the board.
fn write_header(app: &App) -> (r: String)
    ensures
        r@ == header_text(app@),
{
    let mut out = text::chars_of(" ");
    text::push_str(&mut out, &app.project.config.name);
    text::push_str(&mut out, "  ·  ");
    assert(app@.cards.len() == app.cards@.len());
    text::push_number(&mut out, app.cards.len());
    text::push_str(&mut out, " cards ");
    text::string_of(&out)
}

/// Writes how a column is headed.
fn write_column_title(column: &ColumnConfig, count: usize) -> (r: String)
    ensures
        r@ == column_title(column@, count as nat),
{
    let mut out = text::chars_of(" ");
    text::push_str(&mut out, &column.name);
    text::push_str(&mut out, "  ");
    text::push_number(&mut out, count);
    let ghost counted = out@;
    if let Some(limit) = column.wip_limit {
        text::push_str(&mut out, " / ");
        text::push_number(&mut out, limit);
        assert(out@ =~= counted + (" / "@ + text::decimal(limit as nat)));
    } else {
        assert(out@ =~= counted + Seq::empty());
    }
    text::push_str(&mut out, " ");
    text::string_of(&out)
}

/// Writes the line below the title of a card on the board.
fn write_card_details(card: &Card) -> (r: String)
    ensures
        r@ == card_details(card@),
{
    let (checked, total) = card.checklist_progress();
    let mut out = text::chars_of(&card.metadata.id);
    let ghost named = out@;
    if total > 0 {
        text::push_str(&mut out, "  ✓ ");
        text::push_number(&mut out, checked);
        text::push_str(&mut out, "/");
        text::push_number(&mut out, total);
        assert(out@ =~= named + ("  ✓ "@ + text::decimal(checked as nat) + "/"@ + text::decimal(
            total as nat,
        )));
    } else {
        assert(out@ =~= named + Seq::empty());
    }
    text::string_of(&out)
}

/// Writes how the detail of a card is headed.
fn write_detail_title(card: &Card) -> (r: String)
    ensures
        r@ == detail_title(card@),
{
    let (checked, total) = card.checklist_progress();
    let mut out = text::chars_of(" ");
    text::push_str(&mut out, &card.metadata.id);
    text::push_str(&mut out, " · ");
    text::push_str(&mut out, &card.metadata.title);
    let ghost named = out@;
    if total > 0 {
        text::push_str(&mut out, " · ");
        text::push_number(&mut out, checked);
        text::push_str(&mut out, "/");
        text::push_number(&mut out, total);
        assert(out@ =~= named + (" · "@ + text::decimal(checked as nat) + "/"@ + text::decimal(
            total as nat,
        )));
    } else {
        assert(out@ =~= named + Seq::empty());
    }
    text::push_str(&mut out, " ");
    text::string_of(&out)
}

/// How many columns are shown in a width.
pub open spec fn visible_columns(width: u16, total: nat) -> int {
    let capacity = app::least(width + COLUMN_GAP, u16::MAX as int) / (MIN_COLUMN_WIDTH
        + COLUMN_GAP);
    app::least(if capacity < 1 {
        1
    } else {
        capacity
    }, total as int)
}

/// The first column that is shown.
pub open spec fn first_column(active: usize, visible: int, total: nat) -> int {
    app::least(less(active + 1, visible), total - visible)
}

/// The width that the columns share.
pub open spec fn shared_width(width: u16, visible: int) -> int {
    width - COLUMN_GAP * (visible - 1)
}

/// The width of the column at a place among those that are shown.
pub open spec fn column_width(width: u16, visible: int, k: int) -> int {
    shared_width(width, visible) / visible + if k < shared_width(width, visible) % visible {
        1int
    } else {
        0int
    }
}

/// The width of the first `k` columns that are shown, with the space behind each.
pub open spec fn width_before(width: u16, visible: int, k: int) -> int
    decreases k,
{
    if k <= 0 {
        0
    } else {
        width_before(width, visible, k - 1) + column_width(width, visible, k - 1) + COLUMN_GAP
    }
}

/// Where a column stands that is shown.
pub open spec fn column_rect(area: Rect, visible: int, k: int) -> Rect {
    Rect {
        x: (area.x + width_before(area.width, visible, k)) as u16,
        y: area.y,
        width: column_width(area.width, visible, k) as u16,
        height: area.height,
    }
}

/// The columns that are shown, and where.
pub open spec fn columns_shown(app: AppView, area: Rect) -> Seq<(usize, Rect)> {
    let total = app.columns().len();
    let visible = visible_columns(area.width, total);
    if total == 0 || area.width == 0 {
        Seq::empty()
    } else {
        Seq::new(
            visible as nat,
            |k: int|
                (
                    (first_column(app.active_column, visible, total) + k) as usize,
                    column_rect(area, visible, k),
                ),
        )
    }
}

/// The columns fill the width, with one space less than there are columns.
proof fn lemma_widths(width: u16, visible: int, k: int)
    requires
        0 < width,
        1 <= visible,
        23 * visible <= width + 1 || visible == 1,
        0 <= k <= visible,
    ensures
        0 <= shared_width(width, visible) <= width,
        width_before(width, visible, k) == k * (shared_width(width, visible) / visible)
            + app::least(k, shared_width(width, visible) % visible) + k,
        k < visible ==> 0 <= column_width(width, visible, k),
        k < visible ==> width_before(width, visible, k) + column_width(width, visible, k) <= width,
        k == visible - 1 ==> width_before(width, visible, k) + column_width(width, visible, k)
            == width,
    decreases k,
{
    let shared = shared_width(width, visible);
    let base = shared / visible;
    let rest = shared % visible;
    assert(shared == base * visible + rest) by (nonlinear_arith)
        requires
            visible >= 1,
            base == shared / visible,
            rest == shared % visible,
    ;
    assert(0 <= rest < visible && 0 <= base) by (nonlinear_arith)
        requires
            visible >= 1,
            shared >= 0,
            base == shared / visible,
            rest == shared % visible,
    ;
    if k > 0 {
        lemma_widths(width, visible, k - 1);
        assert(k * base == (k - 1) * base + base) by (nonlinear_arith);
    } else {
        assert(0 * base == 0) by (nonlinear_arith);
    }
    if k < visible {
        assert((k + 1) * base == k * base + base) by (nonlinear_arith);
        assert((k + 1) * base <= visible * base) by (nonlinear_arith)
            requires
                k + 1 <= visible,
                0 <= base,
        ;
        assert(visible * base == base * visible) by (nonlinear_arith);
    }
}

/// How many columns are shown, and that they are not too narrow.
proof fn lemma_visible(width: u16, total: nat)
    requires
        0 < width,
        0 < total,
    ensures
        1 <= visible_columns(width, total) <= total,
        23 * visible_columns(width, total) <= width + 1 || visible_columns(width, total) == 1,
        visible_columns(width, total) <= 2850,
{
}

/// Finds the columns that are shown, and where.
fn column_rects(app: &App, area: Rect) -> (r: Vec<(usize, Rect)>)
    requires
        area.fits(),
    ensures
        r@ == columns_shown(app@, area),
{
    let mut out: Vec<(usize, Rect)> = Vec::new();
    let total = app.project.config.columns.len();
    assert(app@.columns().len() == total);
    if total == 0 || area.width == 0 {
        assert(out@ =~= columns_shown(app@, area));
        return out;
    }
    let width = area.width;
    let widened = if width == u16::MAX {
        width
    } else {
        width + COLUMN_GAP
    };
    let capacity = widened / (MIN_COLUMN_WIDTH + COLUMN_GAP);
    let capacity: usize = if capacity < 1 {
        1
    } else {
        capacity as usize
    };
    let visible = if capacity < total {
        capacity
    } else {
        total
    };
    assert(visible == visible_columns(width, total as nat));
    proof {
        lemma_visible(width, total as nat);
        lemma_widths(width, visible as int, 0);
    }
    let shift = if app.active_column < visible {
        0
    } else {
        app.active_column - visible + 1
    };
    let offset = if shift < total - visible {
        shift
    } else {
        total - visible
    };
    assert(offset == first_column(app@.active_column, visible as int, total as nat));
    let gaps = COLUMN_GAP * (visible as u16 - 1);
    let available = width - gaps;
    assert(available == shared_width(width, visible as int));
    let base = available / visible as u16;
    let remainder = available % visible as u16;
    let mut before: u16 = 0;
    let mut k: usize = 0;
    while k < visible
        invariant
            k <= visible,
            visible <= 2850,
            0 < width == area.width,
            area.fits(),
            1 <= visible <= total,
            23 * visible <= width + 1 || visible == 1,
            app@.columns().len() == total,
            visible == visible_columns(width, total as nat),
            offset == first_column(app@.active_column, visible as int, total as nat),
            offset + visible <= total,
            available == shared_width(width, visible as int),
            base == available as int / visible as int,
            remainder == available as int % visible as int,
            k < visible ==> before == width_before(width, visible as int, k as int),
            out@ =~= columns_shown(app@, area).take(k as int),
            columns_shown(app@, area).len() == visible,
        decreases visible - k,
    {
        proof {
            lemma_widths(width, visible as int, k as int);
            if k + 1 < visible {
                lemma_widths(width, visible as int, k + 1);
            }
        }
        let extra: u16 = if (k as u16) < remainder {
            1
        } else {
            0
        };
        let taken = base + extra;
        assert(taken == column_width(width, visible as int, k as int));
        let rect = Rect { x: area.x + before, y: area.y, width: taken, height: area.height };
        out.push((offset + k, rect));
        assert(columns_shown(app@, area)[k as int] == (
            (first_column(app@.active_column, visible as int, total as nat) + k) as usize,
            column_rect(area, visible as int, k as int),
        ));
        assert(out@ =~= columns_shown(app@, area).take(k + 1));
        if k + 1 < visible {
            before = before + taken + COLUMN_GAP;
        }
        k += 1;
    }
    assert(columns_shown(app@, area).take(k as int) =~= columns_shown(app@, area));
    out
}

/// The columns that are shown stand side by side from the left edge of the board to its right edge,
/// each as high as the board, with one space between two.
pub proof fn columns_fill_the_board(app: AppView, area: Rect)
    requires
        area.fits(),
        area.width > 0,
        app.columns().len() > 0,
    ensures
        ({
            let shown = columns_shown(app, area);
            &&& shown.len() > 0
            &&& shown[0].1.x == area.x
            &&& shown.last().1.end_x() == area.end_x()
            &&& forall|k: int|
                0 <= k < shown.len() ==> (#[trigger] shown[k]).1.y == area.y && shown[k].1.height
                    == area.height
            &&& forall|k: int|
                #![trigger shown[k]]
                0 <= k < shown.len() - 1 ==> shown[k + 1].1.x == shown[k].1.end_x() + COLUMN_GAP
        }),
{
    let total = app.columns().len();
    let visible = visible_columns(area.width, total);
    let shown = columns_shown(app, area);
    lemma_visible(area.width, total);
    lemma_widths(area.width, visible, 0);
    lemma_widths(area.width, visible, visible - 1);
    assert(shown[0].1 == column_rect(area, visible, 0));
    assert(shown.last().1 == column_rect(area, visible, visible - 1));
    assert forall|k: int| #![trigger shown[k]] 0 <= k < shown.len() - 1 implies shown[k + 1].1.x
        == shown[k].1.end_x() + COLUMN_GAP by {
        lemma_widths(area.width, visible, k);
        lemma_widths(area.width, visible, k + 1);
        assert(shown[k].1 == column_rect(area, visible, k));
        assert(shown[k + 1].1 == column_rect(area, visible, k + 1));
    }
}

/// The selected column is among those that are shown.
pub proof fn the_selected_column_is_shown(app: AppView, area: Rect)
    requires
        area.fits(),
        area.width > 0,
        app.active_column < app.columns().len() <= usize::MAX,
    ensures
        exists|k: int|
            0 <= k < columns_shown(app, area).len() && (#[trigger] columns_shown(app, area)[k]).0
                == app.active_column,
{
    let total = app.columns().len();
    let visible = visible_columns(area.width, total);
    lemma_visible(area.width, total);
    let k = app.active_column - first_column(app.active_column, visible, total);
    assert(0 <= k < visible);
    assert(columns_shown(app, area)[k].0 == app.active_column);
}

/// Whether a card is the one with an optional id.
pub open spec fn is_card(card: CardView, id: Option<Seq<char>>) -> bool {
    match id {
        Some(id) => text::alike(card.metadata.id, id),
        None => false,
    }
}

/// The id of the dragged card.
pub open spec fn dragged_id(app: AppView) -> Option<Seq<char>> {
    match app.drag {
        Some(drag) => Some(drag.card_id),
        None => None,
    }
}

/// The first row of a rectangle, or the one below it.
pub open spec fn row_of(area: Rect, k: int) -> Rect {
    Rect { x: area.x, y: (area.y + k) as u16, width: area.width, height: 1 }
}

/// The color of the border of a column.
pub open spec fn column_border(app: AppView, index: usize) -> Color {
    if app.drag matches Some(drag) && drag.hover_column == index {
        Color::Magenta
    } else if app.active_column == index && app.focus == Focus::Board {
        match app.columns()[index as int].color {
            Some(color) => match color_of(color) {
                Some(color) => color,
                None => Color::Cyan,
            },
            None => Color::Cyan,
        }
    } else {
        Color::DarkGray
    }
}

/// How many cards are shown in a column of some height.
pub open spec fn visible_cards(height: u16) -> int {
    let count = (height + CARD_GAP) / CARD_PITCH as int;
    if count < 1 {
        1
    } else {
        count
    }
}

/// The first card that is shown in a column.
pub open spec fn first_card(app: AppView, index: usize, height: u16) -> int {
    let count = app.column_cards(index as int).len();
    let selected = if app.active_column == index {
        app::least(app.selected_row as int, count - 1)
    } else {
        0
    };
    less(selected + 1, visible_cards(height))
}

/// Where a card stands that is shown in a column.
pub open spec fn card_rect(inner: Rect, k: int) -> Rect {
    let y = app::least(inner.y + k * CARD_PITCH, u16::MAX as int);
    Rect {
        x: inner.x,
        y: y as u16,
        width: inner.width,
        height: app::least(CARD_HEIGHT as int, less(inner.end_y(), y)) as u16,
    }
}

impl SceneView {
    /// The picture with a card.
    pub open spec fn card(self, app: AppView, card: CardView, area: Rect) -> SceneView {
        let dragged = is_card(card, dragged_id(app));
        let border = if dragged {
            Color::Magenta
        } else if is_card(card, app.selected_id) {
            Color::Yellow
        } else {
            Color::Gray
        };
        let inner = area.framed();
        let titled = self.frame(area, border, Seq::empty(), false).line(
            row_of(inner, 0),
            truncated(card.metadata.title, inner.width as usize),
            Look { dim: dragged, ..bold(Color::White) },
        );
        if inner.height > 1 {
            titled.line(
                row_of(inner, 1),
                truncated(card_details(card), inner.width as usize),
                colored(Color::DarkGray),
            )
        } else {
            titled
        }
    }

    /// The picture with the first `n` cards that are shown in a column. A card of which too little
    /// would be seen is left out.
    pub open spec fn cards(
        self,
        app: AppView,
        cards: Seq<CardView>,
        index: usize,
        first: int,
        inner: Rect,
        n: nat,
    ) -> SceneView
        decreases n,
    {
        if n == 0 {
            self
        } else {
            let before = self.cards(app, cards, index, first, inner, (n - 1) as nat);
            let rect = card_rect(inner, n - 1);
            let card = cards[first + n - 1];
            if rect.height < 3 {
                before
            } else {
                before.hit(
                    rect,
                    TargetView::Card {
                        id: card.metadata.id,
                        column: index,
                        row: (first + n - 1) as usize,
                    },
                ).card(app, card, rect)
            }
        }
    }

    /// The picture with a column.
    pub open spec fn column(self, app: AppView, index: usize, area: Rect) -> SceneView {
        if index >= app.columns().len() {
            self
        } else {
            let cards = app.column_cards(index as int);
            let inner = area.framed();
            let first = first_card(app, index, inner.height);
            let framed = self.hit(area, TargetView::Column(index)).frame(
                area,
                column_border(app, index),
                truncated(
                    column_title(app.columns()[index as int], cards.len()),
                    inner.width as usize,
                ),
                true,
            );
            if cards.len() == 0 {
                framed.line(inner, "Drop a card here"@, colored(Color::DarkGray))
            } else {
                framed.cards(
                    app,
                    cards,
                    index,
                    first,
                    inner,
                    app::least(visible_cards(inner.height), cards.len() - first) as nat,
                )
            }
        }
    }

    /// The picture with the first `n` columns that are shown.
    pub open spec fn columns(self, app: AppView, shown: Seq<(usize, Rect)>, n: nat) -> SceneView
        decreases n,
    {
        if n == 0 || n > shown.len() {
            self
        } else {
            self.columns(app, shown, (n - 1) as nat).column(app, shown[n - 1].0, shown[n - 1].1)
        }
    }

    /// The picture with the board.
    pub open spec fn board(self, app: AppView, area: Rect) -> SceneView {
        let shown = columns_shown(app, area);
        let placed = self.hit(area, TargetView::BoardPane);
        if area.height == 0 {
            placed
        } else {
            placed.columns(app, shown, shown.len())
        }
    }
}

/// Whether a card is the one with an optional id.
fn card_is(card: &Card, id: Option<&String>) -> (r: bool)
    ensures
        r == match id {
            Some(id) => is_card(card@, Some(id@)),
            None => is_card(card@, None),
        },
{
    match id {
        Some(id) => text::alike_strings(&card.metadata.id, id),
        None => false,
    }
}

/// A row of a rectangle.
fn row(area: Rect, k: u16) -> (r: Rect)
    requires
        area.y + k <= u16::MAX,
    ensures
        r == row_of(area, k as int),
{
    Rect { x: area.x, y: area.y + k, width: area.width, height: 1 }
}

/// Draws a card.
fn render_card(scene: &mut Scene, app: &App, card: &Card, area: Rect)
    requires
        area.fits(),
    ensures
        final(scene)@ == old(scene)@.card(app@, card@, area),
{
    let selected = match &app.selected_id {
        Some(id) => card_is(card, Some(id)),
        None => false,
    };
    let dragged = match &app.drag {
        Some(drag) => card_is(card, Some(&drag.card_id)),
        None => false,
    };
    let border = if dragged {
        Color::Magenta
    } else if selected {
        Color::Yellow
    } else {
        Color::Gray
    };
    let inner = area.inner();
    let empty = String::new();
    assert(empty@ =~= Seq::empty());
    scene.frame(area, border, empty, false);
    let look = Look { fg: Some(Color::White), bg: None, bold: true, dim: dragged };
    scene.line(row(inner, 0), truncate(&card.metadata.title, inner.width as usize), look);
    if inner.height > 1 {
        let details = write_card_details(card);
        scene.line(
            row(inner, 1),
            truncate(&details, inner.width as usize),
            Look::colored(Color::DarkGray),
        );
    }
}

/// Finds the color of the border of a column.
fn border_of(app: &App, index: usize) -> (r: Color)
    requires
        index < app@.columns().len(),
    ensures
        r == column_border(app@, index),
{
    if let Some(drag) = &app.drag {
        if drag.hover_column == index {
            return Color::Magenta;
        }
    }
    let focused = match app.focus {
        Focus::Board => true,
        Focus::Detail => false,
    };
    if app.active_column == index && focused {
        assert(app@.columns()[index as int] == app.project.config.columns@[index as int]@);
        match &app.project.config.columns[index].color {
            Some(color) => match parse_color(color) {
                Some(color) => color,
                None => Color::Cyan,
            },
            None => Color::Cyan,
        }
    } else {
        Color::DarkGray
    }
}

/// Draws the cards of a column that are shown.
fn render_cards(
    scene: &mut Scene,
    app: &App,
    cards: &Vec<&Card>,
    index: usize,
    first: usize,
    inner: Rect,
    count: usize,
)
    requires
        inner.fits(),
        first + count <= cards.len(),
        count * CARD_PITCH <= u16::MAX,
    ensures
        final(scene)@ == old(scene)@.cards(
            app@,
            app::referred(cards@),
            index,
            first as int,
            inner,
            count as nat,
        ),
{
    let ghost start = scene@;
    let ghost views = app::referred(cards@);
    let mut k: usize = 0;
    while k < count
        invariant
            k <= count,
            inner.fits(),
            first + count <= cards.len(),
            count * CARD_PITCH <= u16::MAX,
            views == app::referred(cards@),
            views.len() == cards@.len(),
            scene@ == start.cards(app@, views, index, first as int, inner, k as nat),
        decreases count - k,
    {
        let step = k as u16 * CARD_PITCH;
        let y = if step > u16::MAX - inner.y {
            u16::MAX
        } else {
            inner.y + step
        };
        let left = take_away(inner.bottom(), y);
        let height = if left < CARD_HEIGHT {
            left
        } else {
            CARD_HEIGHT
        };
        let rect = Rect { x: inner.x, y, width: inner.width, height };
        assert(rect == card_rect(inner, k as int));
        let card = cards[first + k];
        assert(views[first + k] == card@);
        if height >= 3 {
            let target = HitTarget::Card {
                id: text::copy_string(&card.metadata.id),
                column: index,
                row: first + k,
            };
            scene.hit(rect, target);
            render_card(scene, app, card, rect);
        }
        k += 1;
    }
}

/// Draws a column.
fn render_column(scene: &mut Scene, app: &App, index: usize, area: Rect)
    requires
        area.fits(),
    ensures
        final(scene)@ == old(scene)@.column(app@, index, area),
{
    assert(app@.columns().len() == app.project.config.columns@.len());
    if index >= app.project.config.columns.len() {
        return;
    }
    let column = &app.project.config.columns[index];
    assert(app@.columns()[index as int] == column@);
    scene.hit(area, HitTarget::Column(index));
    let cards = app.cards_in_column(index);
    assert(app::referred(cards@).len() == cards@.len());
    let inner = area.inner();
    let title = write_column_title(column, cards.len());
    scene.frame(area, border_of(app, index), truncate(&title, inner.width as usize), true);
    if cards.len() == 0 {
        scene.line(inner, text::copy_string("Drop a card here"), Look::colored(Color::DarkGray));
        return;
    }
    let fitting = (inner.height + CARD_GAP) / CARD_PITCH;
    let visible: usize = if fitting < 1 {
        1
    } else {
        fitting as usize
    };
    let selected = if app.active_column == index {
        if app.selected_row < cards.len() - 1 {
            app.selected_row
        } else {
            cards.len() - 1
        }
    } else {
        0
    };
    let first = if selected < visible {
        0
    } else {
        selected + 1 - visible
    };
    assert(first == first_card(app@, index, inner.height));
    let left = cards.len() - first;
    let count = if visible < left {
        visible
    } else {
        left
    };
    render_cards(scene, app, &cards, index, first, inner, count);
}

/// Draws the board.
fn render_board(scene: &mut Scene, app: &App, area: Rect)
    requires
        area.fits(),
    ensures
        final(scene)@ == old(scene)@.board(app@, area),
{
    scene.hit(area, HitTarget::BoardPane);
    if area.height == 0 {
        return;
    }
    let shown = column_rects(app, area);
    proof {
        lemma_columns_fit(app@, area);
    }
    render_columns(scene, app, &shown);
}

/// Draws columns.
fn render_columns(scene: &mut Scene, app: &App, shown: &Vec<(usize, Rect)>)
    requires
        forall|i: int| 0 <= i < shown@.len() ==> (#[trigger] shown@[i]).1.fits(),
    ensures
        final(scene)@ == old(scene)@.columns(app@, shown@, shown@.len()),
{
    let ghost start = scene@;
    let mut k: usize = 0;
    while k < shown.len()
        invariant
            k <= shown@.len(),
            forall|i: int| 0 <= i < shown@.len() ==> (#[trigger] shown@[i]).1.fits(),
            scene@ == start.columns(app@, shown@, k as nat),
        decreases shown@.len() - k,
    {
        let (index, rect) = shown[k];
        assert(shown@[k as int].1.fits());
        render_column(scene, app, index, rect);
        k += 1;
    }
}

/// The columns that are shown stand on the screen.
proof fn lemma_columns_fit(app: AppView, area: Rect)
    requires
        area.fits(),
    ensures
        forall|i: int|
            0 <= i < columns_shown(app, area).len() ==> (#[trigger] columns_shown(
                app,
                area,
            )[i]).1.fits(),
{
    let total = app.columns().len();
    if total > 0 && area.width > 0 {
        let visible = visible_columns(area.width, total);
        lemma_visible(area.width, total);
        assert forall|i: int| 0 <= i < columns_shown(app, area).len() implies (
        #[trigger] columns_shown(app, area)[i]).1.fits() by {
            lemma_widths(area.width, visible, i);
            assert(columns_shown(app, area)[i].1 == column_rect(area, visible, i));
            assert(width_before(area.width, visible, i) >= 0) by {
                lemma_before(area.width, visible, i);
            }
        }
    }
}

/// The width of some columns is not negative.
proof fn lemma_before(width: u16, visible: int, k: int)
    requires
        0 < width,
        1 <= visible,
        23 * visible <= width + 1 || visible == 1,
        0 <= k <= visible,
    ensures
        0 <= width_before(width, visible, k),
    decreases k,
{
    if k > 0 {
        lemma_before(width, visible, k - 1);
        lemma_widths(width, visible, k - 1);
    }
}

/// A line of the detail.
#[derive(Clone, Debug, PartialEq, Eq)]
pub struct DetailLine {
    pub text: String,
    pub look: Look,
    /// The number of the checklist item that stands there.
    pub checklist: Option<usize>,
}

/// A line of the detail as specifications speak of it.
#[verifier::ext_equal]
pub struct DetailView {
    pub text: Seq<char>,
    pub look: Look,
    pub checklist: Option<usize>,
}

impl View for DetailLine {
    type V = DetailView;

    open spec fn view(&self) -> DetailView {
        DetailView { text: self.text@, look: self.look, checklist: self.checklist }
    }
}

/// The lines in a list.
pub open spec fn detail_views(lines: Seq<DetailLine>) -> Seq<DetailView> {
    lines.map_values(|l: DetailLine| l@)
}

/// A line of the detail without a checklist item.
pub open spec fn told(text: Seq<char>, look: Look) -> DetailView {
    DetailView { text, look, checklist: None }
}

/// The number of the last of the first `n` items that stands on a line.
pub open spec fn item_on(items: Seq<ItemView>, line: nat, n: nat) -> Option<usize>
    decreases n,
{
    if n == 0 || n > items.len() {
        None
    } else if items[n - 1].line_number == line {
        Some(items[n - 1].global_index as usize)
    } else {
        item_on(items, line, (n - 1) as nat)
    }
}

/// A line of the body of a card in the detail.
pub open spec fn body_line(items: Seq<ItemView>, lines: Seq<Seq<char>>, i: int) -> DetailView {
    let checklist = item_on(items, (i + 1) as nat, items.len());
    let start = text::trim_start(lines[i], CharClass::Space);
    DetailView {
        text: lines[i],
        look: if checklist is Some {
            colored(Color::White)
        } else if start.len() > 0 && start[0] == '#' {
            bold(Color::Magenta)
        } else {
            colored(Color::Gray)
        },
        checklist,
    }
}

/// The lines of the metadata of a card in the detail.
pub open spec fn metadata_lines(yaml: Seq<char>) -> Seq<DetailView> {
    text::lines(text::trim_end(yaml, CharClass::Space)).map_values(
        |l: Seq<char>| told(l, colored(Color::Gray)),
    )
}

/// The lines of the body of a card in the detail.
pub open spec fn body_lines(body: Seq<char>) -> Seq<DetailView> {
    let items = markdown::items_in(body);
    let lines = text::lines(body);
    if body.len() == 0 {
        seq![told("(empty body)"@, colored(Color::DarkGray))]
    } else {
        Seq::new(lines.len(), |i: int| body_line(items, lines, i))
    }
}

/// The lines of the detail of a card, given its metadata in YAML.
pub open spec fn details(card: CardView, yaml: Seq<char>) -> Seq<DetailView> {
    seq![told("FRONTMATTER"@, bold(Color::Cyan))] + metadata_lines(yaml) + seq![
        told(Seq::empty(), plain()),
        told("MARKDOWN"@, bold(Color::Cyan)),
    ] + body_lines(card.body)
}

/// Appends a line without a checklist item.
fn push_told(out: &mut Vec<DetailLine>, text: String, look: Look)
    ensures
        detail_views(final(out)@) == detail_views(old(out)@).push(told(text@, look)),
{
    let ghost before = detail_views(out@);
    let line = DetailLine { text, look, checklist: None };
    let ghost added = line@;
    out.push(line);
    assert(detail_views(out@) =~= before.push(added));
}

/// Appends the lines of the metadata of a card.
fn push_metadata(out: &mut Vec<DetailLine>, yaml: &str)
    ensures
        detail_views(final(out)@) == detail_views(old(out)@) + metadata_lines(yaml@),
{
    let chars = text::chars_of(yaml);
    let lines = text::lines_of(text::without_trail(&chars, CharClass::Space));
    let ghost start = detail_views(out@);
    let ghost texts = text::texts(lines@);
    let ghost all = metadata_lines(yaml@);
    assert(texts == text::lines(text::trim_end(yaml@, CharClass::Space)));
    let mut i: usize = 0;
    assert(detail_views(out@) =~= start + all.take(0));
    while i < lines.len()
        invariant
            i <= lines@.len(),
            texts == text::texts(lines@),
            texts.len() == lines@.len(),
            all == texts.map_values(|l: Seq<char>| told(l, colored(Color::Gray))),
            all.len() == texts.len(),
            detail_views(out@) == start + all.take(i as int),
        decreases lines@.len() - i,
    {
        assert(texts[i as int] == lines@[i as int]@);
        assert(all[i as int] == told(texts[i as int], colored(Color::Gray)));
        push_told(out, text::string_of(&lines[i]), Look::colored(Color::Gray));
        assert(detail_views(out@) =~= start + all.take(i + 1));
        i += 1;
    }
    assert(all.take(i as int) =~= all);
}

/// Finds the number of the last item that stands on a line.
fn find_item_on(items: &Vec<markdown::ChecklistItem>, line: usize) -> (r: Option<usize>)
    ensures
        r == item_on(
            markdown::item_views(items@),
            line as nat,
            markdown::item_views(items@).len(),
        ),
{
    let ghost views = markdown::item_views(items@);
    let mut n = items.len();
    while n > 0
        invariant
            n <= items@.len(),
            views == markdown::item_views(items@),
            views.len() == items@.len(),
            item_on(views, line as nat, n as nat) == item_on(views, line as nat, views.len()),
        decreases n,
    {
        let item = &items[n - 1];
        assert(views[n - 1] == item@);
        if item.line_number == line {
            return Some(item.global_index);
        }
        n -= 1;
    }
    None
}

/// Makes a line of the body of a card.
fn make_body_line(items: &Vec<markdown::ChecklistItem>, lines: &Vec<Vec<char>>, i: usize) -> (r:
    DetailLine)
    requires
        i < lines@.len(),
    ensures
        r@ == body_line(markdown::item_views(items@), text::texts(lines@), i as int),
{
    assert(i < lines.len());
    let checklist = find_item_on(items, i + 1);
    let line = &lines[i];
    assert(text::texts(lines@)[i as int] == line@);
    let start = text::without_lead(line, CharClass::Space);
    let heading = start.len() > 0 && start[0] == '#';
    let look = if checklist.is_some() {
        Look::colored(Color::White)
    } else if heading {
        Look::bold(Color::Magenta)
    } else {
        Look::colored(Color::Gray)
    };
    DetailLine { text: text::string_of(line), look, checklist }
}

/// Appends the lines of the body of a card.
fn push_body(out: &mut Vec<DetailLine>, body: &str)
    ensures
        detail_views(final(out)@) == detail_views(old(out)@) + body_lines(body@),
{
    let chars = text::chars_of(body);
    if chars.len() == 0 {
        push_told(out, text::copy_string("(empty body)"), Look::colored(Color::DarkGray));
        return;
    }
    let items = markdown::checklist_items(body);
    let lines = text::lines_of(&chars);
    let ghost start = detail_views(out@);
    let ghost views = markdown::item_views(items@);
    let ghost texts = text::texts(lines@);
    let ghost all = body_lines(body@);
    assert(texts.len() == lines@.len());
    let mut i: usize = 0;
    assert(detail_views(out@) =~= start + all.take(0));
    while i < lines.len()
        invariant
            i <= lines@.len(),
            views == markdown::item_views(items@),
            texts == text::texts(lines@),
            texts.len() == lines@.len(),
            all.len() == texts.len(),
            forall|k: int| 0 <= k < all.len() ==> #[trigger] all[k] == body_line(views, texts, k),
            detail_views(out@) == start + all.take(i as int),
        decreases lines@.len() - i,
    {
        let line = make_body_line(&items, &lines, i);
        let ghost before = detail_views(out@);
        let ghost added = line@;
        out.push(line);
        assert(detail_views(out@) =~= before.push(added));
        assert(all[i as int] == added);
        assert(detail_views(out@) =~= start + all.take(i + 1));
        i += 1;
    }
    assert(all.take(i as int) =~= all);
}

/// Makes the lines of the detail of a card, given its metadata in YAML.
pub fn detail_lines(card: &Card, yaml: &str) -> (r: Vec<DetailLine>)
    ensures
        detail_views(r@) == details(card@, yaml@),
{
    let mut out: Vec<DetailLine> = Vec::new();
    assert(detail_views(out@) =~= Seq::empty());
    push_told(&mut out, text::copy_string("FRONTMATTER"), Look::bold(Color::Cyan));
    let ghost head = seq![told("FRONTMATTER"@, bold(Color::Cyan))];
    assert(detail_views(out@) =~= head);
    push_metadata(&mut out, yaml);
    let ghost above = detail_views(out@);
    let empty = String::new();
    assert(empty@ =~= Seq::empty());
    push_told(&mut out, empty, Look::plain());
    push_told(&mut out, text::copy_string("MARKDOWN"), Look::bold(Color::Cyan));
    assert(detail_views(out@) =~= above + seq![
        told(Seq::empty(), plain()),
        told("MARKDOWN"@, bold(Color::Cyan)),
    ]);
    push_body(&mut out, &card.body);
    out
}

/// The first line from `i` on with a checklist item.
pub open spec fn line_with(lines: Seq<DetailView>, item: usize, i: int) -> Option<int>
    decreases lines.len() - i,
{
    if i < 0 || i >= lines.len() {
        None
    } else if lines[i].checklist == Some(item) {
        Some(i)
    } else {
        line_with(lines, item, i + 1)
    }
}

/// The first line that is shown of the detail: where it was scrolled to, or so that the selected
/// checklist item is seen.
pub open spec fn first_line(app: AppView, lines: Seq<DetailView>, visible: int) -> int {
    let scrolled = app::least(app.detail_scroll as int, less(lines.len() as int, visible));
    match app.selected_item() {
        Some(item) => if app.detail_follow_cursor {
            match line_with(lines, item as usize, 0) {
                Some(line) => if line < scrolled {
                    line
                } else if line >= scrolled + visible {
                    line + 1 - visible
                } else {
                    scrolled
                },
                None => scrolled,
            }
        } else {
            scrolled
        },
        None => scrolled,
    }
}

/// The look of a line of the detail.
pub open spec fn line_look(app: AppView, line: DetailView) -> Look {
    match (line.checklist, app.selected_item()) {
        (Some(item), Some(selected)) => if item == selected as usize {
            Look { fg: Some(Color::Black), bg: Some(Color::Yellow), bold: true, ..line.look }
        } else {
            line.look
        },
        _ => line.look,
    }
}

/// The color of the border of the detail.
pub open spec fn detail_border(app: AppView) -> Color {
    if app.focus == Focus::Detail {
        Color::Cyan
    } else {
        Color::DarkGray
    }
}

impl SceneView {
    /// The picture with the first `n` lines of the detail that are shown.
    pub open spec fn detail_lines(
        self,
        app: AppView,
        id: Seq<char>,
        lines: Seq<DetailView>,
        first: int,
        inner: Rect,
        n: nat,
    ) -> SceneView
        decreases n,
    {
        if n == 0 {
            self
        } else {
            let before = self.detail_lines(app, id, lines, first, inner, (n - 1) as nat);
            let line = lines[first + n - 1];
            let rect = row_of(inner, n - 1);
            let drawn = before.line(
                rect,
                truncated(line.text, inner.width as usize),
                line_look(app, line),
            );
            match line.checklist {
                Some(item) => drawn.hit(
                    rect,
                    TargetView::Checklist { card_id: id, global_index: item },
                ),
                None => drawn,
            }
        }
    }

    /// The picture with the detail, given the metadata of the selected card in YAML.
    pub open spec fn detail(self, app: AppView, yaml: Seq<char>, area: Rect) -> SceneView {
        let inner = area.framed();
        let placed = self.hit(area, TargetView::DetailPane);
        match app.selected() {
            None => placed.frame(area, detail_border(app), " Card detail "@, false).line(
                inner,
                "Select a card to inspect its frontmatter and Markdown."@,
                plain(),
            ),
            Some(card) => {
                let lines = details(card, yaml);
                let first = first_line(app, lines, inner.height as int);
                let framed = placed.frame(
                    area,
                    detail_border(app),
                    truncated(detail_title(card), inner.width as usize),
                    false,
                );
                if inner.is_void() {
                    framed
                } else {
                    framed.detail_lines(
                        app,
                        card.metadata.id,
                        lines,
                        first,
                        inner,
                        app::least(inner.height as int, lines.len() - first) as nat,
                    )
                }
            },
        }
    }
}

/// Finds the first line with a checklist item.
fn find_line_with(lines: &Vec<DetailLine>, item: usize) -> (r: Option<usize>)
    ensures
        match r {
            Some(i) => i < lines@.len() && line_with(detail_views(lines@), item, 0) == Some(
                i as int,
            ),
            None => line_with(detail_views(lines@), item, 0) is None,
        },
{
    let ghost views = detail_views(lines@);
    let mut i: usize = 0;
    while i < lines.len()
        invariant
            i <= lines@.len(),
            views == detail_views(lines@),
            views.len() == lines@.len(),
            line_with(views, item, i as int) == line_with(views, item, 0),
        decreases lines@.len() - i,
    {
        assert(views[i as int] == lines@[i as int]@);
        if let Some(found) = lines[i].checklist {
            if found == item {
                return Some(i);
            }
        }
        i += 1;
    }
    None
}

/// Finds the first line that is shown of the detail.
fn find_first_line(app: &App, lines: &Vec<DetailLine>, visible: usize) -> (r: usize)
    requires
        visible >= 1,
        visible <= u16::MAX,
    ensures
        r == first_line(app@, detail_views(lines@), visible as int),
        r <= lines@.len(),
{
    assert(detail_views(lines@).len() == lines@.len());
    let last: usize = if lines.len() < visible {
        0
    } else {
        lines.len() - visible
    };
    let scrolled = if app.detail_scroll < last {
        app.detail_scroll
    } else {
        last
    };
    if app.detail_follow_cursor {
        if let Some(item) = app.selected_checklist_global() {
            if let Some(line) = find_line_with(lines, item) {
                if line < scrolled {
                    return line;
                }
                if line - scrolled >= visible {
                    return line + 1 - visible;
                }
            }
        }
    }
    scrolled
}

/// Draws the lines of the detail that are shown.
fn render_lines(
    scene: &mut Scene,
    app: &App,
    id: &str,
    lines: &Vec<DetailLine>,
    first: usize,
    inner: Rect,
    count: usize,
)
    requires
        inner.fits(),
        first + count <= lines.len(),
        count <= inner.height,
    ensures
        final(scene)@ == old(scene)@.detail_lines(
            app@,
            id@,
            detail_views(lines@),
            first as int,
            inner,
            count as nat,
        ),
{
    let ghost start = scene@;
    let ghost views = detail_views(lines@);
    let selected = app.selected_checklist_global();
    let mut k: usize = 0;
    while k < count
        invariant
            k <= count,
            inner.fits(),
            first + count <= lines.len(),
            count <= inner.height,
            views == detail_views(lines@),
            views.len() == lines@.len(),
            match selected {
                Some(n) => app@.selected_item() == Some(n as nat),
                None => app@.selected_item() is None,
            },
            scene@ == start.detail_lines(app@, id@, views, first as int, inner, k as nat),
        decreases count - k,
    {
        let line = &lines[first + k];
        assert(views[first + k] == line@);
        let rect = row(inner, k as u16);
        let chosen = match line.checklist {
            Some(item) => match selected {
                Some(selected) => item == selected,
                None => false,
            },
            None => false,
        };
        let look = if chosen {
            Look {
                fg: Some(Color::Black),
                bg: Some(Color::Yellow),
                bold: true,
                dim: line.look.dim,
            }
        } else {
            line.look
        };
        assert(look == line_look(app@, line@));
        scene.line(rect, truncate(&line.text, inner.width as usize), look);
        if let Some(item) = line.checklist {
            let target = HitTarget::Checklist {
                card_id: text::copy_string(id),
                global_index: item,
            };
            scene.hit(rect, target);
        }
        k += 1;
    }
}

/// Draws the detail, given the metadata of the selected card in YAML.
fn render_detail(scene: &mut Scene, app: &App, yaml: &str, area: Rect)
    requires
        area.fits(),
    ensures
        final(scene)@ == old(scene)@.detail(app@, yaml@, area),
{
    scene.hit(area, HitTarget::DetailPane);
    let border = match app.focus {
        Focus::Detail => Color::Cyan,
        Focus::Board => Color::DarkGray,
    };
    let inner = area.inner();
    let card = match app.selected_card() {
        Some(card) => card,
        None => {
            scene.frame(area, border, text::copy_string(" Card detail "), false);
            scene.line(
                inner,
                text::copy_string("Select a card to inspect its frontmatter and Markdown."),
                Look::plain(),
            );
            return;
        },
    };
    let title = write_detail_title(card);
    scene.frame(area, border, truncate(&title, inner.width as usize), false);
    if inner.height == 0 || inner.width == 0 {
        return;
    }
    let lines = detail_lines(card, yaml);
    assert(detail_views(lines@).len() == lines@.len());
    let visible = inner.height as usize;
    let first = find_first_line(app, &lines, visible);
    let left = lines.len() - first;
    let count = if visible < left {
        visible
    } else {
        left
    };
    render_lines(scene, app, &card.metadata.id, &lines, first, inner, count);
}

/// What the status line says, and how it looks.
pub open spec fn status_line(app: AppView) -> (Seq<char>, Look) {
    if let Some(error) = app.error {
        (" Error: "@ + error, Look { bg: Some(Color::Red), ..bold(Color::White) })
    } else if let Some(message) = app.message {
        (" "@ + message, colored(Color::Green))
    } else if let Some(drag) = app.drag {
        (" Drag "@ + drag.card_id + " onto a column and release"@, colored(Color::Magenta))
    } else {
        (Seq::empty(), plain())
    }
}

/// What the line at the bottom says.
pub open spec fn footer_line(focus: Focus) -> Seq<char> {
    match focus {
        Focus::Board =>
            " ←/→ or h/l columns · ↑/↓ or j/k cards · [/] move · n add · r reload · Tab detail · ? help · q quit"@,
        Focus::Detail =>
            " ↑/↓ or j/k checklist · Space toggle · wheel scroll · r reload · Tab board · ? help · q quit"@,
    }
}

/// A rectangle of a preferred size in the middle of an area, with some space around it.
pub open spec fn centered(area: Rect, width: u16, height: u16) -> Rect {
    if area.is_void() {
        area
    } else {
        let width = at_least_one(app::least(width as int, less(area.width as int, 2)));
        let height = at_least_one(app::least(height as int, less(area.height as int, 2)));
        Rect {
            x: (area.x + (area.width - width) / 2) as u16,
            y: (area.y + (area.height - height) / 2) as u16,
            width: width as u16,
            height: height as u16,
        }
    }
}

/// A number, or one where that is less.
pub open spec fn at_least_one(n: int) -> int {
    if n < 1 {
        1
    } else {
        n
    }
}

/// What the help says on a line.
pub open spec fn help_line(i: int) -> Seq<char> {
    if i == 0 {
        "Keyboard"@
    } else if i == 1 {
        "  ←/→, h/l        select column"@
    } else if i == 2 {
        "  ↑/↓, k/j        select card or checklist"@
    } else if i == 3 {
        "  [ / ]           move card one column"@
    } else if i == 4 {
        "  Tab             switch board/detail focus"@
    } else if i == 5 {
        "  Space           toggle selected checklist item"@
    } else if i == 6 {
        "  n               quick-add a card"@
    } else if i == 7 {
        "  r               reload files now"@
    } else if i == 8 {
        "  ?               close this help"@
    } else if i == 9 {
        "  q               quit"@
    } else if i == 11 {
        "Mouse"@
    } else if i == 12 {
        "  click card/checklist to select or toggle"@
    } else if i == 13 {
        "  wheel to navigate cards or scroll detail"@
    } else if i == 14 {
        "  drag a card and release over another column to move"@
    } else if i == 16 {
        "Files reload after a short debounce; invalid edits keep the last good board."@
    } else {
        Seq::empty()
    }
}

/// How many lines the help has.
pub const HELP_LINES: u16 = 17;

/// Where the parts of the screen are. The rows of a prompt are within its frame.
#[derive(Clone, Copy, Debug, PartialEq, Eq)]
pub struct Places {
    pub area: Rect,
    pub header: Rect,
    pub main: Rect,
    pub status: Rect,
    pub footer: Rect,
    /// The board and the detail, where there is room for both.
    pub panes: Option<(Rect, Rect)>,
    pub input: Rect,
    pub hint: Rect,
}

/// The least width in which the board and the detail stand side by side.
pub const WIDE: u16 = 86;

/// The width of the detail beside the board.
pub open spec fn detail_width(width: u16) -> int {
    let third = width as int / 3;
    if third < 30 {
        30
    } else if third > 52 {
        52
    } else {
        third
    }
}

/// Where a prompt stands.
pub open spec fn prompt_rect(area: Rect) -> Rect {
    centered(area, 64, 5)
}

impl Places {
    /// Whether the parts are on the screen, and the board and the detail stand side by side just
    /// where there is room.
    pub open spec fn is_sound(self) -> bool {
        &&& self.area.fits()
        &&& self.header.fits() && self.header.x == self.area.x && self.header.width
            == self.area.width
        &&& self.main.fits() && self.main.x == self.area.x && self.main.width == self.area.width
        &&& self.status.fits() && self.status.x == self.area.x && self.status.width
            == self.area.width
        &&& self.footer.fits() && self.footer.x == self.area.x && self.footer.width
            == self.area.width
        &&& self.input.fits() && self.input.x == prompt_rect(self.area).framed().x
            && self.input.width == prompt_rect(self.area).framed().width
        &&& self.hint.fits() && self.hint.x == self.input.x && self.hint.width == self.input.width
        &&& (match self.panes {
            Some((board, detail)) => self.main.width >= WIDE && board.fits() && board.y
                == self.main.y && board.height == self.main.height && detail.fits() && detail.y
                == self.main.y && detail.height == self.main.height,
            None => self.main.width < WIDE,
        })
    }

    /// Whether the parts of a screen that is high enough have the sizes that they are meant to
    /// have: two rows for the header, one each for the status line and the footer at the bottom, and
    /// the rest for the board and the detail; the first rows within the frame of a prompt for what is
    /// written and for the hint. Beside the detail and a space, the board takes the rest of the
    /// width.
    pub open spec fn is_divided(self) -> bool {
        let inner = prompt_rect(self.area).framed();
        &&& self.area.height >= 7 ==> {
            &&& self.header.y == self.area.y && self.header.height == 2
            &&& self.main.y == self.area.y + 2 && self.main.height == self.area.height - 4
            &&& self.status.y == self.area.y + self.area.height - 2 && self.status.height == 1
            &&& self.footer.y == self.area.y + self.area.height - 1 && self.footer.height == 1
        }
        &&& inner.height >= 2 ==> {
            &&& self.input.y == inner.y && self.input.height == 1
            &&& self.hint.y == inner.y + 1 && self.hint.height == 1
        }
        &&& self.panes matches Some((board, detail)) ==> {
            &&& detail.width == detail_width(self.main.width)
            &&& board.width == self.main.width - 1 - detail.width
            &&& board.x == self.main.x
            &&& detail.x == self.main.x + board.width + 1
        }
    }
}

/// What the prompt for a new card is headed.
pub open spec fn prompt_title(app: AppView) -> Seq<char> {
    " New card in "@ + (if app.active_column < app.columns().len() {
        app.columns()[app.active_column as int].name
    } else {
        "?"@
    }) + " "@
}

/// What the composer for a comment is headed.
pub open spec fn composer_title(card_id: Seq<char>, author: Seq<char>) -> Seq<char> {
    " Comment on "@ + card_id + " as "@ + author + " "@
}

impl SceneView {
    /// The picture with the line above the board.
    pub open spec fn header(self, app: AppView, area: Rect) -> SceneView {
        self.with(DrawnView::Rule(area)).line(
            Rect { height: less(area.height as int, 1) as u16, ..area },
            truncated(header_text(app), area.width as usize),
            bold(Color::Cyan),
        )
    }

    /// The picture with the board and the detail.
    pub open spec fn middle(self, app: AppView, yaml: Seq<char>, places: Places) -> SceneView {
        match places.panes {
            Some((board, detail)) => self.board(app, board).detail(app, yaml, detail),
            None => match app.focus {
                Focus::Board => self.board(app, places.main),
                Focus::Detail => self.detail(app, yaml, places.main),
            },
        }
    }

    /// The picture with the status line.
    pub open spec fn status(self, app: AppView, area: Rect) -> SceneView {
        self.line(area, truncated(status_line(app).0, area.width as usize), status_line(app).1)
    }

    /// The picture with the line at the bottom.
    pub open spec fn footer(self, app: AppView, area: Rect) -> SceneView {
        self.line(
            area,
            truncated(footer_line(app.focus), area.width as usize),
            colored(Color::DarkGray),
        )
    }

    /// The picture with a prompt for a line of text.
    pub open spec fn prompt(
        self,
        places: Places,
        title: Seq<char>,
        written: Seq<char>,
        hint: Seq<char>,
    ) -> SceneView {
        let box_rect = prompt_rect(places.area);
        let input = places.input;
        let shown = truncated(written, less(input.width as int, 1) as usize);
        let drawn = self.with(DrawnView::Clear(box_rect)).frame(
            box_rect,
            Color::Yellow,
            title,
            false,
        ).line(input, shown, plain()).line(places.hint, hint, colored(Color::DarkGray));
        SceneView {
            cursor: Some(
                (
                    app::least(
                        app::least(
                            input.x + (outside::text_width(shown) as u16),
                            u16::MAX as int,
                        ),
                        less(input.end_x(), 1),
                    ) as u16,
                    input.y,
                ),
            ),
            ..drawn
        }
    }

    /// The picture with the first `n` lines of the help.
    pub open spec fn help_lines(self, inner: Rect, n: nat) -> SceneView
        decreases n,
    {
        if n == 0 {
            self
        } else {
            self.help_lines(inner, (n - 1) as nat).line(
                row_of(inner, n - 1),
                help_line(n - 1),
                plain(),
            )
        }
    }

    /// The picture with the help.
    pub open spec fn help(self, area: Rect) -> SceneView {
        let rect = centered(area, 68, 20);
        let inner = rect.framed();
        self.with(DrawnView::Clear(rect)).frame(rect, Color::Cyan, " Help "@, false).help_lines(
            inner,
            app::least(HELP_LINES as int, inner.height as int) as nat,
        )
    }

    /// The picture with what the screen is busy with.
    pub open spec fn modal(self, app: AppView, places: Places) -> SceneView {
        match app.mode {
            ModeView::Normal => self,
            ModeView::QuickAdd { title } => self.prompt(
                places,
                prompt_title(app),
                title,
                "Enter create · Esc cancel · Ctrl-U clear"@,
            ),
            ModeView::AddComment { card_id, author, text } => self.prompt(
                places,
                composer_title(card_id, author),
                text,
                "Enter comment · Esc cancel · Ctrl-U clear"@,
            ),
            ModeView::Help => self.help(places.area),
        }
    }
}

/// A picture of the board, given the metadata of the selected card in YAML and where the parts of
/// the screen are.
pub open spec fn composed(app: AppView, yaml: Seq<char>, places: Places) -> SceneView {
    nothing().header(app, places.header).middle(app, yaml, places).status(
        app,
        places.status,
    ).footer(app, places.footer).modal(app, places)
}

/// Draws the line above the board.
fn render_header(scene: &mut Scene, app: &App, area: Rect)
    ensures
        final(scene)@ == old(scene)@.header(app@, area),
{
    scene.draw(Item::Rule(area));
    let rect = Rect {
        x: area.x,
        y: area.y,
        width: area.width,
        height: take_away(area.height, 1),
    };
    let line = write_header(app);
    scene.line(rect, truncate(&line, area.width as usize), Look::bold(Color::Cyan));
}

/// Draws the board and the detail.
fn render_main(scene: &mut Scene, app: &App, yaml: &str, places: &Places)
    requires
        places.is_sound(),
    ensures
        final(scene)@ == old(scene)@.middle(app@, yaml@, *places),
{
    match places.panes {
        Some((board, detail)) => {
            render_board(scene, app, board);
            render_detail(scene, app, yaml, detail);
        },
        None => match app.focus {
            Focus::Board => {
                render_board(scene, app, places.main);
            },
            Focus::Detail => {
                render_detail(scene, app, yaml, places.main);
            },
        },
    }
}

/// Draws the status line.
fn render_status(scene: &mut Scene, app: &App, area: Rect)
    ensures
        final(scene)@ == old(scene)@.status(app@, area),
{
    let mut out: Vec<char> = Vec::new();
    let mut look = Look::plain();
    if let Some(error) = &app.error {
        text::push_str(&mut out, " Error: ");
        text::push_str(&mut out, error);
        look = Look { fg: Some(Color::White), bg: Some(Color::Red), bold: true, dim: false };
        assert(out@ =~= " Error: "@ + error@);
    } else if let Some(message) = &app.message {
        text::push_str(&mut out, " ");
        text::push_str(&mut out, message);
        look = Look::colored(Color::Green);
        assert(out@ =~= " "@ + message@);
    } else if let Some(drag) = &app.drag {
        text::push_str(&mut out, " Drag ");
        text::push_str(&mut out, &drag.card_id);
        text::push_str(&mut out, " onto a column and release");
        look = Look::colored(Color::Magenta);
        assert(out@ =~= " Drag "@ + drag.card_id@ + " onto a column and release"@);
    }
    assert(out@ =~= status_line(app@).0);
    let line = text::string_of(&out);
    scene.line(area, truncate(&line, area.width as usize), look);
}

/// Draws the line at the bottom.
fn render_footer(scene: &mut Scene, app: &App, area: Rect)
    ensures
        final(scene)@ == old(scene)@.footer(app@, area),
{
    let line = match app.focus {
        Focus::Board =>
            " ←/→ or h/l columns · ↑/↓ or j/k cards · [/] move · n add · r reload · Tab detail · ? help · q quit",
        Focus::Detail =>
            " ↑/↓ or j/k checklist · Space toggle · wheel scroll · r reload · Tab board · ? help · q quit",
    };
    scene.line(area, truncate(line, area.width as usize), Look::colored(Color::DarkGray));
}

/// Finds a rectangle of a preferred size in the middle of an area.
fn centered_rect(area: Rect, width: u16, height: u16) -> (r: Rect)
    requires
        area.fits(),
    ensures
        r == centered(area, width, height),
        r.fits(),
{
    if area.width == 0 || area.height == 0 {
        return area;
    }
    let room = take_away(area.width, 2);
    let width = if room < width {
        room
    } else {
        width
    };
    let width = if width < 1 {
        1
    } else {
        width
    };
    let room = take_away(area.height, 2);
    let height = if room < height {
        room
    } else {
        height
    };
    let height = if height < 1 {
        1
    } else {
        height
    };
    Rect {
        x: area.x + (area.width - width) / 2,
        y: area.y + (area.height - height) / 2,
        width,
        height,
    }
}

/// Draws a prompt for a line of text.
fn render_prompt(scene: &mut Scene, places: &Places, title: String, written: &str, hint: &str)
    requires
        places.is_sound(),
    ensures
        final(scene)@ == old(scene)@.prompt(*places, title@, written@, hint@),
{
    let rect = centered_rect(places.area, 64, 5);
    scene.draw(Item::Clear(rect));
    scene.frame(rect, Color::Yellow, title, false);
    let input = places.input;
    let shown = truncate(written, take_away(input.width, 1) as usize);
    let taken = #[verifier::truncate] (outside::width_of_text(&shown) as u16);
    let after = if taken > u16::MAX - input.x {
        u16::MAX
    } else {
        input.x + taken
    };
    let last = take_away(input.right(), 1);
    let cursor = if after < last {
        after
    } else {
        last
    };
    scene.line(input, shown, Look::plain());
    scene.line(places.hint, text::copy_string(hint), Look::colored(Color::DarkGray));
    scene.cursor = Some((cursor, input.y));
}

/// Writes what the help says on a line.
fn write_help_line(i: u16) -> (r: String)
    ensures
        r@ == help_line(i as int),
{
    let line = if i == 0 {
        "Keyboard"
    } else if i == 1 {
        "  ←/→, h/l        select column"
    } else if i == 2 {
        "  ↑/↓, k/j        select card or checklist"
    } else if i == 3 {
        "  [ / ]           move card one column"
    } else if i == 4 {
        "  Tab             switch board/detail focus"
    } else if i == 5 {
        "  Space           toggle selected checklist item"
    } else if i == 6 {
        "  n               quick-add a card"
    } else if i == 7 {
        "  r               reload files now"
    } else if i == 8 {
        "  ?               close this help"
    } else if i == 9 {
        "  q               quit"
    } else if i == 11 {
        "Mouse"
    } else if i == 12 {
        "  click card/checklist to select or toggle"
    } else if i == 13 {
        "  wheel to navigate cards or scroll detail"
    } else if i == 14 {
        "  drag a card and release over another column to move"
    } else if i == 16 {
        "Files reload after a short debounce; invalid edits keep the last good board."
    } else {
        let r = String::new();
        assert(r@ =~= Seq::empty());
        return r;
    };
    text::copy_string(line)
}

/// Draws the help.
fn render_help(scene: &mut Scene, area: Rect)
    requires
        area.fits(),
    ensures
        final(scene)@ == old(scene)@.help(area),
{
    let rect = centered_rect(area, 68, 20);
    scene.draw(Item::Clear(rect));
    scene.frame(rect, Color::Cyan, text::copy_string(" Help "), false);
    let inner = rect.inner();
    let count = if inner.height < HELP_LINES {
        inner.height
    } else {
        HELP_LINES
    };
    let ghost start = scene@;
    let mut k: u16 = 0;
    while k < count
        invariant
            k <= count,
            count <= inner.height,
            inner.fits(),
            scene@ == start.help_lines(inner, k as nat),
        decreases count - k,
    {
        scene.line(row(inner, k), write_help_line(k), Look::plain());
        k += 1;
    }
}

/// Draws what the screen is busy with.
fn render_modal(scene: &mut Scene, app: &App, places: &Places)
    requires
        places.is_sound(),
    ensures
        final(scene)@ == old(scene)@.modal(app@, *places),
{
    match &app.mode {
        Mode::Normal => {},
        Mode::QuickAdd { title } => {
            let mut heading = text::chars_of(" New card in ");
            assert(app@.columns().len() == app.project.config.columns@.len());
            if app.active_column < app.project.config.columns.len() {
                let column = &app.project.config.columns[app.active_column];
                assert(app@.columns()[app.active_column as int] == column@);
                text::push_str(&mut heading, &column.name);
            } else {
                text::push_str(&mut heading, "?");
            }
            text::push_str(&mut heading, " ");
            render_prompt(
                scene,
                places,
                text::string_of(&heading),
                title,
                "Enter create · Esc cancel · Ctrl-U clear",
            );
        },
        Mode::AddComment { card_id, author, text } => {
            let mut heading = text::chars_of(" Comment on ");
            text::push_str(&mut heading, card_id);
            text::push_str(&mut heading, " as ");
            text::push_str(&mut heading, author);
            text::push_str(&mut heading, " ");
            render_prompt(
                scene,
                places,
                text::string_of(&heading),
                text,
                "Enter comment · Esc cancel · Ctrl-U clear",
            );
        },
        Mode::Help => {
            render_help(scene, places.area);
        },
    }
}

/// Makes a picture of the board, given the metadata of the selected card in YAML and where the parts
/// of the screen are.
pub fn compose(app: &App, yaml: &str, places: &Places) -> (r: Scene)
    requires
        places.is_sound(),
    ensures
        r@ == composed(app@, yaml@, *places),
{
    let mut scene = Scene::new();
    render_header(&mut scene, app, places.header);
    render_main(&mut scene, app, yaml, places);
    render_status(&mut scene, app, places.status);
    render_footer(&mut scene, app, places.footer);
    render_modal(&mut scene, app, places);
    scene
}

/// How large the board and the detail are to be, side by side.
pub open spec fn pane_extents(width: u16) -> Seq<Extent> {
    seq![Extent::Min(40), Extent::Length(detail_width(width) as u16)]
}

/// Finds how large the board and the detail are to be, where there is room for both.
pub fn find_pane_extents(width: u16) -> (r: Option<Vec<Extent>>)
    ensures
        match r {
            Some(extents) => width >= WIDE && extents@ == pane_extents(width),
            None => width < WIDE,
        },
{
    if width < WIDE {
        return None;
    }
    let third = width / 3;
    let size = if third < 30 {
        30
    } else if third > 52 {
        52
    } else {
        third
    };
    let extents = vec![Extent::Min(40), Extent::Length(size)];
    assert(extents@ =~= pane_extents(width));
    Some(extents)
}

/// Divides a screen into the rows of the header, of the board and the detail, of the status line and
/// of the footer.
fn split_screen(area: Rect) -> (r: Vec<Rect>)
    requires
        area.fits(),
    ensures
        r@.len() == 4,
        forall|i: int|
            0 <= i < 4 ==> (#[trigger] r@[i]).fits() && r@[i].x == area.x && r@[i].width
                == area.width,
        area.height >= 7 ==> {
            &&& r@[0].y == area.y && r@[0].height == 2
            &&& r@[1].y == area.y + 2 && r@[1].height == area.height - 4
            &&& r@[2].y == area.y + area.height - 2 && r@[2].height == 1
            &&& r@[3].y == area.y + area.height - 1 && r@[3].height == 1
        },
{
    let extents = vec![Extent::Length(2), Extent::Min(3), Extent::Length(1), Extent::Length(1)];
    proof {
        reveal_with_fuel(outside::needed, 5);
        assert(extents@[1] is Min);
        assert(outside::one_grows(extents@));
        assert(extents@.drop_last().drop_last().drop_last() =~= seq![extents@[0]]);
        assert(outside::needed(extents@, 0) == 7);
    }
    outside::split_area(Direction::Rows, &extents, 0, area)
}

/// Divides the inside of a prompt into the row of what is written, that of the hint and the rest.
fn split_prompt(inner: Rect) -> (r: Vec<Rect>)
    requires
        inner.fits(),
    ensures
        r@.len() == 3,
        forall|i: int|
            0 <= i < 3 ==> (#[trigger] r@[i]).fits() && r@[i].x == inner.x && r@[i].width
                == inner.width,
        inner.height >= 2 ==> {
            &&& r@[0].y == inner.y && r@[0].height == 1
            &&& r@[1].y == inner.y + 1 && r@[1].height == 1
        },
{
    let extents = vec![Extent::Length(1), Extent::Length(1), Extent::Min(0)];
    proof {
        reveal_with_fuel(outside::needed, 4);
        assert(extents@[2] is Min);
        assert(outside::one_grows(extents@));
        assert(extents@.drop_last().drop_last() =~= seq![extents@[0]]);
        assert(outside::needed(extents@, 0) == 2);
    }
    outside::split_area(Direction::Rows, &extents, 0, inner)
}

/// There is room for the board and the detail in a wide area.
proof fn lemma_panes_fit(width: u16)
    requires
        width >= WIDE,
    ensures
        outside::one_grows(pane_extents(width)),
        outside::needed(pane_extents(width), 1) == 41 + detail_width(width),
        outside::needed(pane_extents(width), 1) <= width,
{
    let extents = pane_extents(width);
    reveal_with_fuel(outside::needed, 3);
    assert(extents[0] is Min);
    assert(outside::one_grows(extents));
    assert(extents.drop_last() =~= seq![extents[0]]);
}

/// Finds where the parts of the screen are. How the rows and columns share an area that is too small
/// for them rests on the layout of the terminal library.
pub fn lay_out(area: Rect) -> (r: Places)
    requires
        area.fits(),
    ensures
        r.is_sound(),
        r.is_divided(),
        r.area == area,
{
    let rows = split_screen(area);
    let main = rows[1];
    let panes = match find_pane_extents(main.width) {
        Some(extents) => {
            proof {
                lemma_panes_fit(main.width);
            }
            let parts = outside::split_area(Direction::Columns, &extents, 1, main);
            Some((parts[0], parts[1]))
        },
        None => None,
    };
    let rect = centered_rect(area, 64, 5);
    let prompt = split_prompt(rect.inner());
    Places {
        area,
        header: rows[0],
        main,
        status: rows[2],
        footer: rows[3],
        panes,
        input: prompt[0],
        hint: prompt[1],
    }
}

/// Makes a picture of the board for a screen, given the metadata of the selected card in YAML.
pub fn render(app: &App, yaml: &str, area: Rect) -> (r: Scene)
    requires
        area.fits(),
    ensures
        exists|places: Places|
            places.is_sound() && places.is_divided() && places.area == area && r@
                == #[trigger] composed(app@, yaml@, places),
{
    let places = lay_out(area);
    compose(app, yaml, &places)
}

/// The selected card is among those that have a place in its column.
pub proof fn the_selected_card_has_a_place(app: AppView, height: u16)
    requires
        app.column_cards(app.active_column as int).len() > 0,
    ensures
        ({
            let count = app.column_cards(app.active_column as int).len();
            let first = first_card(app, app.active_column, height);
            first <= app::least(app.selected_row as int, count - 1) < first + visible_cards(height)
        }),
{
}

/// The line with the selected checklist item is shown, as long as the detail follows the selection.
pub proof fn the_selected_item_is_shown(app: AppView, lines: Seq<DetailView>, visible: int)
    requires
        visible >= 1,
        app.detail_follow_cursor,
        app.selected_item() is Some,
        line_with(lines, app.selected_item()->0 as usize, 0) is Some,
    ensures
        first_line(app, lines, visible) <= line_with(lines, app.selected_item()->0 as usize, 0)->0
            < first_line(app, lines, visible) + visible,
{
}

/// What is drawn over the board changes nothing of what the mouse meets.
pub proof fn modals_leave_the_hits(scene: SceneView, app: AppView, places: Places)
    ensures
        scene.modal(app, places).hits == scene.hits,
{
    if app.mode is Help {
        let rect = centered(places.area, 68, 20);
        let cleared = scene.with(DrawnView::Clear(rect)).frame(
            rect,
            Color::Cyan,
            " Help "@,
            false,
        );
        lemma_help_lines(
            cleared,
            rect.framed(),
            app::least(HELP_LINES as int, rect.framed().height as int) as nat,
        );
    }
}

/// The help changes nothing of what the mouse meets.
proof fn lemma_help_lines(scene: SceneView, inner: Rect, n: nat)
    ensures
        scene.help_lines(inner, n).hits == scene.hits,
    decreases n,
{
    if n > 0 {
        lemma_help_lines(scene, inner, (n - 1) as nat);
    }
}

} // verus!
