//! The card that shows what was read of a panel.

use crate::canvas::Rgba;
use crate::ids;
use crate::sorting;
use crate::text;
use crate::text::decimal_string;
use vstd::prelude::*;
use vstd::string::*;

verus! {

/// The width of the card.
pub const CARD_W: u32 = 960;

/// The smallest height of the card.
pub const CARD_H_MIN: u32 = 280;

/// The largest height of the card.
pub const CARD_H_MAX: u32 = 920;

/// The height of a line.
pub const ROW_PX: u32 = 22;

/// The size of the title.
pub const TITLE_PX: u32 = 30;

/// The size of small text.
pub const SMALL_PX: u32 = 18;

/// The height of an item.
pub const ITEM_ROW_H: u32 = 32;

/// The height of a note.
pub const NOTE_ROW_H: u32 = 28;

/// The way from one item to the next, in tenths of a pixel.
pub const ITEM_STEP: u64 = 320;

/// The way from one note to the next, in tenths of a pixel.
pub const NOTE_STEP: u64 = 280;

/// How the count of an item changed.
#[derive(Debug)]
pub struct OcrItemDelta {
    pub item_name: String,
    pub before: u32,
    /// What was read, where it could be.
    pub after: Option<u32>,
    pub needed: u32,
}

/// What an [`OcrItemDelta`] says.
#[verifier::ext_equal]
pub struct DeltaView {
    pub item_name: Seq<char>,
    pub before: u32,
    pub after: Option<u32>,
    pub needed: u32,
}

impl View for OcrItemDelta {
    type V = DeltaView;

    open spec fn view(&self) -> DeltaView {
        DeltaView {
            item_name: self.item_name@,
            before: self.before,
            after: self.after,
            needed: self.needed,
        }
    }
}

/// How reading a panel went.
#[derive(Debug)]
pub enum OcrFeedbackKind {
    /// It is not done yet.
    Processing,
    Done {
        upgrade_name: String,
        level: u32,
        items: Vec<OcrItemDelta>,
        progression_notes: Vec<String>,
    },
    /// There was no panel.
    NotAPanel,
    /// The upgrade is not among the data.
    UnknownUpgrade { module_hint: Option<String>, current_level: u32 },
    Failed(String),
}

/// What an [`OcrFeedbackKind`] says.
#[verifier::ext_equal]
pub enum FeedbackView {
    Processing,
    Done {
        upgrade_name: Seq<char>,
        level: u32,
        items: Seq<DeltaView>,
        notes: Seq<Seq<char>>,
    },
    NotAPanel,
    UnknownUpgrade { module_hint: Option<Seq<char>>, current_level: u32 },
    Failed(Seq<char>),
}

impl View for OcrFeedbackKind {
    type V = FeedbackView;

    open spec fn view(&self) -> FeedbackView {
        match *self {
            OcrFeedbackKind::Processing => FeedbackView::Processing,
            OcrFeedbackKind::Done {
                upgrade_name,
                level,
                items,
                progression_notes,
            } => FeedbackView::Done {
                upgrade_name: upgrade_name@,
                level,
                items: sorting::views(items@),
                notes: ids::texts(progression_notes@),
            },
            OcrFeedbackKind::NotAPanel => FeedbackView::NotAPanel,
            OcrFeedbackKind::UnknownUpgrade {
                module_hint,
                current_level,
            } => FeedbackView::UnknownUpgrade {
                module_hint: text::opt_text(module_hint),
                current_level,
            },
            OcrFeedbackKind::Failed(msg) => FeedbackView::Failed(msg@),
        }
    }
}

/// How reading a panel went.
#[derive(Debug)]
pub struct OcrFeedback {
    pub kind: OcrFeedbackKind,
}

impl OcrFeedback {
    /// The panel is being read.
    pub fn processing() -> (r: Self)
        ensures
            r.kind@ == FeedbackView::Processing,
    {
        OcrFeedback { kind: OcrFeedbackKind::Processing }
    }

    /// There was no panel.
    pub fn not_a_panel() -> (r: Self)
        ensures
            r.kind@ == FeedbackView::NotAPanel,
    {
        OcrFeedback { kind: OcrFeedbackKind::NotAPanel }
    }

    /// Reading failed.
    pub fn failed(msg: &str) -> (r: Self)
        ensures
            r.kind@ == FeedbackView::Failed(msg@),
    {
        OcrFeedback { kind: OcrFeedbackKind::Failed(msg.to_owned()) }
    }

    /// Whether the panel is still being read.
    pub fn is_processing(&self) -> (r: bool)
        ensures
            r == (self.kind@ == FeedbackView::Processing),
    {
        match &self.kind {
            OcrFeedbackKind::Processing => true,
            _ => false,
        }
    }
}

/// The colours of the card.
#[derive(Debug, Clone, Copy, PartialEq, Eq, Structural)]
pub enum Ink {
    /// The background.
    Ground,
    /// Plain text.
    Plain,
    /// Text of less weight.
    Weak,
    Positive,
    Negative,
    /// What is under way or was not found.
    Amber,
    Blue,
    Red,
}

impl Ink {
    /// Red, green, blue and opacity.
    pub open spec fn color(self) -> Rgba {
        match self {
            Ink::Ground => Rgba { r: 28, g: 28, b: 33, a: 237 },
            Ink::Plain => Rgba { r: 235, g: 235, b: 235, a: 255 },
            Ink::Weak => Rgba { r: 158, g: 158, b: 166, a: 255 },
            Ink::Positive => Rgba { r: 110, g: 200, b: 130, a: 255 },
            Ink::Negative => Rgba { r: 220, g: 140, b: 130, a: 255 },
            Ink::Amber => Rgba { r: 199, g: 181, b: 89, a: 255 },
            Ink::Blue => Rgba { r: 89, g: 150, b: 220, a: 255 },
            Ink::Red => Rgba { r: 220, g: 99, b: 89, a: 255 },
        }
    }

    /// Red, green, blue and opacity.
    pub fn rgba(self) -> (r: Rgba)
        ensures
            r == self.color(),
    {
        match self {
            Ink::Ground => Rgba { r: 28, g: 28, b: 33, a: 237 },
            Ink::Plain => Rgba { r: 235, g: 235, b: 235, a: 255 },
            Ink::Weak => Rgba { r: 158, g: 158, b: 166, a: 255 },
            Ink::Positive => Rgba { r: 110, g: 200, b: 130, a: 255 },
            Ink::Negative => Rgba { r: 220, g: 140, b: 130, a: 255 },
            Ink::Amber => Rgba { r: 199, g: 181, b: 89, a: 255 },
            Ink::Blue => Rgba { r: 89, g: 150, b: 220, a: 255 },
            Ink::Red => Rgba { r: 220, g: 99, b: 89, a: 255 },
        }
    }
}

/// Where a line of text starts.
#[derive(Debug, Clone, Copy, PartialEq, Eq, Structural)]
pub enum Align {
    /// At the left margin.
    Left,
    /// It ends at the right margin.
    Right,
    /// It ends just before the line that comes before it.
    BeforeLast,
}

/// A line of text on the card.
#[derive(Debug)]
pub struct TextLine {
    pub text: String,
    pub align: Align,
    /// The line on which the letters stand, in tenths of a pixel from the top.
    pub baseline: u64,
    pub size: u32,
    pub ink: Ink,
}

/// What a [`TextLine`] says.
#[verifier::ext_equal]
pub struct LineView {
    pub text: Seq<char>,
    pub align: Align,
    pub baseline: u64,
    pub size: u32,
    pub ink: Ink,
}

impl View for TextLine {
    type V = LineView;

    open spec fn view(&self) -> LineView {
        LineView {
            text: self.text@,
            align: self.align,
            baseline: self.baseline,
            size: self.size,
            ink: self.ink,
        }
    }
}

/// How high the body of the card is.
pub open spec fn body_height(kind: FeedbackView) -> int {
    match kind {
        FeedbackView::Processing | FeedbackView::NotAPanel => ROW_PX + 8,
        FeedbackView::UnknownUpgrade { module_hint, current_level } => ROW_PX * 3 + 16,
        FeedbackView::Failed(_) => ROW_PX * 2 + 12,
        FeedbackView::Done { upgrade_name, level, items, notes } => {
            let items_h = if items.len() == 0 {
                ROW_PX + 8
            } else {
                items.len() * ITEM_ROW_H
            };
            let notes_h = if notes.len() == 0 {
                0
            } else {
                7 + notes.len() * NOTE_ROW_H
            };
            items_h + notes_h
        },
    }
}

/// How high the card is: as high as what it says, within its bounds.
pub open spec fn card_height(kind: FeedbackView) -> int {
    let h = 129 + body_height(kind);
    if h < CARD_H_MIN {
        CARD_H_MIN as int
    } else if h > CARD_H_MAX {
        CARD_H_MAX as int
    } else {
        h
    }
}

/// How high the card is.
pub fn measure_height(kind: &OcrFeedbackKind) -> (r: u32)
    ensures
        r == card_height(kind@),
        CARD_H_MIN <= r <= CARD_H_MAX,
{
    let body: u128 = match kind {
        OcrFeedbackKind::Processing => ROW_PX as u128 + 8,
        OcrFeedbackKind::NotAPanel => ROW_PX as u128 + 8,
        OcrFeedbackKind::UnknownUpgrade { .. } => ROW_PX as u128 * 3 + 16,
        OcrFeedbackKind::Failed(_) => ROW_PX as u128 * 2 + 12,
        OcrFeedbackKind::Done { items, progression_notes, .. } => {
            let items_h: u128 = if items.len() == 0 {
                ROW_PX as u128 + 8
            } else {
                items.len() as u128 * ITEM_ROW_H as u128
            };
            let notes_h: u128 = if progression_notes.len() == 0 {
                0
            } else {
                7 + progression_notes.len() as u128 * NOTE_ROW_H as u128
            };
            items_h + notes_h
        },
    };
    let h: u128 = 129 + body;
    if h < CARD_H_MIN as u128 {
        CARD_H_MIN
    } else if h > CARD_H_MAX as u128 {
        CARD_H_MAX
    } else {
        h as u32
    }
}

/// The colour of the frame of the card.
pub open spec fn accent_of(kind: FeedbackView) -> Ink {
    match kind {
        FeedbackView::Processing => Ink::Amber,
        FeedbackView::Done { upgrade_name, level, items, notes } => Ink::Blue,
        FeedbackView::NotAPanel => Ink::Amber,
        FeedbackView::UnknownUpgrade { module_hint, current_level } => Ink::Amber,
        FeedbackView::Failed(_) => Ink::Red,
    }
}

/// The colour of the frame of the card.
pub fn accent_color(kind: &OcrFeedbackKind) -> (r: Ink)
    ensures
        r == accent_of(kind@),
{
    match kind {
        OcrFeedbackKind::Processing => Ink::Amber,
        OcrFeedbackKind::Done { .. } => Ink::Blue,
        OcrFeedbackKind::NotAPanel => Ink::Amber,
        OcrFeedbackKind::UnknownUpgrade { .. } => Ink::Amber,
        OcrFeedbackKind::Failed(_) => Ink::Red,
    }
}

/// The title of the card.
pub open spec fn title_of_card(kind: FeedbackView) -> Seq<char> {
    match kind {
        FeedbackView::Processing => "Reading panel…"@,
        FeedbackView::Done { upgrade_name, level, items, notes } => upgrade_name,
        FeedbackView::NotAPanel => "Not an upgrade panel"@,
        FeedbackView::UnknownUpgrade { module_hint, current_level } => "Unknown upgrade"@,
        FeedbackView::Failed(_) => "OCR failed"@,
    }
}

/// The title of the card.
pub fn card_title(kind: &OcrFeedbackKind) -> (r: String)
    ensures
        r@ == title_of_card(kind@),
{
    match kind {
        OcrFeedbackKind::Processing => "Reading panel…".to_owned(),
        OcrFeedbackKind::Done { upgrade_name, .. } => upgrade_name.clone(),
        OcrFeedbackKind::NotAPanel => "Not an upgrade panel".to_owned(),
        OcrFeedbackKind::UnknownUpgrade { .. } => "Unknown upgrade".to_owned(),
        OcrFeedbackKind::Failed(_) => "OCR failed".to_owned(),
    }
}

/// The level beside the title, where there is one.
pub open spec fn level_chip(kind: FeedbackView) -> Option<Seq<char>> {
    match kind {
        FeedbackView::Done { upgrade_name, level, items, notes } => if level > 0 {
            Some("Lv "@ + text::decimal(level as nat))
        } else {
            None
        },
        _ => None,
    }
}

/// The level beside the title, where there is one.
pub fn card_level(kind: &OcrFeedbackKind) -> (r: Option<String>)
    ensures
        text::opt_text(r) == level_chip(kind@),
{
    match kind {
        OcrFeedbackKind::Done { level, .. } => if *level > 0 {
            let mut r: String = "Lv ".to_owned();
            r.append(decimal_string(*level as u64).as_str());
            Some(r)
        } else {
            None
        },
        _ => None,
    }
}

/// The line below the card. `sticky` says that the card stays until the next
/// one.
pub fn footer_text(kind: &OcrFeedbackKind, sticky: bool) -> (r: &'static str)
    ensures
        r@ == match kind@ {
            FeedbackView::Processing => "Working… replaced when the pipeline finishes."@,
            _ => if sticky {
                "Debug build — stays until the next OCR run replaces it."@
            } else {
                "Fades out in a few seconds."@
            },
        },
{
    match kind {
        OcrFeedbackKind::Processing => "Working… replaced when the pipeline finishes.",
        _ => if sticky {
            "Debug build — stays until the next OCR run replaces it."
        } else {
            "Fades out in a few seconds."
        },
    }
}

/// A line of text.
pub open spec fn a_line(t: Seq<char>, align: Align, baseline: int, size: u32, ink: Ink) -> LineView {
    LineView { text: t, align, baseline: baseline as u64, size, ink }
}

/// The count of an item, with what is needed where that is known.
pub open spec fn count_of(n: u32, needed: u32) -> Seq<char> {
    if needed > 0 {
        text::decimal(n as nat) + " / "@ + text::decimal(needed as nat)
    } else {
        text::decimal(n as nat)
    }
}

/// The lines of an item: its name, its count, and the count before where that
/// changed. A count that could not be read says so.
pub open spec fn item_lines(item: DeltaView, y: int) -> Seq<LineView> {
    let base = y + 209;
    let name = a_line(item.item_name, Align::Left, base, ROW_PX, Ink::Plain);
    match item.after {
        Some(after) => {
            let ink = if after > item.before {
                Ink::Positive
            } else if after < item.before {
                Ink::Negative
            } else {
                Ink::Weak
            };
            let count = a_line(count_of(after, item.needed), Align::Right, base, ROW_PX, ink);
            if item.before != after {
                seq![
                    name,
                    count,
                    a_line(
                        "("@ + text::decimal(item.before as nat) + "→) "@,
                        Align::BeforeLast,
                        base,
                        SMALL_PX,
                        Ink::Weak,
                    ),
                ]
            } else {
                seq![name, count]
            }
        },
        None => seq![
            name,
            a_line(
                "kept "@ + count_of(item.before, item.needed),
                Align::Right,
                base,
                ROW_PX,
                Ink::Amber,
            ),
        ],
    }
}

/// The lines of all items, one below the other.
pub open spec fn all_item_lines(items: Seq<DeltaView>, y: int) -> Seq<LineView>
    decreases items.len(),
{
    if items.len() == 0 {
        Seq::empty()
    } else {
        all_item_lines(items.drop_last(), y) + item_lines(
            items.last(),
            y + (items.len() - 1) * ITEM_STEP,
        )
    }
}

/// The lines of the notes, one below the other.
pub open spec fn note_lines(notes: Seq<Seq<char>>, y: int) -> Seq<LineView> {
    Seq::new(
        notes.len(),
        |i: int|
            a_line(
                "✓ "@ + notes[i],
                Align::Left,
                y + i * NOTE_STEP + 196,
                SMALL_PX,
                Ink::Positive,
            ),
    )
}

/// The upgrade that is missing: the one after the level that is shown.
pub open spec fn missing_label(hint: Option<Seq<char>>, level: u32) -> Seq<char> {
    let next = if level == u32::MAX {
        level as int
    } else {
        level + 1
    };
    let name = match hint {
        Some(n) => n,
        None => "(this upgrade)"@,
    };
    "Missing from data: "@ + name + " Lv "@ + text::decimal(next as nat)
}

/// The lines of the body of the card, from `y` on, in tenths of a pixel.
pub open spec fn body_lines(kind: FeedbackView, y: int) -> Seq<LineView> {
    match kind {
        FeedbackView::Processing => seq![
            a_line(
                "Identifying the upgrade and extracting owned counts…"@,
                Align::Left,
                y + 220,
                ROW_PX,
                Ink::Weak,
            ),
        ],
        FeedbackView::NotAPanel => seq![
            a_line(
                "Open the Facility Upgrade panel and capture again."@,
                Align::Left,
                y + 220,
                ROW_PX,
                Ink::Weak,
            ),
        ],
        FeedbackView::UnknownUpgrade { module_hint, current_level } => seq![
            a_line(
                missing_label(module_hint, current_level),
                Align::Left,
                y + 220,
                ROW_PX,
                Ink::Negative,
            ),
            a_line(
                "Add the recipe in the desktop app and"@,
                Align::Left,
                y + 480,
                SMALL_PX,
                Ink::Weak,
            ),
            a_line(
                "file a GitHub issue with the screenshot."@,
                Align::Left,
                y + 660,
                SMALL_PX,
                Ink::Weak,
            ),
        ],
        FeedbackView::Failed(msg) => seq![
            a_line("Pipeline error:"@, Align::Left, y + 220, ROW_PX, Ink::Negative),
            a_line(msg, Align::Left, y + 480, SMALL_PX, Ink::Weak),
        ],
        FeedbackView::Done { upgrade_name, level, items, notes } => if items.len() == 0 {
            seq![
                a_line("No items were updated."@, Align::Left, y + 220, ROW_PX, Ink::Weak),
            ] + note_lines(notes, y + 300 + 70)
        } else {
            all_item_lines(items, y) + note_lines(
                notes,
                y + items.len() * ITEM_STEP + 70,
            )
        },
    }
}

/// Where the body of the card ends that starts at `y`, in tenths of a pixel:
/// below its last row and the space that belongs to it.
pub open spec fn body_end(kind: FeedbackView, y: int) -> int {
    match kind {
        FeedbackView::Processing | FeedbackView::NotAPanel => y + 300,
        FeedbackView::UnknownUpgrade { module_hint, current_level } => y + 820,
        FeedbackView::Failed(_) => y + 560,
        FeedbackView::Done { upgrade_name, level, items, notes } => {
            let below = if items.len() == 0 {
                y + 300
            } else {
                y + items.len() * ITEM_STEP
            };
            if notes.len() == 0 {
                below
            } else {
                below + 70 + notes.len() * NOTE_STEP
            }
        },
    }
}

fn line(t: String, align: Align, baseline: u64, size: u32, ink: Ink) -> (r: TextLine)
    ensures
        r@ == a_line(t@, align, baseline as int, size, ink),
{
    TextLine { text: t, align, baseline, size, ink }
}

fn count_text(n: u32, needed: u32) -> (r: String)
    ensures
        r@ == count_of(n, needed),
{
    let mut r: String = decimal_string(n as u64);
    if needed > 0 {
        r.append(" / ");
        r.append(decimal_string(needed as u64).as_str());
    }
    r
}

fn add_item(out: &mut Vec<TextLine>, item: &OcrItemDelta, y: u64)
    requires
        y <= u64::MAX - 209,
    ensures
        sorting::views(final(out)@) == sorting::views(old(out)@) + item_lines(item@, y as int),
{
    let ghost before = sorting::views(out@);
    let base: u64 = y + 209;
    out.push(line(item.item_name.clone(), Align::Left, base, ROW_PX, Ink::Plain));
    match item.after {
        Some(after) => {
            let ink: Ink = if after > item.before {
                Ink::Positive
            } else if after < item.before {
                Ink::Negative
            } else {
                Ink::Weak
            };
            out.push(line(count_text(after, item.needed), Align::Right, base, ROW_PX, ink));
            if item.before != after {
                let mut t: String = "(".to_owned();
                t.append(decimal_string(item.before as u64).as_str());
                t.append("→) ");
                out.push(line(t, Align::BeforeLast, base, SMALL_PX, Ink::Weak));
            }
        },
        None => {
            let mut t: String = "kept ".to_owned();
            t.append(count_text(item.before, item.needed).as_str());
            out.push(line(t, Align::Right, base, ROW_PX, Ink::Amber));
        },
    }
    assert(sorting::views(out@) =~= before + item_lines(item@, y as int));
}

fn add_notes(out: &mut Vec<TextLine>, notes: &Vec<String>, y: u64)
    requires
        y + notes@.len() * NOTE_STEP <= u64::MAX,
    ensures
        sorting::views(final(out)@) == sorting::views(old(out)@) + note_lines(
            ids::texts(notes@),
            y as int,
        ),
{
    let ghost before = sorting::views(out@);
    let ghost all = note_lines(ids::texts(notes@), y as int);
    assert(before + all.take(0) =~= before);
    let mut i: usize = 0;
    while i < notes.len()
        invariant
            i <= notes@.len(),
            y + notes@.len() * NOTE_STEP <= u64::MAX,
            all == note_lines(ids::texts(notes@), y as int),
            sorting::views(out@) == before + all.take(i as int),
        decreases notes@.len() - i,
    {
        let mut t: String = "✓ ".to_owned();
        t.append(notes[i].as_str());
        let ghost prev = sorting::views(out@);
        let base: u64 = y + i as u64 * NOTE_STEP + 196;
        out.push(line(t, Align::Left, base, SMALL_PX, Ink::Positive));
        assert(sorting::views(out@) =~= prev.push(all[i as int]));
        assert(before + all.take(i + 1) =~= prev.push(all[i as int]));
        i += 1;
    }
    assert(all.take(i as int) =~= all);
}

/// The lines of the body of the card, from `y` on, and where it ends, in tenths
/// of a pixel.
pub fn draw_body(kind: &OcrFeedbackKind, y: u64) -> (r: (Vec<TextLine>, u64))
    requires
        body_end(kind@, y as int) <= u64::MAX,
    ensures
        sorting::views(r.0@) == body_lines(kind@, y as int),
        r.1 == body_end(kind@, y as int),
        r.1 - y == 10 * body_height(kind@),
{
    let mut out: Vec<TextLine> = Vec::new();
    let mut end: u64 = y + 300;
    match kind {
        OcrFeedbackKind::Processing => {
            out.push(
                line(
                    "Identifying the upgrade and extracting owned counts…".to_owned(),
                    Align::Left,
                    y + 220,
                    ROW_PX,
                    Ink::Weak,
                ),
            );
        },
        OcrFeedbackKind::NotAPanel => {
            out.push(
                line(
                    "Open the Facility Upgrade panel and capture again.".to_owned(),
                    Align::Left,
                    y + 220,
                    ROW_PX,
                    Ink::Weak,
                ),
            );
        },
        OcrFeedbackKind::UnknownUpgrade { module_hint, current_level } => {
            let next: u32 = if *current_level == u32::MAX {
                *current_level
            } else {
                *current_level + 1
            };
            let mut t: String = "Missing from data: ".to_owned();
            match module_hint {
                Some(name) => {
                    t.append(name.as_str());
                },
                None => {
                    t.append("(this upgrade)");
                },
            }
            end = y + 820;
            t.append(" Lv ");
            t.append(decimal_string(next as u64).as_str());
            out.push(line(t, Align::Left, y + 220, ROW_PX, Ink::Negative));
            out.push(
                line(
                    "Add the recipe in the desktop app and".to_owned(),
                    Align::Left,
                    y + 480,
                    SMALL_PX,
                    Ink::Weak,
                ),
            );
            out.push(
                line(
                    "file a GitHub issue with the screenshot.".to_owned(),
                    Align::Left,
                    y + 660,
                    SMALL_PX,
                    Ink::Weak,
                ),
            );
        },
        OcrFeedbackKind::Failed(msg) => {
            end = y + 560;
            out.push(
                line("Pipeline error:".to_owned(), Align::Left, y + 220, ROW_PX, Ink::Negative),
            );
            out.push(line(msg.clone(), Align::Left, y + 480, SMALL_PX, Ink::Weak));
        },
        OcrFeedbackKind::Done { items, progression_notes, .. } => {
            let ghost all = sorting::views(items@);
            if items.len() == 0 {
                out.push(
                    line(
                        "No items were updated.".to_owned(),
                        Align::Left,
                        y + 220,
                        ROW_PX,
                        Ink::Weak,
                    ),
                );
                assert(sorting::views(out@) =~= seq![
                    a_line(
                        "No items were updated."@,
                        Align::Left,
                        y + 220,
                        ROW_PX,
                        Ink::Weak,
                    ),
                ]);
            } else {
                assert(sorting::views(out@) =~= all_item_lines(all.take(0), y as int));
                let mut i: usize = 0;
                while i < items.len()
                    invariant
                        i <= items@.len(),
                        y + items@.len() * ITEM_STEP <= u64::MAX,
                        all == sorting::views(items@),
                        sorting::views(out@) == all_item_lines(all.take(i as int), y as int),
                    decreases items@.len() - i,
                {
                    assert(all.take(i + 1).drop_last() =~= all.take(i as int));
                    assert(all.take(i + 1).last() == items@[i as int]@);
                    let at: u64 = y + i as u64 * ITEM_STEP;
                    add_item(&mut out, &items[i], at);
                    i += 1;
                }
                assert(all.take(i as int) =~= all);
                end = y + items.len() as u64 * ITEM_STEP;
            }
            let ghost rows = sorting::views(out@);
            let ghost notes = ids::texts(progression_notes@);
            assert(rows + Seq::<LineView>::empty() =~= rows);
            if progression_notes.len() == 0 {
                assert(note_lines(notes, end + 70) =~= Seq::<LineView>::empty());
            } else {
                add_notes(&mut out, progression_notes, end + 70);
                end = end + 70 + progression_notes.len() as u64 * NOTE_STEP;
            }
        },
    }
    assert(sorting::views(out@) =~= body_lines(kind@, y as int));
    (out, end)
}

/// What is drawn on the card.
#[derive(Debug)]
pub struct CardPlan {
    pub width: u32,
    pub height: u32,
    pub accent: Ink,
    pub title: String,
    pub level: Option<String>,
    pub body: Vec<TextLine>,
    pub footer: &'static str,
}

/// Where the body of the card starts, in tenths of a pixel.
pub const BODY_TOP: u64 = 716;

/// Lays out the card.
pub fn render(feedback: &OcrFeedback, sticky: bool) -> (r: CardPlan)
    requires
        body_end(feedback.kind@, BODY_TOP as int) <= u64::MAX,
    ensures
        r.width == CARD_W,
        r.height == card_height(feedback.kind@),
        CARD_H_MIN <= r.height <= CARD_H_MAX,
        r.accent == accent_of(feedback.kind@),
        r.title@ == title_of_card(feedback.kind@),
        text::opt_text(r.level) == level_chip(feedback.kind@),
        sorting::views(r.body@) == body_lines(feedback.kind@, BODY_TOP as int),
        r.footer@ == match feedback.kind@ {
            FeedbackView::Processing => "Working… replaced when the pipeline finishes."@,
            _ => if sticky {
                "Debug build — stays until the next OCR run replaces it."@
            } else {
                "Fades out in a few seconds."@
            },
        },
{
    CardPlan {
        width: CARD_W,
        height: measure_height(&feedback.kind),
        accent: accent_color(&feedback.kind),
        title: card_title(&feedback.kind),
        level: card_level(&feedback.kind),
        body: draw_body(&feedback.kind, BODY_TOP).0,
        footer: footer_text(&feedback.kind, sticky),
    }
}

proof fn lemma_item_lines_fit(items: Seq<DeltaView>, y: int)
    requires
        0 <= y,
        y + items.len() * ITEM_STEP <= u64::MAX,
    ensures
        forall|i: int|
            0 <= i < all_item_lines(items, y).len() ==> (#[trigger] all_item_lines(
                items,
                y,
            )[i]).baseline <= y + items.len() * ITEM_STEP,
    decreases items.len(),
{
    if items.len() > 0 {
        let init = items.drop_last();
        lemma_item_lines_fit(init, y);
        let before = all_item_lines(init, y);
        let last = item_lines(items.last(), y + (items.len() - 1) * ITEM_STEP);
        assert forall|i: int| 0 <= i < all_item_lines(items, y).len() implies (
        #[trigger] all_item_lines(items, y)[i]).baseline <= y + items.len() * ITEM_STEP by {
            if i < before.len() {
                assert(all_item_lines(items, y)[i] == before[i]);
            } else {
                assert(all_item_lines(items, y)[i] == last[i - before.len()]);
            }
        }
    }
}

/// The space that is drawn is the space that was measured, wherever the body
/// starts.
pub proof fn law_drawn_space_is_measured(kind: FeedbackView, y: int)
    ensures
        body_end(kind, y) - y == 10 * body_height(kind),
{
}

/// Every line of the body stands above the footer of a card that is as high as
/// what it says.
pub proof fn law_body_fits_the_card(kind: FeedbackView, i: int)
    requires
        body_end(kind, BODY_TOP as int) <= u64::MAX,
        0 <= i < body_lines(kind, BODY_TOP as int).len(),
    ensures
        body_lines(kind, BODY_TOP as int)[i].baseline <= BODY_TOP + body_height(kind) * 10,
{
    match kind {
        FeedbackView::Done { upgrade_name, level, items, notes } => {
            lemma_item_lines_fit(items, BODY_TOP as int);
            let first = if items.len() == 0 {
                1int
            } else {
                all_item_lines(items, BODY_TOP as int).len() as int
            };
            if i >= first {
                let k = i - first;
                assert(k * NOTE_STEP <= (notes.len() - 1) * NOTE_STEP);
            }
        },
        _ => {},
    }
}

} // verus!
