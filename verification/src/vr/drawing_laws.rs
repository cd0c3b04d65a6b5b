//! What cards and the capture guide show, and where.

use crate::text;
use crate::vr::guide;
use crate::vr::ocr_render;
use crate::vr::ocr_render::{Align, DeltaView, FeedbackView, Ink};
use crate::vr::runtime;
use vstd::prelude::*;

verus! {

/// A card that tells what was read names each item in its own row, one row
/// below the other, with the count that was read behind the name.
pub proof fn law_every_item_has_its_row(items: Seq<DeltaView>, y: int, k: int) -> (i: int)
    requires
        0 <= k < items.len(),
        0 <= y,
        y + items.len() * 320 + 209 <= u64::MAX,
    ensures
        0 <= i,
        i + 1 < ocr_render::all_item_lines(items, y).len(),
        ocr_render::all_item_lines(items, y)[i].text == items[k].item_name,
        ocr_render::all_item_lines(items, y)[i].align == Align::Left,
        ocr_render::all_item_lines(items, y)[i].baseline == y + 320 * k + 209,
        ocr_render::all_item_lines(items, y)[i + 1].baseline == y + 320 * k + 209,
        ocr_render::all_item_lines(items, y)[i + 1].align == Align::Right,
        items[k].after is Some && items[k].needed > 0 ==> ocr_render::all_item_lines(
            items,
            y,
        )[i + 1].text == text::decimal(
            items[k].after.unwrap() as nat,
        ) + seq![' ', '/', ' '] + text::decimal(
            items[k].needed as nat,
        ),
        items[k].after is Some && items[k].needed == 0 ==> ocr_render::all_item_lines(
            items,
            y,
        )[i + 1].text == text::decimal(items[k].after.unwrap() as nat),
        items[k].after is Some ==> ocr_render::all_item_lines(items, y)[i + 1].ink == if items[k].after.unwrap()
            > items[k].before {
            Ink::Positive
        } else if items[k].after.unwrap() < items[k].before {
            Ink::Negative
        } else {
            Ink::Weak
        },
        items[k].after is None ==> ocr_render::all_item_lines(items, y)[i + 1].ink == Ink::Amber,
    decreases items.len(),
{
    let init = items.drop_last();
    let before = ocr_render::all_item_lines(init, y);
    let all = ocr_render::all_item_lines(items, y);
    reveal_strlit(" / ");
    assert(" / "@ =~= seq![' ', '/', ' ']);
    if k == items.len() - 1 {
        let last = ocr_render::item_lines(items.last(), y + (items.len() - 1) * 320);
        assert(all =~= before + last);
        assert(all[before.len() as int] == last[0]);
        assert(all[before.len() as int + 1] == last[1]);
        before.len() as int
    } else {
        let i = law_every_item_has_its_row(init, y, k);
        assert(init[k] == items[k]);
        assert(all[i] == before[i]);
        assert(all[i + 1] == before[i + 1]);
        i
    }
}

/// An item whose count changed shows the count before too; one whose count did
/// not shows nothing more, and one that was not read says what was kept.
pub proof fn law_changed_counts_show_both(item: DeltaView, y: int)
    ensures
        item.after is Some && item.after != Some(item.before) ==> ocr_render::item_lines(item, y).len() == 3
            && ocr_render::item_lines(item, y)[2].text == seq!['('] + text::decimal(
            item.before as nat,
        ) + seq!['→', ')', ' '],
        item.after == Some(item.before) ==> ocr_render::item_lines(item, y).len() == 2,
        item.after is None ==> ocr_render::item_lines(item, y).len() == 2,
        item.after is None && item.needed > 0 ==> ocr_render::item_lines(item, y)[1].text == seq![
            'k',
            'e',
            'p',
            't',
            ' ',
        ] + (text::decimal(item.before as nat) + seq![' ', '/', ' '] + text::decimal(
            item.needed as nat,
        )),
{
    reveal_strlit("(");
    reveal_strlit("→) ");
    reveal_strlit("kept ");
    reveal_strlit(" / ");
    assert("("@ =~= seq!['(']);
    assert("→) "@ =~= seq!['→', ')', ' ']);
    assert("kept "@ =~= seq!['k', 'e', 'p', 't', ' ']);
    assert(" / "@ =~= seq![' ', '/', ' ']);
}

/// A card that tells what was read shows the upgrade as its title, its level
/// where it has one, the items and then the notes, each note ticked off.
pub proof fn law_done_cards_tell_everything(
    name: Seq<char>,
    level: u32,
    items: Seq<DeltaView>,
    notes: Seq<Seq<char>>,
    y: int,
    n: int,
)
    requires
        0 <= n < notes.len(),
        0 <= y,
        y + items.len() * 320 + 370 + notes.len() * 280 <= u64::MAX,
    ensures
        ({
            let kind = FeedbackView::Done { upgrade_name: name, level, items, notes };
            let lines = ocr_render::body_lines(kind, y);
            &&& ocr_render::title_of_card(kind) == name
            &&& level > 0 ==> ocr_render::level_chip(kind) == Some(
                seq!['L', 'v', ' '] + text::decimal(level as nat),
            )
            &&& level == 0 ==> ocr_render::level_chip(kind) is None
            &&& lines.len() >= notes.len()
            &&& lines[lines.len() - notes.len() + n].text == seq!['✓', ' '] + notes[n]
            &&& lines[lines.len() - notes.len() + n].baseline == y + 266 + 280 * n
                + if items.len() == 0 {
                300
            } else {
                320 * items.len()
            }
            &&& items.len() > 0 ==> lines.take(lines.len() - notes.len())
                == ocr_render::all_item_lines(items, y)
        }),
{
    let kind = FeedbackView::Done { upgrade_name: name, level, items, notes };
    let lines = ocr_render::body_lines(kind, y);
    reveal_strlit("Lv ");
    reveal_strlit("✓ ");
    assert("Lv "@ =~= seq!['L', 'v', ' ']);
    assert("✓ "@ =~= seq!['✓', ' ']);
    if items.len() > 0 {
        let head = ocr_render::all_item_lines(items, y);
        assert(lines.take(lines.len() - notes.len()) =~= head);
    }
}

/// A card that does not know its upgrade says which level of which module is
/// missing: the one above the level that was read.
pub proof fn law_missing_level_is_the_next(hint: Seq<char>, level: u32)
    requires
        level < u32::MAX,
    ensures
        ocr_render::missing_label(Some(hint), level) == "Missing from data: "@ + hint + " Lv "@
            + text::decimal((level + 1) as nat),
        ocr_render::missing_label(None, level) == "Missing from data: "@ + "(this upgrade)"@
            + " Lv "@ + text::decimal((level + 1) as nat),
{
}

/// A card is as high as what it shows, within its limits, and one that shows
/// more is not lower.
pub proof fn law_card_height(
    name: Seq<char>,
    level: u32,
    items: Seq<DeltaView>,
    more: Seq<DeltaView>,
    notes: Seq<Seq<char>>,
)
    requires
        0 < items.len() <= more.len(),
    ensures
        ({
            let kind = FeedbackView::Done { upgrade_name: name, level, items, notes };
            let larger = FeedbackView::Done { upgrade_name: name, level, items: more, notes };
            let full = 129 + 32 * items.len() + if notes.len() == 0 {
                0
            } else {
                7 + 28 * notes.len()
            };
            &&& 280 <= ocr_render::card_height(kind) <= 920
            &&& 280 <= full <= 920 ==> ocr_render::card_height(kind) == full
            &&& full < 280 ==> ocr_render::card_height(kind) == 280
            &&& full > 920 ==> ocr_render::card_height(kind) == 920
            &&& ocr_render::card_height(kind) <= ocr_render::card_height(larger)
        }),
{
}

/// The hole of the guide keeps its size, lies in the middle of the picture,
/// and has at least two hundredths of its width and seventeen of its height
/// around it, no more than a pixel above that unless the least margin or the
/// room for the texts asks for it.
pub proof fn law_hole_lies_in_the_middle(w: u32, h: u32)
    requires
        w > 0,
        h > 0,
        guide::fits(w, h),
    ensures
        ({
            let l = guide::layout_of(w, h);
            &&& l.hole_w == w
            &&& l.hole_h == h
            &&& l.tex_w == w + 2 * l.hole_x
            &&& l.tex_h == h + 2 * l.hole_y
            &&& l.hole_x >= 5
            &&& l.hole_y >= 5
            &&& 100 * l.hole_x >= 2 * w
            &&& 100 * l.hole_y >= 17 * h
            &&& l.hole_x > 5 ==> 100 * (l.hole_x - 1) < 2 * w
            &&& h >= 280 ==> 100 * (l.hole_y - 1) < 17 * h
            &&& h < 280 ==> l.hole_y == 48
        }),
{
}

/// The sides of the frame lie against the hole, one on each side, and join at
/// the corners.
pub proof fn law_frame_lies_against_the_hole(l: guide::GuideTexLayout)
    requires
        l.centred(),
    ensures
        ({
            let b = guide::border_bars(l);
            &&& b.len() == 4
            &&& b[0].y + b[0].h == l.hole_y * 20
            &&& b[1].y == (l.hole_y + l.hole_h) * 20
            &&& b[2].x + b[2].w == l.hole_x * 20
            &&& b[3].x == (l.hole_x + l.hole_w) * 20
            &&& b[0].x == b[1].x == b[2].x
            &&& b[0].x + b[0].w == b[1].x + b[1].w == b[3].x + b[3].w
            &&& b[2].y == b[0].y + b[0].h && b[2].y + b[2].h == b[1].y
            &&& b[3].y == b[0].y + b[0].h && b[3].y + b[3].h == b[1].y
            &&& forall|i: int| 0 <= i < 4 ==> (#[trigger] b[i]).w == 60 || b[i].h == 60
        }),
{
}

/// The caption stands above the hint where there is one and in its place where
/// there is none; the hint stands above the hole and the chip below it.
pub proof fn law_texts_in_turn(w: u32, h: u32)
    requires
        guide::fits(w, h),
    ensures
        ({
            let l = guide::layout_of(w, h);
            &&& guide::caption_row(l, false).baseline == guide::hint_row(l).baseline
            &&& guide::caption_row(l, true).baseline < guide::hint_row(l).baseline
            &&& guide::caption_row(l, true).size == guide::caption_row(l, false).size
            &&& guide::hint_row(l).baseline < l.hole_y * 5_000
            &&& guide::chip_box(l).top > (l.hole_y + l.hole_h) * 5_000
            &&& guide::hint_row(l).size <= guide::caption_row(l, true).size
        }),
{
    guide::law_texts_spare_the_hole(w, h, true);
    guide::law_texts_spare_the_hole(w, h, false);
}

/// The hint names the hand whose trigger captures, and there is none where no
/// hand does.
pub proof fn law_hint_names_the_hand(hand: Seq<char>)
    ensures
        hand.len() > 0 ==> guide::hint_of(hand) == "Pull "@ + hand + " trigger to capture"@,
        hand.len() == 0 ==> guide::hint_of(hand).len() == 0,
{
}

/// The caption is a twentieth as high as the hole and at least fourteen pixels;
/// the hint has 0.82 of that, and at least twelve.
pub proof fn law_text_sizes(w: u32, h: u32)
    requires
        w > 0,
        h > 0,
        guide::fits(w, h),
    ensures
        ({
            let l = guide::layout_of(w, h);
            let caption = guide::caption_row(l, false).size;
            let hint = guide::hint_row(l).size;
            &&& h >= 280 ==> 20 * caption == h * 5_000
            &&& h < 280 ==> caption == 14 * 5_000
            &&& hint >= 12 * 5_000
            &&& hint > 12 * 5_000 ==> 50 * hint <= 41 * caption < 50 * (hint + 1)
            &&& 41 * caption <= 50 * 12 * 5_000 ==> hint == 12 * 5_000
        }),
{
}

/// A frame is red just where something failed, and blue just where something
/// was read.
pub proof fn law_frames_tell_how_it_went(kind: FeedbackView)
    ensures
        ocr_render::accent_of(kind) == Ink::Red <==> kind is Failed,
        ocr_render::accent_of(kind) == Ink::Blue <==> kind is Done,
        ocr_render::accent_of(kind) == Ink::Amber <==> kind is Processing || kind is NotAPanel
            || kind is UnknownUpgrade,
{
}

proof fn lemma_noughts_count_for_nothing(k: nat, d: Seq<char>)
    ensures
        text::digits_value(Seq::new(k, |i: int| '0') + d) == text::digits_value(d),
    decreases d.len(), k,
{
    let noughts = Seq::new(k, |i: int| '0');
    if d.len() > 0 {
        assert((noughts + d).drop_last() =~= noughts + d.drop_last());
        lemma_noughts_count_for_nothing(k, d.drop_last());
    } else if k > 0 {
        lemma_noughts_count_for_nothing((k - 1) as nat, d);
        assert((noughts + d).drop_last() =~= Seq::new((k - 1) as nat, |i: int| '0') + d);
    } else {
        assert(noughts + d =~= d);
    }
}

/// A number that is filled up with noughts has the width, unless it is longer
/// already, and is still that number.
pub proof fn law_filled_up_numbers(n: nat, width: nat, max: nat)
    requires
        n <= max,
    ensures
        text::parsed_uint(runtime::with_noughts(n, width as int), max) == Some(n),
        text::decimal(n).len() <= width ==> runtime::with_noughts(n, width as int).len() == width,
        text::decimal(n).len() > width ==> runtime::with_noughts(n, width as int)
            == text::decimal(n),
{
    let d = text::decimal(n);
    let s = runtime::with_noughts(n, width as int);
    text::lemma_decimal_digits(n);
    text::lemma_decimal_reads_back(n, max);
    if d.len() < width {
        lemma_noughts_count_for_nothing((width - d.len()) as nat, d);
        assert(s =~= Seq::new((width - d.len()) as nat, |i: int| '0') + d);
    } else {
        assert(s =~= d);
    }
    assert forall|i: int| 0 <= i < s.len() implies text::is_digit(#[trigger] s[i]) by {
        if i >= s.len() - d.len() {
            assert(s[i] == d[i - (s.len() - d.len())]);
        }
    }
}

/// Two bars of one length start from each corner of the frame, one along each
/// of its sides. They are a twentieth as long as the shorter side of the hole,
/// and at least three times as long as they are thick.
pub proof fn law_corners_are_marked(l: guide::GuideTexLayout)
    requires
        l.centred(),
    ensures
        ({
            let c = guide::corner_bars(l);
            let b = guide::border_bars(l);
            let left = b[0].x;
            let right = b[0].x + b[0].w;
            let top = b[0].y;
            let bottom = b[1].y + b[1].h;
            &&& c.len() == 8
            &&& c[0].x == c[1].x == c[4].x == c[5].x == left
            &&& c[2].x + c[2].w == c[3].x + c[3].w == c[6].x + c[6].w == c[7].x + c[7].w == right
            &&& c[0].y == c[1].y == c[2].y == c[3].y == top
            &&& c[4].y + c[4].h == c[5].y + c[5].h == c[6].y + c[6].h == c[7].y + c[7].h == bottom
            &&& c[0].h == c[2].h == c[4].h == c[6].h == 60
            &&& c[1].w == c[3].w == c[5].w == c[7].w == 60
            &&& c[0].w == c[2].w == c[4].w == c[6].w == c[1].h
            &&& c[1].h == c[3].h == c[5].h == c[7].h
            &&& l.hole_w <= l.hole_h && l.hole_w >= 180 ==> c[0].w == l.hole_w
            &&& l.hole_h <= l.hole_w && l.hole_h >= 180 ==> c[0].w == l.hole_h
            &&& l.hole_w < 180 || l.hole_h < 180 ==> c[0].w == 180
        }),
{
}

/// The chip below the hole is 1.6 times as high as its text, which is as high
/// as the caption and stands on a line within the chip.
pub proof fn law_chip_holds_its_text(w: u32, h: u32)
    requires
        w > 0,
        h > 0,
        guide::fits(w, h),
    ensures
        ({
            let l = guide::layout_of(w, h);
            let chip = guide::chip_box(l);
            let size = guide::caption_row(l, false).size;
            let below = chip.top - (l.hole_y + l.hole_h) * 5_000;
            &&& chip.text.size == size
            &&& 5 * chip.height <= 8 * size < 5 * chip.height + 5
            &&& 5 * below <= 2 * size < 5 * below + 5
            &&& 2 * chip.pad <= size < 2 * chip.pad + 2
            &&& 25 * (chip.text.baseline - chip.top) <= 28 * size < 25 * (chip.text.baseline
                - chip.top) + 25
        }),
{
}

/// What went well is mostly green, what did not mostly red, and only the ground
/// lets something through.
pub proof fn law_inks(ink: Ink)
    ensures
        ink == Ink::Red || ink == Ink::Negative ==> ink.color().r > ink.color().g && ink.color().r
            > ink.color().b,
        ink == Ink::Positive ==> ink.color().g > ink.color().r && ink.color().g > ink.color().b,
        ink == Ink::Blue ==> ink.color().b > ink.color().g && ink.color().g > ink.color().r,
        ink == Ink::Amber ==> ink.color().r > ink.color().g && ink.color().g > ink.color().b,
        ink.color().a == 255 <==> ink != Ink::Ground,
        Ink::Plain.color().r > Ink::Weak.color().r && Ink::Weak.color().r > Ink::Ground.color().r,
{
}

/// A count that rose is shown as a gain, one that fell as a loss.
pub proof fn law_counts_show_gain_and_loss(item: DeltaView, y: int)
    ensures
        item.after matches Some(n) ==> {
            let ink = ocr_render::item_lines(item, y)[1].ink;
            &&& ink == Ink::Positive <==> n > item.before
            &&& ink == Ink::Negative <==> n < item.before
        },
        item.after is None ==> ocr_render::item_lines(item, y)[1].ink == Ink::Amber,
{
}

/// A card of a failure tells what failed, and one of an unknown upgrade which is
/// missing; the titles say which it is.
pub proof fn law_cards_tell_what_is_wrong(
    msg: Seq<char>,
    hint: Option<Seq<char>>,
    level: u32,
    y: int,
)
    ensures
        ocr_render::body_lines(FeedbackView::Failed(msg), y).last().text == msg,
        ocr_render::body_lines(
            (FeedbackView::UnknownUpgrade { module_hint: hint, current_level: level }),
            y,
        )[0].text == ocr_render::missing_label(hint, level),
        ocr_render::title_of_card(FeedbackView::Failed(msg)) == "OCR failed"@,
        ocr_render::title_of_card(
            (FeedbackView::UnknownUpgrade { module_hint: hint, current_level: level }),
        ) == "Unknown upgrade"@,
        ocr_render::title_of_card(FeedbackView::NotAPanel) == "Not an upgrade panel"@,
{
}

} // verus!
