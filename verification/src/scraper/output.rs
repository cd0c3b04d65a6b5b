//! What the scraper writes: the provenance file, the log of what could not be
//! read, and the icons.

use crate::ids;
use crate::sorting;
use crate::text;
use crate::ids::IdSet;
use crate::scraper::items::ItemCatalog;
use crate::scraper::json;
use crate::scraper::json::{read_member, MemberView};
use crate::scraper::model::ScrapedData;
use crate::scraper::tasks::{UnparsedObjective, UnparsedView};
use crate::text::{chars_of, join, string_from};
use crate::imaging;
use crate::imaging::{decode_picture, encode_png, fit_picture, picture_sides, PictureView};
use vstd::prelude::*;
use vstd::string::*;

verus! {

pub const ICON_DIR_NAME: &'static str = "icons";

/// The largest width and height of an icon that ships.
pub const ICON_TARGET_PX: u32 = 128;

/// Which icons were written and which could not be.
#[derive(Debug)]
pub struct WriteOutcome {
    pub icons_written: usize,
    pub icons_missing: Vec<String>,
}

/// The body of the provenance file.
pub open spec fn source_md_text(
    repo: Seq<char>,
    commit: Seq<char>,
    version: Seq<char>,
    ts: Seq<char>,
    out: Seq<char>,
) -> Seq<char> {
    "# Source provenance\n\n- **Upstream repo:** "@ + repo + "\n- **Commit:** `"@ + commit
        + "`\n- **Game/data version:** `"@ + version + "`\n- **Scraped at:** "@ + ts
        + "\n\nRegenerate with:\n\n```\ncargo run -p scraper -- --output "@ + out + "\n```\n"@
}

/// The body of the provenance file of `data`, written to the directory
/// `out_dir`.
pub fn source_md(data: &ScrapedData, out_dir: &str) -> (r: String)
    ensures
        r@ == source_md_text(
            data.source_repo@,
            data.source_commit@,
            data.data_version@,
            data.scraped_at@,
            out_dir@,
        ),
{
    let mut r: String = "# Source provenance\n\n- **Upstream repo:** ".to_owned();
    r.append(data.source_repo.as_str());
    r.append("\n- **Commit:** `");
    r.append(data.source_commit.as_str());
    r.append("`\n- **Game/data version:** `");
    r.append(data.data_version.as_str());
    r.append("`\n- **Scraped at:** ");
    r.append(data.scraped_at.as_str());
    r.append("\n\nRegenerate with:\n\n```\ncargo run -p scraper -- --output ");
    r.append(out_dir);
    r.append("\n```\n");
    r
}

/// `s` without the slashes at its front.
pub open spec fn without_slashes(s: Seq<char>) -> Seq<char>
    decreases s.len(),
{
    if s.len() > 0 && s[0] == '/' {
        without_slashes(s.drop_first())
    } else {
        s
    }
}

/// The path of an upstream icon below the root of the checkout, with `/`
/// between its parts.
pub fn upstream_path_for(rel: &str) -> (r: String)
    ensures
        r@ == "public/"@ + without_slashes(rel@),
{
    let chars: Vec<char> = chars_of(rel);
    let mut n: usize = 0;
    assert(rel@.skip(0) =~= rel@);
    while n < chars.len() && chars[n] == '/'
        invariant
            n <= chars@.len(),
            chars@ == rel@,
            without_slashes(rel@) == without_slashes(rel@.skip(n as int)),
        decreases chars@.len() - n,
    {
        assert(rel@.skip(n as int).drop_first() =~= rel@.skip(n + 1));
        n += 1;
    }
    let end: usize = chars.len();
    assert(rel@.skip(n as int) =~= chars@.subrange(n as int, end as int));
    let mut r: String = "public/".to_owned();
    r.append(string_from(chars.as_slice(), n, end).as_str());
    r
}

/// One line of the log.
pub open spec fn log_line(u: UnparsedView) -> Seq<char> {
    "["@ + u.task_id + "] "@ + u.objective + " :: "@ + u.reason
}

/// The lines of the log.
pub open spec fn log_lines(us: Seq<UnparsedView>) -> Seq<Seq<char>> {
    Seq::new(us.len(), |i: int| log_line(us[i]))
}

/// The log of what could not be read, a line for each.
pub fn unparsed_log(us: &Vec<UnparsedObjective>) -> (r: String)
    ensures
        r@ == text::joined(log_lines(sorting::views(us@)), "\n"@),
{
    let ghost all = log_lines(sorting::views(us@));
    let mut lines: Vec<String> = Vec::new();
    let mut i: usize = 0;
    while i < us.len()
        invariant
            i <= us@.len(),
            all == log_lines(sorting::views(us@)),
            ids::texts(lines@) == all.take(i as int),
        decreases us@.len() - i,
    {
        let u: &UnparsedObjective = &us[i];
        let mut line: String = "[".to_owned();
        line.append(u.task_id.as_str());
        line.append("] ");
        line.append(u.objective.as_str());
        line.append(" :: ");
        line.append(u.reason.as_str());
        let ghost before = ids::texts(lines@);
        assert(line@ == all[i as int]);
        lines.push(line);
        assert(ids::texts(lines@) =~= before.push(all[i as int]));
        assert(all.take(i + 1) =~= before.push(all[i as int]));
        i += 1;
    }
    assert(all.take(all.len() as int) =~= all);
    join(&lines, "\n")
}

/// The version of the data: that of the upstream package, and the first seven
/// characters of the commit.
pub fn data_version_of(version: &str, commit: &str) -> (r: String)
    ensures
        r@ == version@ + "+"@ + commit@.take(
            if commit@.len() < 7 {
                commit@.len() as int
            } else {
                7
            },
        ),
{
    let chars: Vec<char> = chars_of(commit);
    let n: usize = if chars.len() < 7 {
        chars.len()
    } else {
        7
    };
    let short: String = string_from(chars.as_slice(), 0, n);
    assert(short@ =~= commit@.take(n as int));
    let mut r: String = version.to_owned();
    r.append("+");
    r.append(short.as_str());
    r
}

/// Whether an icon is larger than what ships, so that it is scaled down to
/// fit.
pub fn needs_scaling(width: u32, height: u32) -> (r: bool)
    ensures
        r == (width > ICON_TARGET_PX || height > ICON_TARGET_PX),
{
    width > ICON_TARGET_PX || height > ICON_TARGET_PX
}

/// An icon as it ships: a PNG file, and its sides.
#[derive(Debug)]
pub struct Icon {
    pub png: Vec<u8>,
    pub w: u32,
    pub h: u32,
}

/// Whether a picture may ship as `out`: as it is, or scaled down to fit where
/// it is too large.
pub open spec fn ships_as(from: PictureView, out: PictureView) -> bool {
    let (w, h) = from.0;
    let (iw, ih) = out.0;
    if w > ICON_TARGET_PX || h > ICON_TARGET_PX {
        &&& imaging::resize_may_give(from, (ICON_TARGET_PX, ICON_TARGET_PX), out)
        &&& 1 <= iw <= ICON_TARGET_PX
        &&& 1 <= ih <= ICON_TARGET_PX
        &&& w >= h ==> iw == ICON_TARGET_PX && imaging::in_proportion(ih, h, w, ICON_TARGET_PX)
        &&& h >= w ==> ih == ICON_TARGET_PX && imaging::in_proportion(iw, w, h, ICON_TARGET_PX)
    } else {
        out == from
    }
}

/// Turns the icon that a file holds into what ships. There is none where the
/// file cannot be decoded, or the result not encoded.
pub fn convert_icon(bytes: &[u8]) -> (r: Option<Icon>)
    ensures
        match r {
            Some(icon) => exists|from: PictureView, out: PictureView| #[trigger]
                ships_as(from, out) && imaging::decode_may_give(bytes@, Some(from)) && out.0 == (
                    icon.w,
                    icon.h,
                ) && imaging::png_may_give(out, Some(icon.png@)),
            None => imaging::decode_may_give(bytes@, None) || exists|
                from: PictureView,
                out: PictureView,
            | #[trigger]
                ships_as(from, out) && imaging::decode_may_give(bytes@, Some(from))
                    && imaging::png_may_give(out, None),
        },
{
    let picture: image::DynamicImage = match decode_picture(bytes) {
        Some(p) => p,
        None => {
            return None;
        },
    };
    let ghost from = (imaging::sides_of(picture), imaging::samples_of(picture));
    let (w, h): (u32, u32) = picture_sides(&picture);
    let scaled: image::DynamicImage = if needs_scaling(w, h) {
        fit_picture(&picture, ICON_TARGET_PX)
    } else {
        picture
    };
    let (iw, ih): (u32, u32) = picture_sides(&scaled);
    assert(ships_as(from, (imaging::sides_of(scaled), imaging::samples_of(scaled))));
    match encode_png(&scaled) {
        Some(png) => Some(Icon { png, w: iw, h: ih }),
        None => None,
    }
}

/// What is to be done for an item's icon.
#[derive(Debug)]
pub enum IconPlan {
    /// The item is not in the catalog, or has no icon there.
    Missing { id: String },
    /// Read the icon at `source` below the root of the checkout, and write it
    /// to `dest` below the output directory.
    Convert { id: String, source: String, dest: String },
}

/// What an [`IconPlan`] says.
#[verifier::ext_equal]
pub enum IconPlanView {
    Missing { id: Seq<char> },
    Convert { id: Seq<char>, source: Seq<char>, dest: Seq<char> },
}

impl View for IconPlan {
    type V = IconPlanView;

    open spec fn view(&self) -> IconPlanView {
        match *self {
            IconPlan::Missing { id } => IconPlanView::Missing { id: id@ },
            IconPlan::Convert { id, source, dest } => IconPlanView::Convert {
                id: id@,
                source: source@,
                dest: dest@,
            },
        }
    }
}

/// What is to be done for the icon of the item `id`.
pub open spec fn icon_plan(catalog: ItemCatalog, id: Seq<char>) -> IconPlanView {
    if catalog.items@.contains_key(id) {
        match catalog.items@[id].upstream_icon {
            Some(rel) => IconPlanView::Convert {
                id,
                source: "public/"@ + without_slashes(rel@),
                dest: ICON_DIR_NAME@ + "/"@ + id + ".png"@,
            },
            None => IconPlanView::Missing { id },
        }
    } else {
        IconPlanView::Missing { id }
    }
}

/// What is to be done for the icons of the items `ids`, one after the other.
pub fn plan_icons(catalog: &ItemCatalog, ids: &IdSet) -> (r: Vec<IconPlan>)
    ensures
        sorting::views(r@) == ids.order().map_values(|id: Seq<char>| icon_plan(*catalog, id)),
{
    let ghost all = ids.order().map_values(|id: Seq<char>| icon_plan(*catalog, id));
    let mut r: Vec<IconPlan> = Vec::new();
    let mut i: usize = 0;
    while i < ids.len()
        invariant
            i <= ids.order().len(),
            all == ids.order().map_values(|id: Seq<char>| icon_plan(*catalog, id)),
            sorting::views(r@) == all.take(i as int),
        decreases ids.order().len() - i,
    {
        let id: &String = ids.at(i);
        let plan: IconPlan = match catalog.items.get(id.as_str()) {
            Some(rec) => match &rec.upstream_icon {
                Some(rel) => {
                    let mut dest: String = ICON_DIR_NAME.to_owned();
                    dest.append("/");
                    dest.append(id.as_str());
                    dest.append(".png");
                    IconPlan::Convert {
                        id: id.clone(),
                        source: upstream_path_for(rel.as_str()),
                        dest,
                    }
                },
                None => IconPlan::Missing { id: id.clone() },
            },
            None => IconPlan::Missing { id: id.clone() },
        };
        let ghost before = sorting::views(r@);
        assert(plan@ == all[i as int]);
        r.push(plan);
        assert(sorting::views(r@) =~= before.push(all[i as int]));
        assert(all.take(i + 1) =~= before.push(all[i as int]));
        i += 1;
    }
    assert(all.take(all.len() as int) =~= all);
    r
}

impl WriteOutcome {
    /// Nothing written yet.
    pub fn new() -> (r: Self)
        ensures
            r.icons_written == 0,
            ids::texts(r.icons_missing@) == Seq::<Seq<char>>::empty(),
    {
        let r = WriteOutcome { icons_written: 0, icons_missing: Vec::new() };
        assert(ids::texts(r.icons_missing@) =~= Seq::<Seq<char>>::empty());
        r
    }

    /// Takes in how the icon of the item `id` went.
    pub fn record(&mut self, id: &String, written: bool)
        requires
            old(self).icons_written < usize::MAX,
        ensures
            final(self).icons_written == old(self).icons_written + if written {
                1int
            } else {
                0
            },
            ids::texts(final(self).icons_missing@) == if written {
                ids::texts(old(self).icons_missing@)
            } else {
                ids::texts(old(self).icons_missing@).push(id@)
            },
    {
        if written {
            self.icons_written = self.icons_written + 1;
        } else {
            let ghost before = ids::texts(self.icons_missing@);
            self.icons_missing.push(id.clone());
            assert(ids::texts(self.icons_missing@) =~= before.push(id@));
        }
    }
}

/// The modules that are carried over, as JSON: those of the file, where it
/// could be read and has any.
pub open spec fn carried_modules(read: Result<Option<MemberView>, Seq<char>>) -> Seq<char> {
    match read {
        Ok(Some(m)) => m.1,
        _ => "[]"@,
    }
}

/// The modules that are carried over, as JSON, by what was read of them.
pub fn modules_or_empty(modules: Option<String>) -> (r: String)
    ensures
        r@ == match modules {
            Some(m) => m@,
            None => "[]"@,
        },
{
    match modules {
        Some(m) => m,
        None => "[]".to_owned(),
    }
}

/// The modules of an existing data file, which are written by hand and carried
/// over as they are, as JSON. Without such a file, or where it is no JSON or
/// has none, the list is empty.
pub fn read_existing_modules(file: Option<&str>) -> (r: String)
    ensures
        r@ == match file {
            Some(text) => carried_modules(json::json_member(text@, "modules"@)),
            None => "[]"@,
        },
{
    match file {
        Some(text) => match read_member(text, "modules") {
            Ok(Some(m)) => modules_or_empty(Some(m.1)),
            Ok(None) => modules_or_empty(None),
            Err(_) => modules_or_empty(None),
        },
        None => modules_or_empty(None),
    }
}

} // verus!
