//! The text recognizer: how it is called, and how its table of words is read.

use crate::ids;
use crate::sorting;
use crate::text;
use crate::text::{decimal_string, lines, parse_i32, same_text, split_chars, string_of, trim_chars};
use vstd::prelude::*;
use vstd::string::*;

verus! {

/// A rectangle of pixels.
#[derive(Debug, Clone, Copy, PartialEq, Eq, Structural)]
pub struct BBox {
    pub x: u32,
    pub y: u32,
    pub w: u32,
    pub h: u32,
}

/// A recognized word. The confidence is in millionths of a percent.
#[derive(Debug)]
pub struct Word {
    pub text: String,
    pub bbox: BBox,
    pub confidence: i64,
}

/// One percent of confidence.
pub const PERCENT: i64 = 1_000_000;

/// What a [`Word`] says.
#[verifier::ext_equal]
pub struct WordView {
    pub text: Seq<char>,
    pub bbox: BBox,
    pub confidence: i64,
}

impl View for Word {
    type V = WordView;

    open spec fn view(&self) -> WordView {
        WordView { text: self.text@, bbox: self.bbox, confidence: self.confidence }
    }
}

/// How the page is laid out.
#[derive(Debug, Clone, Copy, PartialEq, Eq, Structural)]
pub enum Psm {
    /// A single uniform block of text.
    Block,
    /// A single line.
    Line,
    /// A single word.
    Word,
    /// Scattered text.
    Sparse,
}

impl Psm {
    /// The number of the mode on the command line.
    pub open spec fn code(self) -> u8 {
        match self {
            Psm::Block => 6,
            Psm::Line => 7,
            Psm::Word => 8,
            Psm::Sparse => 11,
        }
    }

    /// The number of the mode on the command line.
    pub fn as_int(self) -> (r: u8)
        ensures
            r == self.code(),
    {
        match self {
            Psm::Block => 6,
            Psm::Line => 7,
            Psm::Word => 8,
            Psm::Sparse => 11,
        }
    }
}

/// How a pass is to be made.
#[derive(Debug)]
pub struct OcrOptions {
    pub psm: Option<Psm>,
    /// The characters that may occur.
    pub whitelist: Option<String>,
}

impl Default for OcrOptions {
    fn default() -> (r: Self)
        ensures
            r.psm is None,
            r.whitelist is None,
    {
        OcrOptions { psm: None, whitelist: None }
    }
}

/// The recognizer's command.
#[derive(Debug)]
pub struct TesseractCli {
    pub exe: String,
}

/// The places where the command is looked for, in order. `local` is the
/// directory of programs that the user installed.
pub open spec fn tesseract_places(windows: bool, local: Option<Seq<char>>) -> Seq<Seq<char>> {
    let first = seq!["tesseract"@];
    if !windows {
        first
    } else {
        let installed = first.push(r"C:\Program Files\Tesseract-OCR\tesseract.exe"@).push(
            r"C:\Program Files (x86)\Tesseract-OCR\tesseract.exe"@,
        );
        match local {
            Some(dir) => installed.push(dir + r"\Programs\Tesseract-OCR\tesseract.exe"@),
            None => installed,
        }
    }
}

/// The arguments of a pass that reads the image at `in_path` and writes its
/// table beside `out_stem`.
pub open spec fn pass_args(
    in_path: Seq<char>,
    out_stem: Seq<char>,
    psm: Option<Psm>,
    whitelist: Option<Seq<char>>,
) -> Seq<Seq<char>> {
    let mode = match psm {
        Some(p) => p,
        None => Psm::Block,
    };
    let base = seq![
        in_path,
        out_stem,
        "-l"@,
        "eng"@,
        "--psm"@,
        text::decimal(mode.code() as nat),
        "--oem"@,
        "1"@,
        "tsv"@,
    ];
    match whitelist {
        Some(chars) => base.push("-c"@).push("tessedit_char_whitelist="@ + chars),
        None => base,
    }
}

impl TesseractCli {
    /// The places where the command is looked for, in order.
    pub fn candidates(windows: bool, local: Option<String>) -> (r: Vec<String>)
        ensures
            ids::texts(r@) == tesseract_places(windows, text::opt_text(local)),
    {
        let mut r: Vec<String> = Vec::new();
        r.push("tesseract".to_owned());
        if windows {
            r.push(r"C:\Program Files\Tesseract-OCR\tesseract.exe".to_owned());
            r.push(r"C:\Program Files (x86)\Tesseract-OCR\tesseract.exe".to_owned());
            match &local {
                Some(dir) => {
                    let mut place: String = dir.clone();
                    place.append(r"\Programs\Tesseract-OCR\tesseract.exe");
                    r.push(place);
                },
                None => {},
            }
        }
        assert(ids::texts(r@) =~= tesseract_places(windows, text::opt_text(local)));
        r
    }

    /// Whether a candidate that was asked for its version is taken: it
    /// succeeded, or at least said something.
    pub fn answers(success: bool, stderr_len: usize) -> (r: bool)
        ensures
            r == (success || stderr_len > 0),
    {
        success || stderr_len > 0
    }

    /// The arguments of a pass.
    pub fn args(&self, in_path: &str, out_stem: &str, opts: &OcrOptions) -> (r: Vec<String>)
        ensures
            ids::texts(r@) == pass_args(in_path@, out_stem@, opts.psm, text::opt_text(opts.whitelist)),
    {
        let mode: Psm = match opts.psm {
            Some(p) => p,
            None => Psm::Block,
        };
        let mut r: Vec<String> = Vec::new();
        r.push(in_path.to_owned());
        r.push(out_stem.to_owned());
        r.push("-l".to_owned());
        r.push("eng".to_owned());
        r.push("--psm".to_owned());
        r.push(decimal_string(mode.as_int() as u64));
        r.push("--oem".to_owned());
        r.push("1".to_owned());
        r.push("tsv".to_owned());
        match &opts.whitelist {
            Some(chars) => {
                r.push("-c".to_owned());
                let mut setting: String = "tessedit_char_whitelist=".to_owned();
                setting.append(chars.as_str());
                r.push(setting);
            },
            None => {},
        }
        assert(ids::texts(r@) =~= pass_args(in_path@, out_stem@, opts.psm, text::opt_text(opts.whitelist)));
        r
    }
}

/// A word of the table, with its confidence as it is written there.
#[derive(Debug)]
pub struct TsvWord {
    pub text: String,
    pub bbox: BBox,
    pub conf: String,
}

/// What a [`TsvWord`] says.
#[verifier::ext_equal]
pub struct TsvWordView {
    pub text: Seq<char>,
    pub bbox: BBox,
    pub conf: Seq<char>,
}

impl View for TsvWord {
    type V = TsvWordView;

    open spec fn view(&self) -> TsvWordView {
        TsvWordView { text: self.text@, bbox: self.bbox, conf: self.conf@ }
    }
}

/// A coordinate that is not below zero.
pub open spec fn not_below_zero(v: int) -> u32 {
    if v < 0 {
        0
    } else {
        v as u32
    }
}

/// The word of one line of the table, where it holds one: the columns are
/// level, page, block, paragraph, line, word, left, top, width, height,
/// confidence and text, and a word has level 5.
pub open spec fn word_of_line(line: Seq<char>) -> Option<TsvWordView> {
    let cols = text::split_at_char(line, '\t');
    let min = i32::MIN as int;
    let max = i32::MAX as int;
    if cols.len() < 12 || cols[0] != "5"@ || text::trimmed(cols[11]).len() == 0 {
        None
    } else {
        match (
            text::parsed_int(cols[6], min, max),
            text::parsed_int(cols[7], min, max),
            text::parsed_int(cols[8], min, max),
            text::parsed_int(cols[9], min, max),
        ) {
            (Some(x), Some(y), Some(w), Some(h)) => if w <= 0 || h <= 0 {
                None
            } else {
                Some(
                    TsvWordView {
                        text: text::trimmed(cols[11]),
                        bbox: BBox {
                            x: not_below_zero(x),
                            y: not_below_zero(y),
                            w: w as u32,
                            h: h as u32,
                        },
                        conf: cols[10],
                    },
                )
            },
            _ => None,
        }
    }
}

/// The words of lines, in order.
pub open spec fn words_of(lines: Seq<Seq<char>>) -> Seq<TsvWordView>
    decreases lines.len(),
{
    if lines.len() == 0 {
        Seq::empty()
    } else {
        let before = words_of(lines.drop_last());
        match word_of_line(lines.last()) {
            Some(w) => before.push(w),
            None => before,
        }
    }
}

/// The words of a table: the first line holds the headings.
pub open spec fn table_words(tsv: Seq<char>) -> Seq<TsvWordView> {
    let ls = text::lines_of(tsv);
    if ls.len() == 0 {
        Seq::empty()
    } else {
        words_of(ls.drop_first())
    }
}

fn read_line(line: &Vec<char>) -> (r: Option<TsvWord>)
    ensures
        match r {
            Some(w) => word_of_line(line@) == Some(w@),
            None => word_of_line(line@) is None,
        },
{
    let cols: Vec<Vec<char>> = split_chars(line.as_slice(), '\t');
    let ghost all = text::pieces(cols@);
    assert(all.len() == cols@.len());
    if cols.len() < 12 {
        return None;
    }
    assert(forall|i: int| 0 <= i < all.len() ==> #[trigger] all[i] == cols@[i]@);
    if !same_text(string_of(cols[0].as_slice()).as_str(), "5") {
        return None;
    }
    let text: Vec<char> = trim_chars(cols[11].as_slice());
    if text.len() == 0 {
        return None;
    }
    let x: Option<i32> = parse_i32(cols[6].as_slice());
    let y: Option<i32> = parse_i32(cols[7].as_slice());
    let w: Option<i32> = parse_i32(cols[8].as_slice());
    let h: Option<i32> = parse_i32(cols[9].as_slice());
    match (x, y, w, h) {
        (Some(x), Some(y), Some(w), Some(h)) => {
            if w <= 0 || h <= 0 {
                return None;
            }
            let left: u32 = if x < 0 {
                0
            } else {
                x as u32
            };
            let top: u32 = if y < 0 {
                0
            } else {
                y as u32
            };
            Some(
                TsvWord {
                    text: string_of(text.as_slice()),
                    bbox: BBox { x: left, y: top, w: w as u32, h: h as u32 },
                    conf: string_of(cols[10].as_slice()),
                },
            )
        },
        _ => None,
    }
}

/// Reads the words out of the recognizer's table.
pub fn parse_tesseract_tsv(tsv: &str) -> (out: Vec<TsvWord>)
    ensures
        sorting::views(out@) == table_words(tsv@),
{
    let ls: Vec<Vec<char>> = lines(tsv);
    let ghost all = text::lines_of(tsv@);
    assert(all.len() == ls@.len());
    let mut out: Vec<TsvWord> = Vec::new();
    assert(sorting::views(out@) =~= Seq::<TsvWordView>::empty());
    if ls.len() == 0 {
        return out;
    }
    let ghost rest = all.drop_first();
    let mut i: usize = 1;
    assert(rest.take(0) =~= Seq::<Seq<char>>::empty());
    while i < ls.len()
        invariant
            1 <= i <= ls@.len(),
            all == text::pieces(ls@),
            rest == all.drop_first(),
            sorting::views(out@) == words_of(rest.take(i - 1)),
        decreases ls@.len() - i,
    {
        assert(rest.take(i as int).drop_last() =~= rest.take(i - 1));
        assert(rest.take(i as int).last() == ls@[i as int]@);
        match read_line(&ls[i]) {
            Some(w) => {
                let ghost before = out@;
                out.push(w);
                assert(sorting::views(out@) =~= sorting::views(before).push(w@));
            },
            None => {},
        }
        i += 1;
    }
    assert(rest.take(rest.len() as int) =~= rest);
    out
}

} // verus!
