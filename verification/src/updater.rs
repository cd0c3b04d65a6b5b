//! The check for a newer release, and the progress of downloading one.

use crate::ids;
use crate::text;
use crate::text::{
    chars_of, has_end, has_part, parse_uint, push_decimal, split_chars, string_from, to_lowercase,
};
use vstd::prelude::*;
use vstd::string::*;

verus! {

/// The version of this build, which a check compares the latest release with.
pub const VERSION: &'static str = "0.1.0";

/// One downloadable file attached to a release.
#[derive(Debug)]
pub struct ReleaseAsset {
    pub name: String,
    pub url: String,
    pub size: u64,
}

/// What a [`ReleaseAsset`] says.
#[verifier::ext_equal]
pub struct AssetView {
    pub name: Seq<char>,
    pub url: Seq<char>,
    pub size: u64,
}

impl View for ReleaseAsset {
    type V = AssetView;

    open spec fn view(&self) -> AssetView {
        AssetView { name: self.name@, url: self.url@, size: self.size }
    }
}

impl Clone for ReleaseAsset {
    fn clone(&self) -> (r: Self)
        ensures
            r == *self,
    {
        ReleaseAsset { name: self.name.clone(), url: self.url.clone(), size: self.size }
    }
}

/// A release that is newer than the running build.
#[derive(Debug)]
pub struct UpdateInfo {
    /// Version without a leading `v`.
    pub latest_version: String,
    /// Page of the release.
    pub release_url: String,
    /// The installer, where one is attached: then an installed build can be
    /// upgraded in place.
    pub msi: Option<ReleaseAsset>,
}

/// State of the most recent update check.
#[derive(Debug)]
pub enum CheckStatus {
    /// The user turned the check off.
    Disabled,
    /// Running, no result yet.
    Checking,
    /// The running build is the latest release.
    UpToDate { latest_version: String },
    /// The running build is newer than the latest release.
    Ahead { latest_version: String },
    /// A newer release is available.
    UpdateAvailable(UpdateInfo),
    /// The check could not be completed.
    Failed { reason: String },
}

/// What a [`CheckStatus`] says.
#[verifier::ext_equal]
pub enum CheckView {
    Disabled,
    Checking,
    UpToDate { latest_version: Seq<char> },
    Ahead { latest_version: Seq<char> },
    UpdateAvailable { latest_version: Seq<char>, release_url: Seq<char>, msi: Option<AssetView> },
    Failed { reason: Seq<char> },
}

/// What an optional asset says.
pub open spec fn asset_view(a: Option<ReleaseAsset>) -> Option<AssetView> {
    match a {
        Some(x) => Some(x@),
        None => None,
    }
}

impl View for CheckStatus {
    type V = CheckView;

    open spec fn view(&self) -> CheckView {
        match *self {
            CheckStatus::Disabled => CheckView::Disabled,
            CheckStatus::Checking => CheckView::Checking,
            CheckStatus::UpToDate { latest_version } => CheckView::UpToDate {
                latest_version: latest_version@,
            },
            CheckStatus::Ahead { latest_version } => CheckView::Ahead {
                latest_version: latest_version@,
            },
            CheckStatus::UpdateAvailable(info) => CheckView::UpdateAvailable {
                latest_version: info.latest_version@,
                release_url: info.release_url@,
                msi: asset_view(info.msi),
            },
            CheckStatus::Failed { reason } => CheckView::Failed { reason: reason@ },
        }
    }
}

impl CheckStatus {
    /// The latest version, where the check confirmed that the running build
    /// is behind it. Every other state gives nothing, so that callers fail
    /// open.
    pub fn out_of_date_version(&self) -> (r: Option<&str>)
        ensures
            match r {
                Some(v) => self@ matches CheckView::UpdateAvailable { latest_version, .. } && v@
                    == latest_version,
                None => !(self@ is UpdateAvailable),
            },
    {
        match self {
            CheckStatus::UpdateAvailable(info) => Some(info.latest_version.as_str()),
            CheckStatus::Disabled => None,
            CheckStatus::Checking => None,
            CheckStatus::UpToDate { .. } => None,
            CheckStatus::Ahead { .. } => None,
            CheckStatus::Failed { .. } => None,
        }
    }
}

/// The latest published release.
#[derive(Debug)]
pub struct LatestRelease {
    pub tag_name: String,
    pub html_url: String,
    pub prerelease: bool,
    pub draft: bool,
    pub assets: Vec<ReleaseAsset>,
}

/// The length of the part of `s` before the first `-` or `+`.
pub open spec fn core_len(s: Seq<char>, from: int) -> int
    decreases s.len() - from,
{
    if from < 0 || from >= s.len() {
        s.len() as int
    } else if s[from] == '-' || s[from] == '+' {
        from
    } else {
        core_len(s, from + 1)
    }
}

/// The version that `s` writes: three numbers with dots between them. What
/// starts with `-` or `+` is left aside.
pub open spec fn semver(s: Seq<char>) -> Option<(u32, u32, u32)> {
    let parts = text::split_at_char(s.take(core_len(s, 0)), '.');
    if parts.len() != 3 {
        None
    } else {
        match (
            text::parsed_uint(parts[0], u32::MAX as nat),
            text::parsed_uint(parts[1], u32::MAX as nat),
            text::parsed_uint(parts[2], u32::MAX as nat),
        ) {
            (Some(a), Some(b), Some(c)) => Some((a as u32, b as u32, c as u32)),
            _ => None,
        }
    }
}

/// Reads a version of the form `MAJOR.MINOR.PATCH`, leaving a pre-release or
/// build suffix aside.
pub fn parse_semver(s: &str) -> (r: Option<(u32, u32, u32)>)
    ensures
        r == semver(s@),
{
    let chars: Vec<char> = chars_of(s);
    let mut n: usize = 0;
    while n < chars.len() && chars[n] != '-' && chars[n] != '+'
        invariant
            n <= chars@.len(),
            chars@ == s@,
            core_len(s@, 0) == core_len(s@, n as int),
        decreases chars@.len() - n,
    {
        n += 1;
    }
    let core: &[char] = vstd::slice::slice_subrange(chars.as_slice(), 0, n);
    assert(core@ =~= s@.take(core_len(s@, 0)));
    let parts: Vec<Vec<char>> = split_chars(core, '.');
    assert(text::pieces(parts@).len() == parts@.len());
    if parts.len() != 3 {
        return None;
    }
    let major: Option<u64> = parse_uint(parts[0].as_slice(), u32::MAX as u64);
    let minor: Option<u64> = parse_uint(parts[1].as_slice(), u32::MAX as u64);
    let patch: Option<u64> = parse_uint(parts[2].as_slice(), u32::MAX as u64);
    assert(text::pieces(parts@)[0] == parts@[0]@);
    assert(text::pieces(parts@)[1] == parts@[1]@);
    assert(text::pieces(parts@)[2] == parts@[2]@);
    match (major, minor, patch) {
        (Some(a), Some(b), Some(c)) => Some((a as u32, b as u32, c as u32)),
        _ => None,
    }
}

/// Whether the version `a` is older than `b`.
pub open spec fn older(a: (u32, u32, u32), b: (u32, u32, u32)) -> bool {
    a.0 < b.0 || a.0 == b.0 && (a.1 < b.1 || a.1 == b.1 && a.2 < b.2)
}

/// Of two versions one is older, or they are the same; and what is older than
/// an older one is older.
pub proof fn law_versions_are_ordered(
    a: (u32, u32, u32),
    b: (u32, u32, u32),
    c: (u32, u32, u32),
)
    ensures
        !older(a, a),
        older(a, b) ==> !older(b, a),
        older(a, b) || older(b, a) || a == b,
        older(a, b) && older(b, c) ==> older(a, c),
{
}

/// The position of the first name from `from` on that ends in `.msi` and,
/// where `installer` asks for it, holds `installer`.
pub open spec fn msi_from(lower: Seq<Seq<char>>, installer: bool, from: int) -> Option<int>
    decreases lower.len() - from,
{
    if from < 0 || from >= lower.len() {
        None
    } else if text::ends_with(lower[from], ".msi"@) && (installer ==> text::holds(lower[from], "installer"@)) {
        Some(from)
    } else {
        msi_from(lower, installer, from + 1)
    }
}

/// Which of the files is the installer, by their names in lower case: the
/// first `.msi` that is named an installer, else the first `.msi`.
pub open spec fn msi_choice(lower: Seq<Seq<char>>) -> Option<int> {
    match msi_from(lower, true, 0) {
        Some(i) => Some(i),
        None => msi_from(lower, false, 0),
    }
}

fn find_msi(lower: &Vec<String>, installer: bool) -> (r: Option<usize>)
    ensures
        match r {
            Some(i) => i < lower@.len() && msi_from(ids::texts(lower@), installer, 0) == Some(i as int),
            None => msi_from(ids::texts(lower@), installer, 0) is None,
        },
{
    let msi: Vec<char> = chars_of(".msi");
    let word: Vec<char> = chars_of("installer");
    let ghost names = ids::texts(lower@);
    let mut i: usize = 0;
    while i < lower.len()
        invariant
            i <= lower@.len(),
            names == ids::texts(lower@),
            msi@ == ".msi"@,
            word@ == "installer"@,
            msi_from(names, installer, 0) == msi_from(names, installer, i as int),
        decreases lower@.len() - i,
    {
        let name: Vec<char> = chars_of(lower[i].as_str());
        assert(name@ == names[i as int]);
        if has_end(name.as_slice(), msi.as_slice()) && (!installer || has_part(
            name.as_slice(),
            word.as_slice(),
        )) {
            return Some(i);
        }
        i += 1;
    }
    None
}

/// Which of the files is the installer, by their names in lower case.
pub fn choose_msi(lower: &Vec<String>) -> (r: Option<usize>)
    ensures
        match r {
            Some(i) => i < lower@.len() && msi_choice(ids::texts(lower@)) == Some(i as int),
            None => msi_choice(ids::texts(lower@)) is None,
        },
{
    match find_msi(lower, true) {
        Some(i) => Some(i),
        None => find_msi(lower, false),
    }
}

/// The names of the assets in lower case.
pub open spec fn lower_names(assets: Seq<ReleaseAsset>) -> Seq<Seq<char>> {
    Seq::new(assets.len(), |i: int| text::lowercase(assets[i].name@))
}

/// The installer among the files of a release. Any `.msi` will do, but one
/// that is named an installer is preferred.
pub fn pick_msi_asset(assets: &Vec<ReleaseAsset>) -> (r: Option<ReleaseAsset>)
    ensures
        match msi_choice(lower_names(assets@)) {
            Some(i) => r == Some(assets@[i]),
            None => r is None,
        },
{
    let mut lower: Vec<String> = Vec::new();
    let mut i: usize = 0;
    while i < assets.len()
        invariant
            i <= assets@.len(),
            ids::texts(lower@) == lower_names(assets@).take(i as int),
        decreases assets@.len() - i,
    {
        let ghost before = ids::texts(lower@);
        lower.push(to_lowercase(assets[i].name.as_str()));
        assert(ids::texts(lower@) =~= before.push(lower_names(assets@)[i as int]));
        assert(lower_names(assets@).take(i + 1) =~= before.push(lower_names(assets@)[i as int]));
        i += 1;
    }
    assert(lower_names(assets@).take(assets@.len() as int) =~= lower_names(assets@));
    match choose_msi(&lower) {
        Some(k) => Some(assets[k].clone()),
        None => None,
    }
}

/// `s` without the letters `v` at its front.
pub open spec fn without_v(s: Seq<char>) -> Seq<char>
    decreases s.len(),
{
    if s.len() > 0 && s[0] == 'v' {
        without_v(s.drop_first())
    } else {
        s
    }
}

fn strip_v(s: &str) -> (r: String)
    ensures
        r@ == without_v(s@),
{
    let chars: Vec<char> = chars_of(s);
    let mut n: usize = 0;
    assert(s@.skip(0) =~= s@);
    while n < chars.len() && chars[n] == 'v'
        invariant
            n <= chars@.len(),
            chars@ == s@,
            without_v(s@) == without_v(s@.skip(n as int)),
        decreases chars@.len() - n,
    {
        assert(s@.skip(n as int).drop_first() =~= s@.skip(n + 1));
        n += 1;
    }
    let end: usize = chars.len();
    assert(s@.skip(n as int) =~= chars@.subrange(n as int, end as int));
    string_from(chars.as_slice(), n, end)
}

/// What the check finds: of the running version, and of the release that was
/// fetched or the reason why none was.
pub open spec fn check_outcome(
    current_raw: Seq<char>,
    fetched: Result<LatestRelease, String>,
) -> CheckView {
    match semver(current_raw) {
        None => CheckView::Failed {
            reason: "could not parse own version `"@ + current_raw + "`"@,
        },
        Some(current) => match fetched {
            Err(reason) => CheckView::Failed { reason: reason@ },
            Ok(release) => {
                let latest_version = without_v(release.tag_name@);
                if release.draft || release.prerelease {
                    CheckView::UpToDate { latest_version: current_raw }
                } else {
                    match semver(latest_version) {
                        None => CheckView::Failed {
                            reason: "could not parse upstream version `"@ + release.tag_name@
                                + "`"@,
                        },
                        Some(latest) => if older(current, latest) {
                            CheckView::UpdateAvailable {
                                latest_version,
                                release_url: release.html_url@,
                                msi: match msi_choice(lower_names(release.assets@)) {
                                    Some(i) => Some(release.assets@[i]@),
                                    None => None,
                                },
                            }
                        } else if latest == current {
                            CheckView::UpToDate { latest_version }
                        } else {
                            CheckView::Ahead { latest_version }
                        },
                    }
                }
            },
        },
    }
}

fn quoted(before: &str, s: &str) -> (r: String)
    ensures
        r@ == before@ + s@ + "`"@,
{
    let mut r: String = before.to_owned();
    r.append(s);
    r.append("`");
    r
}

/// Compares the running version with the release that was fetched. Drafts and
/// pre-releases are never offered.
pub fn run(current_raw: &str, fetched: Result<LatestRelease, String>) -> (r: CheckStatus)
    ensures
        r@ == check_outcome(current_raw@, fetched),
{
    let current: (u32, u32, u32) = match parse_semver(current_raw) {
        Some(v) => v,
        None => {
            return CheckStatus::Failed {
                reason: quoted("could not parse own version `", current_raw),
            };
        },
    };
    let release: LatestRelease = match fetched {
        Ok(r) => r,
        Err(reason) => {
            return CheckStatus::Failed { reason };
        },
    };
    if release.draft || release.prerelease {
        return CheckStatus::UpToDate { latest_version: current_raw.to_owned() };
    }
    let latest_version: String = strip_v(release.tag_name.as_str());
    let latest: (u32, u32, u32) = match parse_semver(latest_version.as_str()) {
        Some(v) => v,
        None => {
            return CheckStatus::Failed {
                reason: quoted("could not parse upstream version `", release.tag_name.as_str()),
            };
        },
    };
    if is_older(current, latest) {
        let msi: Option<ReleaseAsset> = pick_msi_asset(&release.assets);
        CheckStatus::UpdateAvailable(
            UpdateInfo { latest_version, msi, release_url: release.html_url },
        )
    } else if !is_older(latest, current) {
        CheckStatus::UpToDate { latest_version }
    } else {
        CheckStatus::Ahead { latest_version }
    }
}

fn is_older(a: (u32, u32, u32), b: (u32, u32, u32)) -> (r: bool)
    ensures
        r == older(a, b),
{
    a.0 < b.0 || (a.0 == b.0 && (a.1 < b.1 || (a.1 == b.1 && a.2 < b.2)))
}

/// An update is offered only where a published release is newer than the
/// running version; whatever else happened the check fails open.
pub proof fn law_only_a_newer_release_is_offered(
    current_raw: Seq<char>,
    fetched: Result<LatestRelease, String>,
)
    ensures
        check_outcome(current_raw, fetched) is UpdateAvailable <==> {
            &&& fetched matches Ok(release)
            &&& !release.draft
            &&& !release.prerelease
            &&& semver(current_raw) matches Some(current)
            &&& semver(without_v(release.tag_name@)) matches Some(latest)
            &&& older(current, latest)
        },
{
}

/// Progress of applying an update.
#[derive(Debug)]
pub enum UpdateApplyStatus {
    /// None in progress.
    Idle,
    /// The installer is being downloaded. `total` is 0 when the size is not
    /// known.
    Downloading { received: u64, total: u64 },
    /// Downloaded; the byte count is being checked.
    Verifying,
    /// The installer lies at `path`.
    ReadyToInstall { path: String },
    /// The installer was started.
    Launching,
    /// Downloading or checking failed.
    Failed { reason: String },
}

/// How much of a download has arrived, and the percentage last reported.
#[derive(Debug, Clone, Copy, PartialEq, Eq, Structural)]
pub struct Download {
    pub received: u64,
    pub total: u64,
    /// 255 before anything was reported.
    pub last_pct: u8,
}

/// The whole percentage of `total` that `received` is. An unknown total has
/// none.
pub open spec fn percent_of(received: u64, total: u64) -> Option<int> {
    if total == 0 {
        None
    } else {
        let part: int = if received < total {
            received as int
        } else {
            total as int
        };
        let scaled: int = if part * 100 > u64::MAX {
            u64::MAX as int
        } else {
            part * 100
        };
        Some(scaled / total as int)
    }
}

impl Download {
    /// Nothing has arrived yet. The size that the server gives is preferred to
    /// the one that the release lists.
    pub fn new(content_length: Option<u64>, listed: u64) -> (r: Self)
        ensures
            r.received == 0,
            r.total == match content_length {
                Some(n) => n,
                None => listed,
            },
            r.last_pct == u8::MAX,
    {
        let total: u64 = match content_length {
            Some(n) => n,
            None => listed,
        };
        Download { received: 0, total, last_pct: u8::MAX }
    }

    /// Takes in a chunk of `n` bytes. Progress is reported only when the whole
    /// percentage changes.
    pub fn chunk(&mut self, n: u64) -> (r: Option<UpdateApplyStatus>)
        requires
            old(self).received + n <= u64::MAX,
        ensures
            final(self).received == old(self).received + n,
            final(self).total == old(self).total,
            match percent_of(final(self).received, final(self).total) {
                Some(pct) => final(self).last_pct == pct,
                None => final(self).last_pct == old(self).last_pct,
            },
            match r {
                Some(status) => {
                    &&& final(self).last_pct != old(self).last_pct
                    &&& status == (UpdateApplyStatus::Downloading {
                        received: final(self).received,
                        total: final(self).total,
                    })
                },
                None => final(self).last_pct == old(self).last_pct,
            },
    {
        self.received = self.received + n;
        if self.total == 0 {
            return None;
        }
        let part: u64 = if self.received < self.total {
            self.received
        } else {
            self.total
        };
        let scaled: u64 = if part > u64::MAX / 100 {
            u64::MAX
        } else {
            part * 100
        };
        let pct64: u64 = scaled / self.total;
        proof {
            lemma_percent_fits(part, self.total, scaled);
        }
        let pct: u8 = pct64 as u8;
        if pct != self.last_pct {
            self.last_pct = pct;
            Some(UpdateApplyStatus::Downloading { received: self.received, total: self.total })
        } else {
            None
        }
    }

    /// Whether what has arrived is as long as the release lists. An unlisted
    /// size is not checked.
    pub fn finish(&self, listed: u64) -> (r: Result<(), String>)
        ensures
            r is Ok <==> listed == 0 || self.received == listed,
            r matches Err(reason) ==> reason@ == "size mismatch: got "@ + text::decimal(
                self.received as nat,
            ) + " bytes, expected "@ + text::decimal(listed as nat),
    {
        if listed > 0 && self.received != listed {
            let mut reason: String = "size mismatch: got ".to_owned();
            push_decimal(&mut reason, self.received);
            reason.append(" bytes, expected ");
            push_decimal(&mut reason, listed);
            return Err(reason);
        }
        Ok(())
    }
}

proof fn lemma_percent_fits(part: u64, total: u64, scaled: u64)
    requires
        0 < total,
        part <= total,
        scaled == if part > u64::MAX / 100 {
            u64::MAX as int
        } else {
            part * 100
        },
    ensures
        scaled as int / total as int <= 100,
        (part > u64::MAX / 100) == (part * 100 > u64::MAX),
{
    assert(scaled <= 100 * total) by {
        if part > u64::MAX / 100 {
            assert(u64::MAX <= 100 * part);
        }
    }
    assert(scaled as int / total as int <= 100) by (nonlinear_arith)
        requires
            0 < total,
            scaled <= 100 * total,
    ;
}

} // verus!
