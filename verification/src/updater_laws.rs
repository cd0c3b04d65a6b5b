//! Which release is offered, and how far a download is.

use crate::text;
use crate::text_laws;
use crate::updater;
use crate::updater::{CheckView, Download, LatestRelease, UpdateApplyStatus};
use vstd::prelude::*;
use vstd::string::*;

verus! {

/// Three numbers with dots between them are a version, whatever follows a
/// hyphen or a plus.
pub proof fn law_versions_read_back(a: u32, b: u32, c: u32, tail: Seq<char>)
    requires
        tail.len() == 0 || tail[0] == '-' || tail[0] == '+',
    ensures
        updater::semver(
            text::decimal(a as nat) + seq!['.'] + text::decimal(b as nat) + seq!['.']
                + text::decimal(c as nat) + tail,
        ) == Some((a, b, c)),
{
    let x = text::decimal(a as nat);
    let y = text::decimal(b as nat);
    let z = text::decimal(c as nat);
    let core = x + seq!['.'] + y + seq!['.'] + z;
    let s = core + tail;
    text::lemma_decimal_digits(a as nat);
    text::lemma_decimal_digits(b as nat);
    text::lemma_decimal_digits(c as nat);
    text::lemma_decimal_reads_back(a as nat, u32::MAX as nat);
    text::lemma_decimal_reads_back(b as nat, u32::MAX as nat);
    text::lemma_decimal_reads_back(c as nat, u32::MAX as nat);
    assert forall|i: int| 0 <= i < core.len() implies s[i] != '-' && #[trigger] s[i] != '+' by {
        assert(s[i] == core[i]);
        if i < x.len() {
            assert(core[i] == x[i]);
        } else if i == x.len() {
            assert(core[i] == '.');
        } else if i < x.len() + 1 + y.len() {
            assert(core[i] == y[i - x.len() - 1]);
        } else if i == x.len() + 1 + y.len() {
            assert(core[i] == '.');
        } else {
            assert(core[i] == z[i - x.len() - y.len() - 2]);
        }
    }
    lemma_core(s, 0, core.len() as int);
    assert(s.take(core.len() as int) =~= core);
    let parts = seq![x, y, z];
    assert forall|i: int| 0 <= i < parts.len() implies !(#[trigger] parts[i]).contains('.') by {
        if parts[i].contains('.') {
            let k = choose|k: int| 0 <= k < parts[i].len() && parts[i][k] == '.';
            assert(text::is_digit(parts[i][k]));
        }
    }
    assert(text::joined(parts, seq!['.']) == core) by {
        reveal_with_fuel(text::joined, 3);
        assert(parts.drop_last() =~= seq![x, y]);
        assert(parts.drop_last().drop_last() =~= seq![x]);
        assert(text::joined(parts, seq!['.']) =~= core);
    }
    text_laws::law_split_pieces(parts, '.');
}

proof fn lemma_core(s: Seq<char>, from: int, n: int)
    requires
        0 <= from <= n <= s.len(),
        forall|i: int| from <= i < n ==> s[i] != '-' && #[trigger] s[i] != '+',
        n < s.len() ==> s[n] == '-' || s[n] == '+',
    ensures
        updater::core_len(s, from) == n,
    decreases n - from,
{
    if from < n {
        assert(s[from] != '+');
        lemma_core(s, from + 1, n);
    }
}

/// A version with more or fewer than three parts is none.
pub proof fn law_versions_have_three_parts(parts: Seq<Seq<char>>)
    requires
        parts.len() > 0,
        parts.len() != 3,
        forall|i: int| 0 <= i < parts.len() ==> !(#[trigger] parts[i]).contains('.'),
        forall|k: int|
            0 <= k < text::joined(parts, seq!['.']).len() ==> text::joined(parts, seq!['.'])[k] != '-'
                && #[trigger] text::joined(parts, seq!['.'])[k] != '+',
    ensures
        updater::semver(text::joined(parts, seq!['.'])) is None,
{
    let s = text::joined(parts, seq!['.']);
    lemma_core(s, 0, s.len() as int);
    assert(s.take(s.len() as int) =~= s);
    text_laws::law_split_pieces(parts, '.');
}

/// What is offered is an installer: one that is called so where there is any,
/// the first of them.
pub proof fn law_installer_is_chosen(lower: Seq<Seq<char>>, installer: bool, from: int)
    requires
        0 <= from,
    ensures
        match updater::msi_from(lower, installer, from) {
            Some(i) => {
                &&& from <= i < lower.len()
                &&& text::ends_with(lower[i], ".msi"@)
                &&& installer ==> text::holds(lower[i], "installer"@)
                &&& forall|j: int|
                    from <= j < i && text::ends_with(#[trigger] lower[j], ".msi"@) ==> installer
                        && !text::holds(lower[j], "installer"@)
            },
            None => forall|j: int|
                from <= j < lower.len() && text::ends_with(#[trigger] lower[j], ".msi"@)
                    ==> installer && !text::holds(lower[j], "installer"@),
        },
    decreases lower.len() - from,
{
    if from < lower.len() {
        law_installer_is_chosen(lower, installer, from + 1);
    }
}

/// Where any file is an installer package, one is chosen, and one that is
/// called an installer is preferred.
pub proof fn law_installers_are_preferred(lower: Seq<Seq<char>>)
    ensures
        match updater::msi_choice(lower) {
            Some(i) => {
                &&& 0 <= i < lower.len()
                &&& text::ends_with(lower[i], ".msi"@)
                &&& (exists|j: int|
                    0 <= j < lower.len() && text::ends_with(#[trigger] lower[j], ".msi"@)
                        && text::holds(lower[j], "installer"@)) ==> text::holds(
                    lower[i],
                    "installer"@,
                )
            },
            None => forall|j: int|
                0 <= j < lower.len() ==> !text::ends_with(#[trigger] lower[j], ".msi"@),
        },
{
    law_installer_is_chosen(lower, true, 0);
    law_installer_is_chosen(lower, false, 0);
}

/// What is left of a tag is the tag without the letters v before it.
pub proof fn law_tags_lose_their_v(s: Seq<char>, k: nat)
    requires
        s.len() == 0 || s[0] != 'v',
    ensures
        updater::without_v(Seq::new(k, |i: int| 'v') + s) == s,
    decreases k,
{
    let t = Seq::new(k, |i: int| 'v') + s;
    if k == 0 {
        assert(t =~= s);
    } else {
        law_tags_lose_their_v(s, (k - 1) as nat);
        assert(t.drop_first() =~= Seq::new((k - 1) as nat, |i: int| 'v') + s);
    }
}

/// The same version is up to date, an older release means to be ahead, and a
/// newer one is offered with its page and its installer. A draft or a trial
/// release counts as none, and what cannot be read fails.
pub proof fn law_what_a_check_says(current: Seq<char>, release: LatestRelease)
    requires
        updater::semver(current) is Some,
    ensures
        ({
            let said = updater::check_outcome(current, Ok(release));
            let latest = updater::without_v(release.tag_name@);
            let own = updater::semver(current).unwrap();
            &&& release.draft || release.prerelease ==> said == (CheckView::UpToDate {
                latest_version: current,
            })
            &&& !release.draft && !release.prerelease && updater::semver(latest) is None ==> said
                is Failed
            &&& !release.draft && !release.prerelease && updater::semver(latest) is Some ==> {
                let there = updater::semver(latest).unwrap();
                &&& there == own ==> said == (CheckView::UpToDate { latest_version: latest })
                &&& there.0 < own.0 || there.0 == own.0 && (there.1 < own.1 || there.1 == own.1
                    && there.2 < own.2) ==> said == (CheckView::Ahead { latest_version: latest })
                &&& own.0 < there.0 || own.0 == there.0 && (own.1 < there.1 || own.1 == there.1
                    && own.2 < there.2) ==> (said matches CheckView::UpdateAvailable {
                    latest_version,
                    release_url,
                    msi,
                } && latest_version == latest && release_url == release.html_url@ && (msi is Some
                    <==> updater::msi_choice(updater::lower_names(release.assets@)) is Some))
            }
        }),
{
}

/// A check fails where the own version cannot be read, and with its reason
/// where nothing could be fetched.
pub proof fn law_failed_checks(current: Seq<char>, reason: String)
    ensures
        updater::semver(current) is Some ==> updater::check_outcome(current, Err(reason)) == (
        CheckView::Failed { reason: reason@ }),
        updater::semver(current) is None ==> updater::check_outcome(current, Err(reason)) is Failed,
{
}

/// A download that is complete is at one hundred percent, one that has not
/// begun at none, and it never goes back. What is told is the share, rounded
/// down.
pub proof fn law_percent(received: u64, more: u64, total: u64)
    requires
        total > 0,
        received <= more,
        total <= u64::MAX / 100,
    ensures
        updater::percent_of(received, total) is Some,
        received == 0 ==> updater::percent_of(received, total) == Some(0int),
        received >= total ==> updater::percent_of(received, total) == Some(100int),
        updater::percent_of(received, total).unwrap() <= updater::percent_of(more, total).unwrap(),
        received < total ==> updater::percent_of(received, total).unwrap() * total <= received * 100
            && received * 100 < (updater::percent_of(received, total).unwrap() + 1) * total,
{
    let t = total as int;
    let p = if received < total {
        received as int
    } else {
        t
    };
    let q = if more < total {
        more as int
    } else {
        t
    };
    vstd::arithmetic::div_mod::lemma_div_is_ordered(p * 100, q * 100, t);
    vstd::arithmetic::div_mod::lemma_fundamental_div_mod(p * 100, t);
    let d = p * 100 / t;
    assert(t * d == d * t) by (nonlinear_arith);
    assert((d + 1) * t == d * t + t) by (nonlinear_arith);
    if received >= total {
        vstd::arithmetic::div_mod::lemma_fundamental_div_mod_converse(t * 100, t, 100, 0);
    }
    if received == 0 {
        vstd::arithmetic::div_mod::lemma_fundamental_div_mod_converse(0, t, 0, 0);
    }
}

/// A download whose length is not known has no percentage.
pub proof fn law_no_percent(received: u64)
    ensures
        updater::percent_of(received, 0) is None,
{
}

/// Every chunk of a download counts, and is told of just where it moves the
/// percentage.
pub proof fn law_chunks(d: &mut Download, n: u64, r: Option<UpdateApplyStatus>)
    requires
        call_ensures(Download::chunk, (d, n), r),
        old(d).received + n <= u64::MAX,
    ensures
        final(d).received == old(d).received + n,
        r is Some <==> final(d).last_pct != old(d).last_pct,
        r matches Some(s) ==> s == (UpdateApplyStatus::Downloading {
            received: final(d).received,
            total: old(d).total,
        }),
        old(d).total == 0 ==> r is None,
{
}

/// A download is whole where it has as many bytes as the release lists, or the
/// release lists none.
pub proof fn law_whole_downloads(d: &Download, listed: u64, r: Result<(), String>)
    requires
        call_ensures(Download::finish, (d, listed), r),
    ensures
        listed == 0 ==> r is Ok,
        listed > 0 ==> (r is Ok <==> d.received == listed),
{
}

} // verus!
