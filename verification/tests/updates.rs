//! The update check, downloads, and the captured wishlist.

use ez_wishlist_overlay::updater::{
    choose_msi, parse_semver, pick_msi_asset, run, CheckStatus, Download, LatestRelease,
    ReleaseAsset, UpdateApplyStatus, UpdateInfo, VERSION,
};
use ez_wishlist_overlay::wishlist::{
    upsert, CapturedItem, CapturedUpgrade, Wishlist,
};

#[test]
fn parses_basic_semver() {
    assert_eq!(parse_semver("0.1.0"), Some((0, 1, 0)));
    assert_eq!(parse_semver("1.2.3"), Some((1, 2, 3)));
    assert_eq!(parse_semver("10.20.30"), Some((10, 20, 30)));
}

#[test]
fn strips_prerelease_and_build_suffix() {
    assert_eq!(parse_semver("0.2.0-rc1"), Some((0, 2, 0)));
    assert_eq!(parse_semver("1.0.0+sha.abc"), Some((1, 0, 0)));
}

#[test]
fn rejects_garbage() {
    assert_eq!(parse_semver(""), None);
    assert_eq!(parse_semver("v0.1.0"), None);
    assert_eq!(parse_semver("0.1"), None);
    assert_eq!(parse_semver("0.1.0.0"), None);
    assert_eq!(parse_semver("a.b.c"), None);
    assert_eq!(parse_semver("4294967296.0.0"), None);
}

#[test]
fn newer_is_strictly_greater() {
    assert!(parse_semver("0.10.0") > parse_semver("0.2.0"));
    assert!(parse_semver("1.0.0") > parse_semver("0.99.99"));
    assert!(parse_semver("0.2.1") > parse_semver("0.2.0"));
    assert!(parse_semver("0.2.0") == parse_semver("0.2.0"));
}

#[test]
fn only_update_available_counts_as_out_of_date() {
    assert_eq!(
        CheckStatus::UpdateAvailable(UpdateInfo {
            latest_version: "0.3.0".into(),
            release_url: "https://example.invalid/r".into(),
            msi: None,
        })
        .out_of_date_version(),
        Some("0.3.0"),
        "a newer published release means out of date → gate closed"
    );
    assert_eq!(CheckStatus::Disabled.out_of_date_version(), None);
    assert_eq!(CheckStatus::Checking.out_of_date_version(), None);
    assert_eq!(
        CheckStatus::UpToDate {
            latest_version: "0.2.1".into()
        }
        .out_of_date_version(),
        None
    );
    assert_eq!(
        CheckStatus::Ahead {
            latest_version: "0.2.0".into()
        }
        .out_of_date_version(),
        None,
        "dev build ahead of latest must NOT be treated as stale"
    );
    assert_eq!(
        CheckStatus::Failed {
            reason: "offline".into()
        }
        .out_of_date_version(),
        None,
        "a failed/offline check must fail open, not block the user"
    );
}

fn asset(name: &str, url: &str, size: u64) -> ReleaseAsset {
    ReleaseAsset {
        name: name.into(),
        url: url.into(),
        size,
    }
}

#[test]
fn picks_installer_msi_over_other_assets() {
    let assets = vec![
        asset("ez-wishlist-overlay-0.3.1-portable.exe", "u1", 1),
        asset("ez-wishlist-overlay-0.3.1-installer.msi", "u2", 2),
    ];
    let msi = pick_msi_asset(&assets).expect("an .msi asset should be picked");
    assert_eq!(msi.name, "ez-wishlist-overlay-0.3.1-installer.msi");
    assert_eq!(msi.url, "u2");
}

#[test]
fn no_msi_asset_returns_none() {
    let assets = vec![asset("ez-wishlist-overlay-0.3.1-portable.exe", "u1", 1)];
    assert!(
        pick_msi_asset(&assets).is_none(),
        "a release with no .msi must not offer in-app update"
    );
}

#[test]
fn msi_names_match_whatever_their_case() {
    let assets = vec![asset("other.MSI", "u1", 1), asset("EZ-Installer.Msi", "u2", 2)];
    assert_eq!(pick_msi_asset(&assets).unwrap().url, "u2");
    assert_eq!(choose_msi(&vec!["a.msi".to_string(), "b.exe".to_string()]), Some(0));
    assert_eq!(choose_msi(&vec!["b.exe".to_string()]), None);
}

fn release(tag: &str) -> LatestRelease {
    LatestRelease {
        tag_name: tag.into(),
        html_url: "https://example.invalid/r".into(),
        prerelease: false,
        draft: false,
        assets: vec![asset("x-installer.msi", "u", 3)],
    }
}

#[test]
fn a_check_compares_with_the_running_version() {
    match run("0.1.0", Ok(release("v0.2.0"))) {
        CheckStatus::UpdateAvailable(info) => {
            assert_eq!(info.latest_version, "0.2.0");
            assert_eq!(info.release_url, "https://example.invalid/r");
            assert_eq!(info.msi.unwrap().url, "u");
        }
        other => panic!("{other:?}"),
    }
    assert!(matches!(run("0.2.0", Ok(release("v0.2.0"))), CheckStatus::UpToDate { .. }));
    assert!(matches!(run("0.3.0", Ok(release("v0.2.0"))), CheckStatus::Ahead { .. }));
    assert!(matches!(run("0.3.0", Ok(release("nightly"))), CheckStatus::Failed { .. }));
    match run("0.3.0", Err("offline".to_string())) {
        CheckStatus::Failed { reason } => assert!(reason.contains("offline"), "{reason}"),
        other => panic!("{other:?}"),
    }
}

#[test]
fn canonical_version_is_plain_semver() {
    let parts: Vec<&str> = VERSION.split('.').collect();
    assert_eq!(
        parts.len(),
        3,
        "crate version {VERSION:?} must be X.Y.Z (three dot-separated components)"
    );
    for p in &parts {
        assert!(
            !p.is_empty() && p.bytes().all(|b| b.is_ascii_digit()),
            "crate version {VERSION:?} component {p:?} is not a plain integer"
        );
    }
}

#[test]
fn a_download_reports_each_percent_once() {
    let mut d = Download::new(Some(1_000), 5);
    assert_eq!(d.total, 1_000);
    assert!(matches!(
        d.chunk(10),
        Some(UpdateApplyStatus::Downloading { received: 10, total: 1_000 })
    ));
    assert!(d.chunk(5).is_none());
    assert!(d.chunk(5).is_some());
    assert_eq!(Download::new(None, 77).total, 77);
}

#[test]
fn a_short_download_is_refused() {
    let mut d = Download::new(None, 100);
    d.chunk(40);
    assert!(d.finish(100).is_err());
    d.chunk(60);
    assert!(d.finish(100).is_ok());
    assert!(d.finish(0).is_ok());
}

fn cap(key: &str, items: u32) -> CapturedUpgrade {
    CapturedUpgrade {
        key: key.to_string(),
        title: key.split_whitespace().take(3).collect::<Vec<_>>().join(" "),
        level: "LV0".to_string(),
        cost: Some(80_000),
        items: (0..items)
            .map(|i| CapturedItem {
                name: format!("Item {i}"),
                collected: None,
                needed: None,
            })
            .collect(),
    }
}

#[test]
fn upsert_overwrites_existing_key() {
    let mut w = Wishlist::default();
    let prev = upsert(
        &mut w,
        cap("Storage Room A LV0", 4),
        "first".into(),
        "a.jpg".into(),
        "2026-05-26T09:13:14Z".into(),
    );
    assert!(prev.is_none());
    assert_eq!(w.entries.len(), 1);

    let prev = upsert(
        &mut w,
        cap("Storage Room A LV0", 3),
        "second".into(),
        "b.jpg".into(),
        "2026-05-26T09:14:00Z".into(),
    );
    assert!(prev.is_some(), "second insert should return the first entry");
    assert_eq!(prev.unwrap().raw_ocr_text, "first");
    assert_eq!(w.entries.len(), 1, "same key shouldn't duplicate");
    assert_eq!(
        w.entries.get("Storage Room A LV0").unwrap().upgrade.items.len(),
        3
    );
}
