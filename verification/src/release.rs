//! Releases published for the application and its resources, and the
//! decisions taken on them: whether an update is due, which asset to fetch,
//! and what to report.

use vstd::prelude::*;
use crate::config::{AppConfig, ConfigView};
use crate::text::{
    ends_with_ignore_ascii_case, eq_ignore_ascii_case, str_ends_with_ignore_ascii_case,
    str_eq_ignore_ascii_case,
};
use crate::version::{compare_versions, parse_version_from_tag, version_from_tag, version_newer};

verus! {

/// A file attached to a release.
pub struct ReleaseAsset {
    pub name: String,
    pub browser_download_url: String,
}

/// The latest release of a repository: its tag and its assets.
pub struct ReleaseResponse {
    pub tag_name: String,
    pub assets: Vec<ReleaseAsset>,
}

/// The answer to "is there an update?": the latest tag and whether it is to
/// be installed.
pub struct UpdateCheckResult {
    pub latest_tag: String,
    pub update_available: bool,
}

/// The names of a list of assets.
pub open spec fn asset_names(assets: Seq<ReleaseAsset>) -> Seq<Seq<char>> {
    assets.map_values(|a: ReleaseAsset| a.name@)
}

/// `i` is the first index whose name equals `wanted`, ignoring ASCII case.
pub open spec fn is_first_named(names: Seq<Seq<char>>, wanted: Seq<char>, i: int) -> bool {
    &&& 0 <= i < names.len()
    &&& eq_ignore_ascii_case(names[i], wanted)
    &&& forall|j: int| 0 <= j < i ==> !eq_ignore_ascii_case(#[trigger] names[j], wanted)
}

/// No name equals `wanted`, ignoring ASCII case.
pub open spec fn none_named(names: Seq<Seq<char>>, wanted: Seq<char>) -> bool {
    forall|j: int| 0 <= j < names.len() ==> !eq_ignore_ascii_case(#[trigger] names[j], wanted)
}

/// The name of the application's executable among the release assets.
pub open spec fn app_exe_name() -> Seq<char> {
    "fixmanager.exe"@
}

/// An executable that can stand in for the application: a name ending in
/// `.exe` that is not the updater's (ASCII case ignored).
pub open spec fn is_fallback_exe(name: Seq<char>) -> bool {
    ends_with_ignore_ascii_case(name, ".exe"@) && !eq_ignore_ascii_case(name, "update.exe"@)
}

/// `i` is the asset that installs the application: the first named
/// `fixmanager.exe`, or, where there is none, the first fallback executable.
pub open spec fn select_app_asset_ok(names: Seq<Seq<char>>, i: int) -> bool {
    ||| is_first_named(names, app_exe_name(), i)
    ||| none_named(names, app_exe_name()) && 0 <= i < names.len() && is_fallback_exe(names[i])
        && forall|j: int| 0 <= j < i ==> !is_fallback_exe(#[trigger] names[j])
}

/// Whether the application update to `tag` is to be installed, for a running
/// version `local`: not when `tag` is the release last installed, otherwise
/// when the version that `tag` names (or `tag` itself, where it names none) is
/// newer than `local`.
pub open spec fn app_update_available(c: ConfigView, tag: Seq<char>, local: Seq<char>) -> bool {
    let online = match version_from_tag(tag) {
        Some(v) => v,
        None => tag,
    };
    c.app_tag != Some(tag) && version_newer(local, online)
}

/// Whether the resources release `tag` is to be installed: when it differs
/// from the tag last installed (an empty tag when none was).
pub open spec fn resources_update_available(c: ConfigView, tag: Seq<char>) -> bool {
    let current = match c.resources_tag {
        Some(t) => t,
        None => Seq::<char>::empty(),
    };
    tag != current
}

/// Whether syncing the updater to the release `tag` has work to do: when
/// forced, or when `tag` is not the release last synced.
pub open spec fn updater_sync_needed(c: ConfigView, tag: Seq<char>, force: bool) -> bool {
    force || c.updater_tag != Some(tag)
}

/// What syncing the updater does with a release.
pub enum UpdaterSync {
    /// The updater of this release is already installed: report this.
    AlreadySynced(String),
    /// Download the asset with this index.
    Download(usize),
    /// The release has no updater: fail with this message.
    Missing(String),
}

// ---------------------------------------------------------------------------
// Laws

/// A release that was recorded as installed is never offered again as an
/// application update.
pub proof fn law_installed_app_release_not_offered(c: ConfigView, tag: Seq<char>, local: Seq<char>)
    requires
        c.app_tag == Some(tag),
    ensures
        !app_update_available(c, tag, local),
{
}

/// Only the recorded application release counts against an update: for any
/// tag other than that one, the update is due exactly when the version the
/// tag names (or the tag itself, where it names none) is newer than the
/// running one, whatever updater or resources release was recorded.
pub proof fn law_app_update_decided_by_version(c: ConfigView, d: ConfigView, tag: Seq<char>, local: Seq<char>)
    requires
        c.app_tag != Some(tag),
    ensures
        app_update_available(c, tag, local) == version_newer(
            local,
            match version_from_tag(tag) {
                Some(v) => v,
                None => tag,
            },
        ),
        d.app_tag == c.app_tag ==> app_update_available(d, tag, local) == app_update_available(c, tag, local),
{
}

/// A release whose version is the running one is not an update.
pub proof fn law_same_version_not_offered(c: ConfigView, tag: Seq<char>, local: Seq<char>)
    requires
        version_from_tag(tag) == Some(local),
    ensures
        !app_update_available(c, tag, local),
{
    crate::version::law_version_not_newer_than_itself(local);
}

/// After recording the resources release `tag`, it is no longer offered; any
/// other tag is.
pub proof fn law_recorded_resources_not_offered(c: ConfigView, tag: Seq<char>, other: Seq<char>)
    ensures
        !resources_update_available(ConfigView { resources_tag: Some(tag), ..c }, tag),
        other != tag ==> resources_update_available(ConfigView { resources_tag: Some(tag), ..c }, other),
{
}

/// Once the updater of `tag` is recorded as synced, syncing to `tag` again
/// has nothing to do unless forced; a forced sync always downloads.
pub proof fn law_recorded_updater_not_synced_again(c: ConfigView, tag: Seq<char>)
    ensures
        !updater_sync_needed(ConfigView { updater_tag: Some(tag), ..c }, tag, false),
        updater_sync_needed(c, tag, true),
{
}

// ---------------------------------------------------------------------------
// Executable code

/// The index of the first asset named `wanted`, ignoring ASCII case.
pub fn find_asset(assets: &Vec<ReleaseAsset>, wanted: &str) -> (r: Option<usize>)
    ensures
        match r {
            Some(i) => is_first_named(asset_names(assets@), wanted@, i as int),
            None => none_named(asset_names(assets@), wanted@),
        },
{
    let mut i: usize = 0;
    while i < assets.len()
        invariant
            i <= assets.len(),
            forall|j: int| 0 <= j < i ==> !eq_ignore_ascii_case(#[trigger] asset_names(assets@)[j], wanted@),
        decreases assets.len() - i,
    {
        assert(asset_names(assets@)[i as int] == assets@[i as int].name@);
        if str_eq_ignore_ascii_case(assets[i].name.as_str(), wanted) {
            return Some(i);
        }
        i = i + 1;
    }
    None
}

/// The asset that installs the application: the first named
/// `fixmanager.exe`, or else the first other `.exe` that is not the updater
/// (ASCII case ignored throughout).
pub fn select_app_asset(assets: &Vec<ReleaseAsset>) -> (r: Option<usize>)
    ensures
        match r {
            Some(i) => select_app_asset_ok(asset_names(assets@), i as int),
            None => none_named(asset_names(assets@), app_exe_name())
                && forall|j: int| 0 <= j < assets.len() ==> !is_fallback_exe(#[trigger] asset_names(assets@)[j]),
        },
{
    if let Some(i) = find_asset(assets, "fixmanager.exe") {
        return Some(i);
    }
    let mut i: usize = 0;
    while i < assets.len()
        invariant
            i <= assets.len(),
            none_named(asset_names(assets@), app_exe_name()),
            forall|j: int| 0 <= j < i ==> !is_fallback_exe(#[trigger] asset_names(assets@)[j]),
        decreases assets.len() - i,
    {
        assert(asset_names(assets@)[i as int] == assets@[i as int].name@);
        let name = assets[i].name.as_str();
        if str_ends_with_ignore_ascii_case(name, ".exe") && !str_eq_ignore_ascii_case(name, "update.exe") {
            return Some(i);
        }
        i = i + 1;
    }
    None
}

/// The asset that installs the application (see [`select_app_asset`]), or
/// the message to fail with when the release has none.
pub fn app_asset(release: &ReleaseResponse) -> (r: Result<usize, String>)
    ensures
        match r {
            Ok(i) => select_app_asset_ok(asset_names(release.assets@), i as int),
            Err(m) => none_named(asset_names(release.assets@), app_exe_name())
                && (forall|j: int| 0 <= j < release.assets.len() ==> !is_fallback_exe(#[trigger] asset_names(release.assets@)[j]))
                && m@ == "No app .exe asset found in latest release"@,
        },
{
    match select_app_asset(&release.assets) {
        Some(i) => Ok(i),
        None => Err(String::from_str("No app .exe asset found in latest release")),
    }
}

/// Whether the application release `release_tag` is an update for the
/// running version `local_version`, given the settings.
pub fn check_app_update(config: &AppConfig, release_tag: String, local_version: &str) -> (r: UpdateCheckResult)
    ensures
        r.latest_tag@ == release_tag@,
        r.update_available == app_update_available(config@, release_tag@, local_version@),
{
    let online = match parse_version_from_tag(release_tag.as_str()) {
        Some(v) => v,
        None => release_tag.clone(),
    };
    let already_applied = match &config.last_app_release_tag {
        Some(t) => *t == release_tag,
        None => false,
    };
    let update_available = if already_applied {
        false
    } else {
        compare_versions(local_version, online.as_str())
    };
    UpdateCheckResult { latest_tag: release_tag, update_available }
}

/// Whether the resources release `release_tag` differs from the one last
/// installed.
pub fn check_resources_update(config: &AppConfig, release_tag: String) -> (r: UpdateCheckResult)
    ensures
        r.latest_tag@ == release_tag@,
        r.update_available == resources_update_available(config@, release_tag@),
{
    let current = match &config.last_resources_tag {
        Some(t) => t.clone(),
        None => String::new(),
    };
    let update_available = !(release_tag == current);
    UpdateCheckResult { latest_tag: release_tag, update_available }
}

/// What syncing the updater does with the latest application release: unless
/// `force`, nothing when its tag is the one last synced; otherwise download
/// its `update.exe` (ASCII case ignored), or fail when it has none.
pub fn plan_updater_sync(config: &AppConfig, release: &ReleaseResponse, force: bool) -> (r: UpdaterSync)
    ensures
        !updater_sync_needed(config@, release.tag_name@, force) ==> (r matches UpdaterSync::AlreadySynced(m)
            && m@ == "Updater already synced for "@ + release.tag_name@),
        updater_sync_needed(config@, release.tag_name@, force) ==> match r {
            UpdaterSync::Download(i) => is_first_named(asset_names(release.assets@), "update.exe"@, i as int),
            UpdaterSync::Missing(m) => none_named(asset_names(release.assets@), "update.exe"@)
                && m@ == "No update.exe asset found in latest app release"@,
            UpdaterSync::AlreadySynced(_) => false,
        },
{
    let synced = match &config.last_updater_release_tag {
        Some(t) => *t == release.tag_name,
        None => false,
    };
    if !force && synced {
        let mut m = String::from_str("Updater already synced for ");
        m.append(release.tag_name.as_str());
        return UpdaterSync::AlreadySynced(m);
    }
    match find_asset(&release.assets, "update.exe") {
        Some(i) => UpdaterSync::Download(i),
        None => UpdaterSync::Missing(String::from_str("No update.exe asset found in latest app release")),
    }
}

/// The report after the updater of `tag` was installed at `location`.
pub fn updater_synced_message(tag: &str, force: bool, location: &str) -> (m: String)
    ensures
        force ==> m@ == "Updater re-downloaded from "@ + tag@ + " to "@ + location@,
        !force ==> m@ == "Updater synced to "@ + tag@ + " at "@ + location@,
{
    let mut m = if force {
        String::from_str("Updater re-downloaded from ")
    } else {
        String::from_str("Updater synced to ")
    };
    m.append(tag);
    if force {
        m.append(" to ");
    } else {
        m.append(" at ");
    }
    m.append(location);
    m
}

/// The name of the resources archive among the release assets.
pub open spec fn resources_zip_name() -> Seq<char> {
    "resources_f_m.zip"@
}

/// The asset that holds the resources archive, or the message to fail with.
pub fn resources_asset(release: &ReleaseResponse) -> (r: Result<usize, String>)
    ensures
        match r {
            Ok(i) => is_first_named(asset_names(release.assets@), resources_zip_name(), i as int),
            Err(m) => none_named(asset_names(release.assets@), resources_zip_name())
                && m@ == "No resources_f_m.zip found in latest resources release"@,
        },
{
    match find_asset(&release.assets, "resources_f_m.zip") {
        Some(i) => Ok(i),
        None => Err(String::from_str("No resources_f_m.zip found in latest resources release")),
    }
}

/// The report after the resources of `tag` were installed.
pub fn resources_updated_message(tag: &str) -> (m: String)
    ensures
        m@ == "Resources updated to "@ + tag@,
{
    let mut m = String::from_str("Resources updated to ");
    m.append(tag);
    m
}

} // verus!
