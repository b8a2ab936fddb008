//! The settings, and where files are kept.

use crate::text::{copy_opt, fill_owned};
use vstd::prelude::*;

verus! {

/// The settings that are stored.
pub struct AppSettings {
    pub locales_dir: Option<String>,
}

/// What the user is told of the settings.
pub struct AppSettingsResponse {
    pub configured_locales_dir: Option<String>,
    pub locales_dir: String,
    pub default_locales_dir: String,
}

impl Default for AppSettings {
    /// The settings where none are stored.
    fn default() -> (r: AppSettings)
        ensures
            r.locales_dir is None,
    {
        AppSettings { locales_dir: None }
    }
}

/// Whether `path` is that of `name` in the directory `dir`. What stands between the two depends on
/// the system and on how `dir` ends. Nothing is said of a directory that begins with `\\?\`: one
/// system writes such a path anew.
pub open spec fn is_inside(path: Seq<char>, dir: Seq<char>, name: Seq<char>) -> bool {
    ||| crate::text::begins(dir, "\\\\?\\"@)
    ||| path == dir + name
    ||| path == dir + "/"@ + name
    ||| path == dir + "\\"@ + name
}

/// `Path::join`, as text: the path of a plain name in a directory. The mark between the two depends
/// on the system, and so does what becomes of a directory that begins with `\\?\`.
#[verifier::external_body]
fn join_path(dir: &str, name: &str) -> (r: String)
    requires
        name@.len() > 0,
        crate::audio::is_plain_name(name@),
    ensures
        is_inside(r@, dir@, name@),
{
    std::path::Path::new(dir).join(name).display().to_string()
}

/// The file of the settings, given the directory of the application's data.
pub fn app_settings_path(app_data_dir: &str) -> (r: String)
    ensures
        is_inside(r@, app_data_dir@, "settings.json"@),
{
    proof {
        reveal_strlit("settings.json");
    }
    join_path(app_data_dir, "settings.json")
}

/// The directory that the files of languages are in unless another is set: beside the program, or
/// with the application's data where it is not known where the program is.
pub open spec fn default_base(executable_dir: Option<Seq<char>>, app_data_dir: Seq<char>) -> Seq<
    char,
> {
    match executable_dir {
        Some(dir) => dir,
        None => app_data_dir,
    }
}

/// The directory that the files of languages are in unless another is set.
pub fn default_locales_dir(executable_dir: Option<&str>, app_data_dir: &str) -> (r: String)
    ensures
        is_inside(
            r@,
            default_base(crate::text::opt_str_view(executable_dir), app_data_dir@),
            "locales"@,
        ),
{
    proof {
        reveal_strlit("locales");
    }
    match executable_dir {
        Some(dir) => join_path(dir, "locales"),
        None => join_path(app_data_dir, "locales"),
    }
}

/// A directory that is set, trimmed; none where nothing is left.
pub fn normalize_settings_dir(value: Option<String>) -> (r: Option<String>)
    ensures
        crate::text::opt_view(r) == crate::text::filled(crate::text::opt_view(value)),
{
    fill_owned(&value)
}

/// The directory that the files of languages are in: the one that is set, else the default one.
pub fn locales_dir(settings: &AppSettings, default_dir: &str) -> (r: String)
    ensures
        r@ == match crate::text::filled(crate::text::opt_view(settings.locales_dir)) {
            Some(dir) => dir,
            None => default_dir@,
        },
{
    match fill_owned(&settings.locales_dir) {
        Some(dir) => dir,
        None => default_dir.to_owned(),
    }
}

/// The settings that the user asks for.
pub fn changed_settings(locales_dir: Option<String>) -> (r: AppSettings)
    ensures
        crate::text::opt_view(r.locales_dir) == crate::text::filled(
            crate::text::opt_view(locales_dir),
        ),
{
    AppSettings { locales_dir: normalize_settings_dir(locales_dir) }
}

/// What the user is told of the settings, given the default directory.
pub fn app_settings_response(settings: &AppSettings, default_dir: &str) -> (r: AppSettingsResponse)
    ensures
        crate::text::opt_view(r.configured_locales_dir) == crate::text::filled(
            crate::text::opt_view(settings.locales_dir),
        ),
        r.locales_dir@ == match crate::text::filled(crate::text::opt_view(settings.locales_dir)) {
            Some(dir) => dir,
            None => default_dir@,
        },
        r.default_locales_dir@ == default_dir@,
{
    AppSettingsResponse {
        configured_locales_dir: normalize_settings_dir(copy_opt(&settings.locales_dir)),
        locales_dir: locales_dir(settings, default_dir),
        default_locales_dir: default_dir.to_owned(),
    }
}

/// Settings that were stored are as they were asked for: setting them again changes nothing.
pub proof fn law_settings_are_settled(dir: Option<Seq<char>>)
    ensures
        crate::text::filled(crate::text::filled(dir)) == crate::text::filled(dir),
{
    if let Some(d) = dir {
        crate::text::lemma_trimmed_twice(d);
    }
}

/// The directory that the runtime's library is in. It is set once, to a directory that holds the
/// library.
pub fn set_foundry_native_dir(slot: &mut Option<String>, path: String, holds_library: bool)
    ensures
        crate::text::opt_view(*final(slot)) == if holds_library && *old(slot) is None {
            Some(path@)
        } else {
            crate::text::opt_view(*old(slot))
        },
{
    if holds_library && slot.is_none() {
        *slot = Some(path);
    }
}

/// The directory beside the program that holds the runtime's library: the first of the two that
/// does.
pub fn bundled_native_dir(
    direct: String,
    direct_holds: bool,
    resources: String,
    resources_hold: bool,
) -> (r: Option<String>)
    ensures
        crate::text::opt_view(r) == if direct_holds {
            Some(direct@)
        } else if resources_hold {
            Some(resources@)
        } else {
            None
        },
{
    if direct_holds {
        Some(direct)
    } else if resources_hold {
        Some(resources)
    } else {
        None
    }
}

/// What belongs to the user stands beside the program where its place is known, and in the user's
/// own directory where it is not.
pub proof fn law_data_stands_beside_the_program(dir: Seq<char>, app_data_dir: Seq<char>)
    ensures
        default_base(Some(dir), app_data_dir) == dir,
        default_base(None, app_data_dir) == app_data_dir,
{
}

} // verus!
