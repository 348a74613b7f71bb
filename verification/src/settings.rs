//! The settings the client reads and writes: autostart (managed by the desktop shell)
//! and the Nutstore backup settings.
use vstd::prelude::*;
use crate::backup::{NutstoreSettings, SettingsFile};
use crate::error::AppError;
use crate::text::{chars_of, owned, string_of, trim, trim_chars};

verus! {

/// Whether the application starts with the session, with the legacy fields the client expects.
#[derive(Debug)]
pub struct AutostartStatus {
    pub enabled: bool,
    pub message: String,
    pub desktop_file: String,
    pub script_file: String,
    pub executable: String,
    pub working_dir: String,
}

/// A request to turn autostart on or off.
#[derive(Debug)]
pub struct AutostartInput {
    pub enabled: bool,
}

/// The message that says where autostart is managed.
pub open spec fn autostart_message() -> Seq<char> {
    "Autostart is managed by the Tauri system tray menu"@
}

/// Whether a status is the one this service reports: off, managed elsewhere, no files.
pub open spec fn is_managed_elsewhere(s: AutostartStatus) -> bool {
    &&& !s.enabled
    &&& s.message@ == autostart_message()
    &&& s.desktop_file@.len() == 0
    &&& s.script_file@.len() == 0
    &&& s.executable@.len() == 0
    &&& s.working_dir@.len() == 0
}

fn managed_elsewhere() -> (r: AutostartStatus)
    ensures
        is_managed_elsewhere(r),
{
    AutostartStatus {
        enabled: false,
        message: owned("Autostart is managed by the Tauri system tray menu"),
        desktop_file: String::new(),
        script_file: String::new(),
        executable: String::new(),
        working_dir: String::new(),
    }
}

/// The autostart status: autostart is managed by the desktop shell's tray menu, so this
/// service reports it off.
pub fn status() -> (r: Result<AutostartStatus, AppError>)
    ensures
        r matches Ok(s) && is_managed_elsewhere(s),
{
    Ok(managed_elsewhere())
}

/// Setting autostart here changes nothing: it is managed by the desktop shell's tray
/// menu, and the status stays off.
pub fn set_enabled(_enabled: bool) -> (r: Result<AutostartStatus, AppError>)
    ensures
        r matches Ok(s) && is_managed_elsewhere(s),
{
    Ok(managed_elsewhere())
}

/// The Nutstore settings as the client sends them.
#[derive(Debug)]
pub struct NutstoreSettingsInput {
    pub enabled: bool,
    pub server_url: String,
    pub username: String,
    pub password: String,
    pub remote_dir: String,
}

/// The Nutstore settings as the client sees them.
#[derive(Debug)]
pub struct NutstoreSettingsView {
    pub enabled: bool,
    pub server_url: String,
    pub username: String,
    pub password: String,
    pub remote_dir: String,
}

/// The client's view of the stored settings: the same fields.
pub fn to_view(input: NutstoreSettings) -> (r: NutstoreSettingsView)
    ensures
        r.enabled == input.enabled,
        r.server_url@ == input.server_url@,
        r.username@ == input.username@,
        r.password@ == input.password@,
        r.remote_dir@ == input.remote_dir@,
{
    NutstoreSettingsView {
        enabled: input.enabled,
        server_url: input.server_url,
        username: input.username,
        password: input.password,
        remote_dir: input.remote_dir,
    }
}

/// The settings stored from what the client sent: the server, user name and directory
/// trimmed, the password kept as given.
pub fn settings_from_input(input: NutstoreSettingsInput) -> (r: NutstoreSettings)
    ensures
        r.enabled == input.enabled,
        r.server_url@ == trim(input.server_url@),
        r.username@ == trim(input.username@),
        r.password@ == input.password@,
        r.remote_dir@ == trim(input.remote_dir@),
{
    NutstoreSettings {
        enabled: input.enabled,
        server_url: string_of(&trim_chars(&chars_of(input.server_url.as_str()))),
        username: string_of(&trim_chars(&chars_of(input.username.as_str()))),
        password: input.password,
        remote_dir: string_of(&trim_chars(&chars_of(input.remote_dir.as_str()))),
    }
}

/// The settings file with its Nutstore settings replaced by what the client sent (see
/// `settings_from_input`).
pub fn with_nutstore_input(file: SettingsFile, input: NutstoreSettingsInput) -> (r: SettingsFile)
    ensures
        r.nutstore.enabled == input.enabled,
        r.nutstore.server_url@ == trim(input.server_url@),
        r.nutstore.username@ == trim(input.username@),
        r.nutstore.password@ == input.password@,
        r.nutstore.remote_dir@ == trim(input.remote_dir@),
{
    let mut f = file;
    f.nutstore = settings_from_input(input);
    f
}

/// Whether a settings file's text holds anything: a blank file reads as the defaults.
pub fn settings_text_is_blank(text: &str) -> (b: bool)
    ensures
        b == (trim(text@).len() == 0),
{
    trim_chars(&chars_of(text)).len() == 0
}

} // verus!
