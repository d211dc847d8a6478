//! What the desktop program decides: drives to add, addresses of its windows, and what its menu and its
//! windows do.

use vstd::prelude::*;

use crate::clock::{timestamp_text, utc_now};
use crate::scan::{contains, trim};
use crate::text::{concat, same};

verus! {

// ---------------------------------------------------------------------------
// Addresses.
// ---------------------------------------------------------------------------

/// Whether a local path is the root of the file system.
pub fn is_root_drive(path: &str) -> (r: bool)
    ensures
        r == (crate::scan::trimmed(path@) == "/"@),
{
    same(trim(path).as_str(), "/")
}

/// The language to use: the one that was chosen, or else the system's, or else American English.
pub fn get_effective_locale(chosen: Option<String>, system: Option<String>) -> (r: String)
    ensures
        r@ == effective_locale(
            crate::writeback::opt_text(chosen),
            crate::writeback::opt_text(system),
        ),
{
    match chosen {
        Some(c) => c,
        None => match system {
            Some(s) => s,
            None => "en-US".to_owned(),
        },
    }
}

/// An address with the language added to its query.
pub open spec fn url_with_lang(base: Seq<char>, locale: Seq<char>) -> Seq<char> {
    if crate::scan::holds(base, "?"@) {
        base + "&lng="@ + locale
    } else {
        base + "?lng="@ + locale
    }
}

/// An address with the language added to its query.
pub fn get_url_with_lang(base_path: &str, locale: &str) -> (r: String)
    ensures
        r@ == url_with_lang(base_path@, locale@),
{
    let sep: &str = if contains(base_path, "?") {
        "&lng="
    } else {
        "?lng="
    };
    let start: String = concat(base_path, sep);
    concat(start.as_str(), locale)
}

/// Whether a byte stands for itself in an encoded text.
pub open spec fn is_plain_byte(b: u8) -> bool {
    ||| 0x30 <= b <= 0x39
    ||| 0x41 <= b <= 0x5a
    ||| 0x61 <= b <= 0x7a
    ||| b == 0x2d
    ||| b == 0x2e
    ||| b == 0x5f
    ||| b == 0x7e
}

/// The hexadecimal digit for `n`, in capitals.
pub open spec fn hex_digit(n: int) -> char {
    if n < 10 {
        ('0' as int + n) as char
    } else {
        ('A' as int + n - 10) as char
    }
}

/// A text as part of an address: letters, digits and the characters `-`, `.`, `_` and `~` stand for
/// themselves, every other byte is a percent sign and two hexadecimal digits.
pub open spec fn percent_encoded(bytes: Seq<u8>) -> Seq<char>
    decreases bytes.len(),
{
    if bytes.len() == 0 {
        Seq::empty()
    } else {
        let b = bytes.last();
        let rest = percent_encoded(bytes.drop_last());
        if is_plain_byte(b) {
            rest.push(b as char)
        } else {
            rest.push('%').push(hex_digit(b as int / 16)).push(hex_digit(b as int % 16))
        }
    }
}

/// Calls `urlencoding::encode`.
///
/// The contract claims what its documentation says: every byte of the text is percent-encoded except
/// letters, digits and `-`, `_`, `.`, `~`.
#[verifier::external_body]
fn encode(s: &str) -> (r: String)
    ensures
        r@ == percent_encoded(vstd::utf8::encode_utf8(s@)),
{
    urlencoding::encode(s).into_owned()
}

/// Address of the window in which a drive is authorised again.
pub fn reauthorize_url(drive_id: &str, site_url: &str, drive_name: &str, locale: &str) -> (r: String)
    ensures
        r@ == url_with_lang(
            "index.html/#/reauthorize/"@ + drive_id@ + "/"@ + percent_encoded(
                vstd::utf8::encode_utf8(site_url@),
            ) + "/"@ + percent_encoded(vstd::utf8::encode_utf8(drive_name@)),
            locale@,
        ),
{
    let a: String = concat("index.html/#/reauthorize/", drive_id);
    let b: String = concat(a.as_str(), "/");
    let c: String = concat(b.as_str(), encode(site_url).as_str());
    let d: String = concat(c.as_str(), "/");
    let path: String = concat(d.as_str(), encode(drive_name).as_str());
    get_url_with_lang(path.as_str(), locale)
}

/// Address of a user's picture.
pub fn avatar_url(instance_url: &str, user_id: &str) -> (r: String)
    ensures
        r@ == instance_url@ + "/api/v4/user/avatar/"@ + user_id@,
{
    let start: String = concat(instance_url, "/api/v4/user/avatar/");
    concat(start.as_str(), user_id)
}

/// Address of a user's page.
pub fn profile_url(instance_url: &str, user_id: &str) -> (r: String)
    ensures
        r@ == instance_url@ + "/profile/"@ + user_id@,
{
    let start: String = concat(instance_url, "/profile/");
    concat(start.as_str(), user_id)
}

// ---------------------------------------------------------------------------
// Adding drives.
// ---------------------------------------------------------------------------

/// How a drive keeps its files.
#[derive(Debug, Clone, Copy, PartialEq, Eq, Structural)]
pub enum DriveMode {
    /// All files are kept here.
    FullMirror,
    /// Files are fetched when they are read.
    OnDemand,
}

impl Default for DriveMode {
    fn default() -> (r: Self)
        ensures
            r == DriveMode::FullMirror,
    {
        DriveMode::FullMirror
    }
}

/// What a drive is to be added with.
#[derive(Debug)]
pub struct AddDriveArgs {
    pub site_url: String,
    pub access_token: String,
    pub refresh_token: String,
    /// Seconds from now.
    pub access_token_expires: u64,
    /// Seconds from now.
    pub refresh_token_expires: u64,
    pub drive_name: String,
    pub remote_path: String,
    pub local_path: String,
    pub user_id: String,
    /// The drive that is authorised again, if it is no new one.
    pub drive_id: Option<String>,
    pub mode: DriveMode,
}

/// What a drive signs in with.
#[derive(Debug)]
pub struct Credentials {
    pub access_token: Option<String>,
    pub refresh_token: String,
    pub access_expires: Option<String>,
    pub refresh_expires: String,
}

/// A drive.
#[derive(Debug)]
pub struct DriveConfig {
    pub id: String,
    pub name: String,
    pub instance_url: String,
    pub remote_path: String,
    pub credentials: Credentials,
    pub sync_path: String,
    pub icon_path: Option<String>,
    pub raw_icon_path: Option<String>,
    pub enabled: bool,
    pub user_id: String,
    pub ignore_patterns: Vec<String>,
    pub max_file_size_mb: u64,
    pub sse_client_id: String,
    pub mode: DriveMode,
}

/// Greatest size of a file that a new drive takes, in mebibytes.
pub const DEFAULT_MAX_FILE_SIZE_MB: u64 = 3_072;

/// A new drive.
pub fn build_drive_config(
    drive_id: String,
    sse_client_id: String,
    config: AddDriveArgs,
    credentials: Credentials,
) -> (r: DriveConfig)
    ensures
        r.id@ == drive_id@,
        r.name@ == config.drive_name@,
        r.instance_url@ == config.site_url@,
        r.remote_path@ == config.remote_path@,
        r.credentials == credentials,
        r.sync_path@ == config.local_path@,
        r.icon_path is None,
        r.raw_icon_path is None,
        r.enabled,
        r.user_id@ == config.user_id@,
        r.ignore_patterns@.len() == 0,
        r.max_file_size_mb == DEFAULT_MAX_FILE_SIZE_MB,
        r.sse_client_id@ == sse_client_id@,
        r.mode == config.mode,
{
    DriveConfig {
        id: drive_id,
        name: config.drive_name,
        instance_url: config.site_url,
        remote_path: config.remote_path,
        credentials,
        sync_path: config.local_path,
        icon_path: None,
        raw_icon_path: None,
        enabled: true,
        user_id: config.user_id,
        ignore_patterns: Vec::new(),
        max_file_size_mb: DEFAULT_MAX_FILE_SIZE_MB,
        sse_client_id,
        mode: config.mode,
    }
}

/// What comes of a request to add a drive.
#[derive(Debug)]
pub enum AddDrivePlan {
    /// Refused: a new drive cannot have the root of the file system.
    RootDrive,
    /// The drive is there, and gets new credentials.
    Reauthorize { drive_id: String },
    /// The drive is new.
    Create,
}

/// What comes of a request to add a drive.
pub fn plan_add_drive(config: &AddDriveArgs) -> (r: AddDrivePlan)
    ensures
        is_add_plan(r, *config),
{
    match &config.drive_id {
        Some(id) => AddDrivePlan::Reauthorize { drive_id: id.clone() },
        None => if is_root_drive(config.local_path.as_str()) {
            AddDrivePlan::RootDrive
        } else {
            AddDrivePlan::Create
        },
    }
}

/// A lifetime of a token in seconds, as a signed number of 64 bits.
pub open spec fn lifetime_secs(lifetime: u64) -> int {
    if lifetime <= i64::MAX {
        lifetime as int
    } else {
        lifetime - 0x1_0000_0000_0000_0000
    }
}

/// Whether a lifetime is one that can be added to a time.
pub open spec fn is_lifetime(lifetime: u64) -> bool {
    -9_223_372_036_854_775 <= lifetime_secs(lifetime) <= 9_223_372_036_854_775
}

/// When a token expires that has `lifetime` seconds from the given time on; nothing where that is out of
/// range.
pub fn expires_at(now_secs: i64, now_nanos: u32, lifetime: u64) -> (r: Option<String>)
    ensures
        r is Some <==> expires(now_secs, now_nanos, lifetime),
        r matches Some(s) ==> crate::clock::rfc3339_text(
            (now_secs + lifetime_secs(lifetime)) as i64,
            now_nanos,
        ) == Some(s@),
{
    let secs: i64 = if lifetime <= 0x7fff_ffff_ffff_ffff {
        lifetime as i64
    } else {
        let short: u64 = u64::MAX - lifetime;
        -1 - short as i64
    };
    if secs > 9_223_372_036_854_775 || secs < -9_223_372_036_854_775 {
        return None;
    }
    match now_secs.checked_add(secs) {
        Some(at) => timestamp_text(at, now_nanos),
        None => None,
    }
}

/// The credentials of a request to add a drive, given when its tokens expire.
pub fn credentials_of(config: &AddDriveArgs, access_expires: String, refresh_expires: String) -> (r:
    Credentials)
    ensures
        crate::writeback::opt_text(r.access_token) == Some(config.access_token@),
        r.refresh_token@ == config.refresh_token@,
        crate::writeback::opt_text(r.access_expires) == Some(access_expires@),
        r.refresh_expires@ == refresh_expires@,
{
    Credentials {
        access_token: Some(config.access_token.clone()),
        refresh_token: config.refresh_token.clone(),
        access_expires: Some(access_expires),
        refresh_expires,
    }
}

/// Whether the time at which a token expires can be told.
pub open spec fn expires(now_secs: i64, now_nanos: u32, lifetime: u64) -> bool {
    is_lifetime(lifetime) && crate::clock::is_time(now_secs + lifetime_secs(lifetime), now_nanos)
}

/// Whether `c` signs in with the tokens of a request that came at the given time.
pub open spec fn signs_in(c: Credentials, config: AddDriveArgs, secs: i64, nanos: u32) -> bool {
    let access = secs + lifetime_secs(config.access_token_expires);
    let refresh = secs + lifetime_secs(config.refresh_token_expires);
    &&& crate::writeback::opt_text(c.access_token) == Some(config.access_token@)
    &&& c.refresh_token@ == config.refresh_token@
    &&& crate::writeback::opt_text(c.access_expires) == crate::clock::rfc3339_text(access as i64, nanos)
    &&& Some(c.refresh_expires@) == crate::clock::rfc3339_text(refresh as i64, nanos)
}

/// Whether it can be told when the tokens of a request expire that came at the given time.
pub open spec fn tokens_expire(config: AddDriveArgs, secs: i64, nanos: u32) -> bool {
    expires(secs, nanos, config.access_token_expires) && expires(
        secs,
        nanos,
        config.refresh_token_expires,
    )
}

/// Whether `r` are the credentials of a request that came at the given time.
pub open spec fn authorizes(r: Option<Credentials>, config: AddDriveArgs, secs: i64, nanos: u32) -> bool {
    match r {
        Some(c) => tokens_expire(config, secs, nanos) && signs_in(c, config, secs, nanos),
        None => !tokens_expire(config, secs, nanos),
    }
}

/// The credentials of a request that came at the given time; nothing where it cannot be told when its
/// tokens expire.
pub fn new_credentials(config: &AddDriveArgs, now_secs: i64, now_nanos: u32) -> (r: Option<Credentials>)
    ensures
        authorizes(r, *config, now_secs, now_nanos),
{
    match (
        expires_at(now_secs, now_nanos, config.access_token_expires),
        expires_at(now_secs, now_nanos, config.refresh_token_expires),
    ) {
        (Some(access), Some(refresh)) => Some(credentials_of(config, access, refresh)),
        _ => None,
    }
}

/// The credentials of a request that comes now; nothing where its tokens expire at no point in time that
/// the calendar reaches.
pub fn reauthorize(config: &AddDriveArgs) -> (r: Option<Credentials>)
    ensures
        exists|secs: i64, nanos: u32|
            crate::clock::is_reading(secs, nanos) && #[trigger] authorizes(r, *config, secs, nanos),
{
    let now: (i64, u32) = utc_now();
    new_credentials(config, now.0, now.1)
}

/// Whether `r` is the new drive that a request asks for which came at the given time: it signs in with the
/// tokens that it was added with, and is what it was asked to be.
pub open spec fn adds_drive(
    r: Option<DriveConfig>,
    id: Seq<char>,
    sse_client_id: Seq<char>,
    config: AddDriveArgs,
    secs: i64,
    nanos: u32,
) -> bool {
    match r {
        Some(d) => {
            &&& tokens_expire(config, secs, nanos)
            &&& signs_in(d.credentials, config, secs, nanos)
            &&& d.id@ == id
            &&& d.sse_client_id@ == sse_client_id
            &&& d.name@ == config.drive_name@
            &&& d.instance_url@ == config.site_url@
            &&& d.remote_path@ == config.remote_path@
            &&& d.sync_path@ == config.local_path@
            &&& d.user_id@ == config.user_id@
            &&& d.mode == config.mode
            &&& d.enabled
            &&& d.max_file_size_mb == DEFAULT_MAX_FILE_SIZE_MB
            &&& d.ignore_patterns@.len() == 0
            &&& d.icon_path is None
            &&& d.raw_icon_path is None
        },
        None => !tokens_expire(config, secs, nanos),
    }
}

/// The new drive that a request asks for which came at the given time; nothing where it cannot be told
/// when its tokens expire.
pub fn new_drive(
    drive_id: String,
    sse_client_id: String,
    config: AddDriveArgs,
    now_secs: i64,
    now_nanos: u32,
) -> (r: Option<DriveConfig>)
    ensures
        adds_drive(r, drive_id@, sse_client_id@, config, now_secs, now_nanos),
{
    match new_credentials(&config, now_secs, now_nanos) {
        Some(credentials) => Some(
            build_drive_config(drive_id, sse_client_id, config, credentials),
        ),
        None => None,
    }
}

/// Whether `s` is written as a random identifier: groups of lower-case hexadecimal digits of which one
/// tells how it was made.
pub open spec fn is_random_id(s: Seq<char>) -> bool {
    &&& s.len() == 36
    &&& forall|i: int|
        0 <= i < 36 ==> if i == 8 || i == 13 || i == 18 || i == 23 {
            #[trigger] s[i] == '-'
        } else if i == 14 {
            s[i] == '4'
        } else {
            '0' <= s[i] <= '9' || 'a' <= s[i] <= 'f'
        }
}

/// Calls `uuid::Uuid::new_v4` and writes what it returns.
///
/// The contract claims how every such identifier is written. Which one comes is chance.
#[verifier::external_body]
fn new_id() -> (r: String)
    ensures
        is_random_id(r@),
{
    uuid::Uuid::new_v4().to_string()
}

/// Whether `r` is the new drive that a request asks for which came at the given reading of the clock, under
/// random identifiers.
pub open spec fn adds_some_drive(
    r: Option<DriveConfig>,
    id: Seq<char>,
    sse_client_id: Seq<char>,
    config: AddDriveArgs,
    secs: i64,
    nanos: u32,
) -> bool {
    &&& is_random_id(id)
    &&& is_random_id(sse_client_id)
    &&& crate::clock::is_reading(secs, nanos)
    &&& adds_drive(r, id, sse_client_id, config, secs, nanos)
}

/// The new drive that a request asks for which comes now, under identifiers of its own.
pub fn add_drive(config: AddDriveArgs) -> (r: Option<DriveConfig>)
    ensures
        exists|id: Seq<char>, sse_client_id: Seq<char>, secs: i64, nanos: u32| #[trigger]
            adds_some_drive(r, id, sse_client_id, config, secs, nanos),
{
    let drive_id: String = new_id();
    let sse_client_id: String = new_id();
    let now: (i64, u32) = utc_now();
    let ghost id = drive_id@;
    let ghost sse = sse_client_id@;
    let r = new_drive(drive_id, sse_client_id, config, now.0, now.1);
    assert(adds_some_drive(r, id, sse, config, now.0, now.1));
    r
}

// ---------------------------------------------------------------------------
// Settings.
// ---------------------------------------------------------------------------

/// What the settings window shows.
#[derive(Debug)]
pub struct GeneralSettings {
    pub notify_credential_expired: bool,
    pub notify_file_conflict: bool,
    pub fast_popup_launch: bool,
    pub log_to_file: bool,
    pub log_level: String,
    pub log_max_files: usize,
    pub log_dir: String,
    pub language: Option<String>,
    pub heartbeat_interval: u64,
    pub check_updates_on_startup: bool,
    pub auto_install_updates: bool,
}

// ---------------------------------------------------------------------------
// Windows, menu, program.
// ---------------------------------------------------------------------------

/// What becomes of a window that is asked for.
#[derive(Debug, Clone, Copy, PartialEq, Eq, Structural)]
pub enum WindowAction {
    /// It is there and seen: it is hidden.
    Hide,
    /// It is there and not seen: it is moved into place, shown and given the focus.
    Place,
    /// It is there: it is shown and given the focus where it is.
    Raise,
    /// It is not there: it is made.
    Create,
}

/// What becomes of the main window when it is asked for. `visible` tells of a window that is there whether
/// it is seen.
pub fn plan_main_window(visible: Option<bool>) -> (r: WindowAction)
    ensures
        r == main_window_plan(visible),
{
    match visible {
        Some(seen) => if seen {
            WindowAction::Hide
        } else {
            WindowAction::Place
        },
        None => WindowAction::Create,
    }
}

/// What becomes of any other window when it is asked for.
pub fn plan_window(exists: bool) -> (r: WindowAction)
    ensures
        r == window_plan(exists),
{
    if exists {
        WindowAction::Raise
    } else {
        WindowAction::Create
    }
}

/// What a window is made with.
#[derive(Debug)]
pub struct WindowSpec {
    pub label: String,
    pub url: String,
    pub title: String,
    pub width: u32,
    pub height: u32,
    /// Smallest width and height, where there are any.
    pub min_size: Option<(u32, u32)>,
    pub resizable: bool,
    pub minimizable: bool,
    pub skip_taskbar: bool,
    pub blur: bool,
}

/// The main window.
pub fn main_window(locale: &str) -> (r: WindowSpec)
    ensures
        r.label@ == "main_popup"@,
        r.url@ == url_with_lang("index.html/#/popup"@, locale@),
        r.title@ == "Cloudreve"@,
        r.width == 370,
        r.height == 530,
        r.min_size is None,
        !r.resizable,
        !r.minimizable,
        r.skip_taskbar,
        !r.blur,
{
    WindowSpec {
        label: "main_popup".to_owned(),
        url: get_url_with_lang("index.html/#/popup", locale),
        title: "Cloudreve".to_owned(),
        width: 370,
        height: 530,
        min_size: None,
        resizable: false,
        minimizable: false,
        skip_taskbar: true,
        blur: false,
    }
}

/// Whether `w` is the window for drives, with the given title and address.
pub open spec fn is_drive_window(w: WindowSpec, title: Seq<char>, url: Seq<char>) -> bool {
    &&& w.label@ == "add-drive"@
    &&& w.url@ == url
    &&& w.title@ == title
    &&& w.width == 470
    &&& w.height == 630
    &&& w.min_size is None
    &&& !w.resizable
    &&& !w.minimizable
    &&& !w.skip_taskbar
    &&& w.blur
}

/// The window in which a drive is added, or authorised again.
fn drive_window(title: &str, url: String) -> (r: WindowSpec)
    ensures
        is_drive_window(r, title@, url@),
{
    WindowSpec {
        label: "add-drive".to_owned(),
        url,
        title: title.to_owned(),
        width: 470,
        height: 630,
        min_size: None,
        resizable: false,
        minimizable: false,
        skip_taskbar: false,
        blur: true,
    }
}

/// The window in which a drive is added.
pub fn add_drive_window(locale: &str) -> (r: WindowSpec)
    ensures
        is_drive_window(
            r,
            "Add Drive"@,
            url_with_lang("index.html/#/add-drive"@, locale@),
        ),
{
    drive_window("Add Drive", get_url_with_lang("index.html/#/add-drive", locale))
}

/// The window in which a drive is authorised again.
pub fn reauthorize_window(drive_id: &str, site_url: &str, drive_name: &str, locale: &str) -> (r:
    WindowSpec)
    ensures
        is_drive_window(
            r,
            "Reauthorize Drive"@,
            url_with_lang(
                "index.html/#/reauthorize/"@ + drive_id@ + "/"@ + percent_encoded(
                    vstd::utf8::encode_utf8(site_url@),
                ) + "/"@ + percent_encoded(vstd::utf8::encode_utf8(drive_name@)),
                locale@,
            ),
        ),
{
    drive_window("Reauthorize Drive", reauthorize_url(drive_id, site_url, drive_name, locale))
}

/// The settings window.
pub fn settings_window(locale: &str) -> (r: WindowSpec)
    ensures
        r.label@ == "settings"@,
        r.url@ == url_with_lang("index.html/#/settings"@, locale@),
        r.title@ == "Settings"@,
        r.width == 700,
        r.height == 500,
        r.min_size == Some((600u32, 400u32)),
        r.resizable,
        r.minimizable,
        !r.skip_taskbar,
        !r.blur,
{
    WindowSpec {
        label: "settings".to_owned(),
        url: get_url_with_lang("index.html/#/settings", locale),
        title: "Settings".to_owned(),
        width: 700,
        height: 500,
        min_size: Some((600, 400)),
        resizable: true,
        minimizable: true,
        skip_taskbar: false,
        blur: false,
    }
}

/// What an entry of the menu does.
#[derive(Debug, Clone, Copy, PartialEq, Eq, Structural)]
pub enum MenuAction {
    ShowMain,
    AddDrive,
    Settings,
    Quit,
    Nothing,
}

/// What an entry of the menu does.
pub fn menu_action(id: &str) -> (r: MenuAction)
    ensures
        r == action_of(id@),
{
    if same(id, "show") {
        MenuAction::ShowMain
    } else if same(id, "add_drive") {
        MenuAction::AddDrive
    } else if same(id, "settings") {
        MenuAction::Settings
    } else if same(id, "quit") {
        MenuAction::Quit
    } else {
        MenuAction::Nothing
    }
}

/// The link that a second start of the program was called with, which is handed to the first: its first
/// argument.
pub fn deep_link(argv: &Vec<String>) -> (r: Option<String>)
    ensures
        crate::writeback::opt_text(r) == link_of(crate::text::texts(argv@)),
{
    if argv.len() > 1 {
        Some(argv[1].clone())
    } else {
        None
    }
}

/// Whether the program goes on when its last window closes: only a request that names an exit code ends it.
pub fn keeps_running(code: Option<i32>) -> (r: bool)
    ensures
        r == (code is None),
{
    code.is_none()
}

/// Whether a folder counts as empty: one that is no folder, or cannot be read, does. `entries` tells of one
/// that can be read whether there is anything in it.
pub fn is_dir_empty(entries: Option<bool>) -> (r: bool)
    ensures
        r == (entries != Some(true)),
{
    match entries {
        Some(any) => !any,
        None => true,
    }
}

/// Whether `r` is what comes of a request to add a drive.
pub open spec fn is_add_plan(r: AddDrivePlan, config: AddDriveArgs) -> bool {
    match config.drive_id {
        Some(id) => r matches AddDrivePlan::Reauthorize { drive_id } && drive_id@ == id@,
        None => if crate::scan::trimmed(config.local_path@) == "/"@ {
            r is RootDrive
        } else {
            r is Create
        },
    }
}

/// The language to use: the one that was chosen, or else the system's, or else American English.
pub open spec fn effective_locale(chosen: Option<Seq<char>>, system: Option<Seq<char>>) -> Seq<char> {
    match (chosen, system) {
        (Some(c), _) => c,
        (None, Some(s)) => s,
        (None, None) => "en-US"@,
    }
}

/// What becomes of the main window when it is asked for.
pub open spec fn main_window_plan(visible: Option<bool>) -> WindowAction {
    match visible {
        Some(true) => WindowAction::Hide,
        Some(false) => WindowAction::Place,
        None => WindowAction::Create,
    }
}

/// What becomes of any other window when it is asked for.
pub open spec fn window_plan(there: bool) -> WindowAction {
    if there {
        WindowAction::Raise
    } else {
        WindowAction::Create
    }
}

/// What an entry of the menu does.
pub open spec fn action_of(id: Seq<char>) -> MenuAction {
    if id == "show"@ {
        MenuAction::ShowMain
    } else if id == "add_drive"@ {
        MenuAction::AddDrive
    } else if id == "settings"@ {
        MenuAction::Settings
    } else if id == "quit"@ {
        MenuAction::Quit
    } else {
        MenuAction::Nothing
    }
}

/// The link that a second start of the program was called with.
pub open spec fn link_of(argv: Seq<Seq<char>>) -> Option<Seq<char>> {
    if argv.len() > 1 {
        Some(argv[1])
    } else {
        None
    }
}

} // verus!
