//! What holds of what the commands decide.

use vstd::prelude::*;

use crate::commands::{
    AddDriveArgs, AddDrivePlan, Credentials, DriveConfig, MenuAction, WindowAction, WindowSpec,
};

verus! {

/// A page gets its language behind its own address, as the first parameter where the address has none and
/// as one more where it has some.
pub proof fn a_page_gets_its_language_behind_its_address(base: Seq<char>, locale: Seq<char>)
    ensures
        ({
            let url = crate::commands::url_with_lang(base, locale);
            let mark = url[base.len() as int];
            &&& url.len() == base.len() + 5 + locale.len()
            &&& url.subrange(0, base.len() as int) == base
            &&& mark == '?' <==> !base.contains('?')
            &&& mark == '&' <==> base.contains('?')
            &&& url.subrange(base.len() as int + 1, base.len() as int + 5) == "lng="@
            &&& url.subrange(base.len() as int + 5, url.len() as int) == locale
        }),
{
    reveal_strlit("?");
    reveal_strlit("&lng=");
    reveal_strlit("?lng=");
    reveal_strlit("lng=");
    let url = crate::commands::url_with_lang(base, locale);
    if base.contains('?') {
        let i = choose|i: int| 0 <= i < base.len() && base[i] == '?';
        assert(base.subrange(i, i + 1) =~= "?"@);
        assert(crate::scan::occurs_at(base, "?"@, i));
    }
    if crate::scan::holds(base, "?"@) {
        let i = choose|i: int| crate::scan::occurs_at(base, "?"@, i);
        assert(base.subrange(i, i + 1)[0] == base[i]);
        assert(base[i] == '?');
        assert(base.contains('?'));
    }
    assert(url.subrange(0, base.len() as int) =~= base);
    assert(url.subrange(base.len() as int + 1, base.len() as int + 5) =~= "lng="@);
    assert(url.subrange(base.len() as int + 5, url.len() as int) =~= locale);
}

/// A request that names a drive gives that drive new credentials, wherever the request says that it lies.
/// One that names none is refused if and only if the place is a slash alone, among blanks; any other makes
/// a new drive.
pub proof fn a_request_adds_a_drive_or_renews_one(r: AddDrivePlan, config: AddDriveArgs)
    requires
        crate::commands::is_add_plan(r, config),
    ensures
        ({
            let place = config.local_path@;
            let root = exists|k: int| #[trigger] is_only_slash(place, k);
            &&& config.drive_id matches Some(id) ==> (r matches AddDrivePlan::Reauthorize { drive_id }
                && drive_id@ == id@)
            &&& config.drive_id is None ==> (r is RootDrive <==> root) && (r is Create <==> !root)
        }),
{
    let place = config.local_path@;
    let t = crate::scan::trimmed(place);
    reveal_strlit("/");
    crate::scan_laws::trimming_takes_only_blanks_at_the_ends(place);
    if t == "/"@ {
        let (from, to) = choose|from: int, to: int|
            0 <= from < to <= place.len() && t == #[trigger] place.subrange(from, to) && (forall|
                j: int,
            |
                0 <= j < from || to <= j < place.len() ==> crate::scan::is_blank(#[trigger] place[j]));
        assert(place.subrange(from, to)[0] == place[from]);
        assert(is_only_slash(place, from));
    }
    if exists|k: int| #[trigger] is_only_slash(place, k) {
        let k = choose|k: int| #[trigger] is_only_slash(place, k);
        crate::scan_laws::what_can_be_seen_is_not_blank('/');
        assert(!crate::scan::is_blank(place[k]));
        let (from, to) = choose|from: int, to: int|
            0 <= from < to <= place.len() && t == #[trigger] place.subrange(from, to) && (forall|
                j: int,
            |
                0 <= j < from || to <= j < place.len() ==> crate::scan::is_blank(#[trigger] place[j]));
        assert(from <= k < to);
        assert(t[0] == place[from]);
        assert(t.last() == place[to - 1]);
        assert(from == k && to == k + 1);
        assert(t =~= "/"@);
    }
}

/// Whether `s` holds a slash at `k` and blanks elsewhere.
pub open spec fn is_only_slash(s: Seq<char>, k: int) -> bool {
    &&& 0 <= k < s.len()
    &&& s[k] == '/'
    &&& forall|j: int| 0 <= j < s.len() && j != k ==> crate::scan::is_blank(#[trigger] s[j])
}

/// A lifetime of a token is the number of seconds that it says, up to the largest signed number of 64 bits,
/// and beyond that the number below zero that the same bits say.
pub proof fn a_lifetime_is_what_its_bits_say(lifetime: u64)
    ensures
        lifetime < 0x8000_0000_0000_0000 ==> crate::commands::lifetime_secs(lifetime) == lifetime,
        lifetime >= 0x8000_0000_0000_0000 ==> crate::commands::lifetime_secs(lifetime) == lifetime
            - 0x1_0000_0000_0000_0000,
        crate::commands::is_lifetime(lifetime) ==> i64::MIN <= crate::commands::lifetime_secs(lifetime)
            * 1000 <= i64::MAX,
        !crate::commands::is_lifetime(lifetime) ==> crate::commands::lifetime_secs(lifetime) * 1000
            > i64::MAX || crate::commands::lifetime_secs(lifetime) * 1000 < i64::MIN,
{
}

/// Credentials hold the tokens that were given, each with its own end: as many seconds from now as it was
/// given. There are none if and only if one of the ends is out of reach.
pub proof fn each_token_has_its_own_end(
    r: Option<Credentials>,
    config: AddDriveArgs,
    secs: i64,
    nanos: u32,
)
    requires
        crate::commands::authorizes(r, config, secs, nanos),
        crate::clock::is_reading(secs, nanos),
        config.access_token_expires <= 9_000_000_000_000,
        config.refresh_token_expires <= 9_000_000_000_000,
    ensures
        ({
            let access = secs + config.access_token_expires;
            let refresh = secs + config.refresh_token_expires;
            &&& r is Some <==> access <= 8_210_266_876_799 && refresh <= 8_210_266_876_799
            &&& r matches Some(c) ==> {
                &&& c.access_token matches Some(t) && t@ == config.access_token@
                &&& c.refresh_token@ == config.refresh_token@
                &&& crate::writeback::opt_text(c.access_expires) == crate::clock::rfc3339_text(
                    access as i64,
                    nanos,
                )
                &&& Some(c.refresh_expires@) == crate::clock::rfc3339_text(refresh as i64, nanos)
            }
        }),
{
    if let Some(c) = r {
        assert(crate::writeback::opt_text(c.access_token) is Some);
    }
}

/// A new drive is what was asked for, under its own names; it is in use from the start, leaves nothing out
/// but files past three gibibytes, and signs in with the tokens that were given. There is one wherever there
/// are credentials.
pub proof fn a_new_drive_is_what_was_asked_for(
    r: Option<DriveConfig>,
    id: Seq<char>,
    client: Seq<char>,
    config: AddDriveArgs,
    secs: i64,
    nanos: u32,
    credentials: Option<Credentials>,
)
    requires
        crate::commands::adds_drive(r, id, client, config, secs, nanos),
        crate::commands::authorizes(credentials, config, secs, nanos),
    ensures
        r is Some <==> credentials is Some,
        r matches Some(d) ==> {
            &&& d.id@ == id
            &&& d.sse_client_id@ == client
            &&& d.name@ == config.drive_name@
            &&& d.instance_url@ == config.site_url@
            &&& d.remote_path@ == config.remote_path@
            &&& d.sync_path@ == config.local_path@
            &&& d.user_id@ == config.user_id@
            &&& d.mode == config.mode
            &&& d.enabled
            &&& d.ignore_patterns@.len() == 0
            &&& d.max_file_size_mb == 3 * 1024
            &&& d.icon_path is None
            &&& d.raw_icon_path is None
            &&& d.credentials.refresh_token@ == config.refresh_token@
            &&& crate::writeback::opt_text(d.credentials.access_token) == Some(config.access_token@)
            &&& crate::commands::authorizes(Some(d.credentials), config, secs, nanos)
        },
{
}

/// Every window about a drive is one window: of the same name, size and kind, whatever it is about, with the
/// page and the title that were asked for.
pub proof fn windows_about_drives_are_one_window(
    a: WindowSpec,
    b: WindowSpec,
    title: Seq<char>,
    url: Seq<char>,
    other_title: Seq<char>,
    other_url: Seq<char>,
)
    requires
        crate::commands::is_drive_window(a, title, url),
        crate::commands::is_drive_window(b, other_title, other_url),
    ensures
        a.label@ == b.label@,
        a.label@ == "add-drive"@,
        a.title@ == title,
        a.url@ == url,
        a.width == 470 && a.height == 630,
        b.width == a.width && b.height == a.height,
        a.min_size is None,
        !a.resizable && !a.minimizable && !a.skip_taskbar,
        a.blur,
{
}

/// The number that a digit stands for.
pub open spec fn hex_value(c: char) -> int {
    if '0' <= c <= '9' {
        c as int - '0' as int
    } else {
        c as int - 'A' as int + 10
    }
}

/// Letters, digits and the four marks that mean nothing in an address stand for themselves there; any other
/// byte stands as a percent sign and two digits that say the byte. What follows changes nothing of it.
pub proof fn a_byte_stands_for_itself_or_as_two_digits(before: Seq<u8>, b: u8)
    ensures
        ({
            let e = crate::commands::percent_encoded(before);
            let f = crate::commands::percent_encoded(before.push(b));
            let letter = 0x41 <= b <= 0x5a || 0x61 <= b <= 0x7a;
            let plain = letter || 0x30 <= b <= 0x39 || b == 0x2d || b == 0x2e || b == 0x5f || b == 0x7e;
            let n = e.len() as int;
            &&& crate::commands::percent_encoded(Seq::empty()).len() == 0
            &&& plain ==> f == e.push(b as char)
            &&& !plain ==> f.len() == n + 3 && f.subrange(0, n) == e && f[n] == '%' && hex_value(f[n + 1])
                * 16 + hex_value(f[n + 2]) == b
        }),
{
    let e = crate::commands::percent_encoded(before);
    let f = crate::commands::percent_encoded(before.push(b));
    assert(before.push(b).drop_last() =~= before);
    assert(before.push(b).last() == b);
    if f.len() == e.len() + 3 {
        assert(f.subrange(0, e.len() as int) =~= e);
    }
}

/// A language that was chosen is used whatever the system's is; without one, the system's is used, where it
/// has one.
pub proof fn a_chosen_language_comes_first(
    chosen: Seq<char>,
    system: Seq<char>,
    any: Option<Seq<char>>,
)
    ensures
        crate::commands::effective_locale(Some(chosen), any) == chosen,
        crate::commands::effective_locale(None, Some(system)) == system,
        crate::commands::effective_locale(None, None) == "en-US"@,
{
}

/// A window is made if and only if it is not there. The main window is hidden if and only if it is seen, so
/// that asking for it twice shows it and hides it; no other window is ever hidden.
pub proof fn a_window_is_made_only_if_it_is_not_there(visible: Option<bool>, there: bool)
    ensures
        crate::commands::main_window_plan(visible) == WindowAction::Create <==> visible is None,
        crate::commands::main_window_plan(visible) == WindowAction::Hide <==> visible == Some(true),
        crate::commands::main_window_plan(visible) == WindowAction::Place <==> visible == Some(false),
        crate::commands::window_plan(there) == WindowAction::Create <==> !there,
        crate::commands::window_plan(there) == WindowAction::Raise <==> there,
{
}

/// Each entry of the menu does one thing that no other does, and what is no entry does nothing.
pub proof fn every_entry_of_the_menu_does_one_thing(id: Seq<char>, other: Seq<char>)
    ensures
        crate::commands::action_of(id) == crate::commands::action_of(other) && crate::commands::action_of(
            id,
        ) != MenuAction::Nothing ==> id == other,
        crate::commands::action_of(id) == MenuAction::ShowMain <==> id == "show"@,
        crate::commands::action_of(id) == MenuAction::AddDrive <==> id == "add_drive"@,
        crate::commands::action_of(id) == MenuAction::Settings <==> id == "settings"@,
        crate::commands::action_of(id) == MenuAction::Quit <==> id == "quit"@,
{
    reveal_strlit("show");
    reveal_strlit("add_drive");
    reveal_strlit("settings");
    reveal_strlit("quit");
    assert("show"@.len() == 4 && "quit"@.len() == 4 && "settings"@.len() == 8 && "add_drive"@.len() == 9);
    assert("show"@[0] != "quit"@[0]);
}

/// The link that a second start was called with is its first argument, whatever follows; a start without
/// arguments has none.
pub proof fn a_second_start_hands_over_its_first_argument(
    program: Seq<char>,
    link: Seq<char>,
    more: Seq<Seq<char>>,
)
    ensures
        crate::commands::link_of(seq![program, link] + more) == Some(link),
        crate::commands::link_of(seq![program]) is None,
        crate::commands::link_of(Seq::empty()) is None,
{
}

} // verus!
