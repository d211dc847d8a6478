use cloudreve_vfs::commands::{
    add_drive, add_drive_window, avatar_url, build_drive_config, credentials_of, deep_link, expires_at,
    get_effective_locale, get_url_with_lang, is_dir_empty, is_root_drive, keeps_running, main_window,
    menu_action, new_credentials, new_drive, plan_add_drive, plan_main_window, plan_window, profile_url,
    reauthorize, reauthorize_url, reauthorize_window, settings_window, AddDriveArgs, AddDrivePlan,
    Credentials, DriveMode, GeneralSettings, MenuAction, WindowAction,
};

fn args(mode: DriveMode) -> AddDriveArgs {
    AddDriveArgs {
        site_url: "https://example.com".into(),
        access_token: "at".into(),
        refresh_token: "rt".into(),
        access_token_expires: 3600,
        refresh_token_expires: 7200,
        drive_name: "My Drive".into(),
        remote_path: "/".into(),
        local_path: "/tmp/drive".into(),
        user_id: "u1".into(),
        drive_id: None,
        mode,
    }
}

#[test]
fn add_drive_args_mode_defaults_to_full_mirror_and_threads_on_demand() {
    let with_mode = AddDriveArgs { refresh_token_expires: 3600, ..args(DriveMode::OnDemand) };
    assert_eq!(with_mode.mode, DriveMode::OnDemand);
    let without_mode = AddDriveArgs { refresh_token_expires: 3600, ..args(DriveMode::default()) };
    assert_eq!(without_mode.mode, DriveMode::FullMirror);

    let credentials = || Credentials {
        access_token: Some("at".into()),
        refresh_token: "rt".into(),
        access_expires: Some("2030-01-01T00:00:00Z".into()),
        refresh_expires: "2030-01-01T00:00:00Z".into(),
    };
    let on_demand_config =
        build_drive_config("drive-1".into(), "sse-1".into(), with_mode, credentials());
    assert_eq!(on_demand_config.mode, DriveMode::OnDemand);
    assert_eq!(on_demand_config.id, "drive-1");
    assert_eq!(on_demand_config.sse_client_id, "sse-1");
    assert_eq!(on_demand_config.max_file_size_mb, 3072);
    assert!(on_demand_config.enabled);
    assert_eq!(on_demand_config.credentials.access_token, Some("at".to_string()));

    let mirror_config =
        build_drive_config("drive-2".into(), "sse-2".into(), without_mode, credentials());
    assert_eq!(mirror_config.mode, DriveMode::FullMirror);
}

#[test]
fn tokens_expire_after_their_lifetime() {
    assert_eq!(expires_at(0, 0, 3600).unwrap(), "1970-01-01T01:00:00+00:00");
    assert_eq!(
        expires_at(1_700_000_000, 500_000_000, 60).unwrap(),
        "2023-11-14T22:14:20.500+00:00"
    );
    assert_eq!(expires_at(10, 0, u64::MAX).unwrap(), "1970-01-01T00:00:09+00:00");
    assert!(expires_at(0, 0, i64::MAX as u64).is_none());
}

#[test]
fn tokens_expire_only_where_the_calendar_reaches() {
    let (first, last) = (-8_334_601_228_800, 8_210_266_876_799);
    assert!(expires_at(last, 999_999_999, 0).is_some());
    assert!(expires_at(last, 0, 1).is_none());
    assert!(expires_at(last - 1, 0, 1).is_some());
    assert!(expires_at(first, 0, 0).is_some());
    assert!(expires_at(first, 0, u64::MAX).is_none(), "one second before the first");
    assert!(expires_at(0, 1_000_000_000, 0).is_none());
    assert!(expires_at(59, 1_999_999_999, 0).is_some(), "a leap second");
    assert!(expires_at(-1, 1_000_000_000, 0).is_some(), "a leap second before 1970");
    assert!(expires_at(59, 2_000_000_000, 0).is_none());
}

#[test]
fn a_new_drive_has_the_tokens_that_it_was_added_with() {
    let d = new_drive("d".into(), "s".into(), args(DriveMode::OnDemand), 0, 0).unwrap();
    assert_eq!(d.credentials.access_expires, Some("1970-01-01T01:00:00+00:00".to_string()));
    assert_eq!(d.credentials.refresh_expires, "1970-01-01T02:00:00+00:00");
    assert_eq!(d.sync_path, "/tmp/drive");
}

#[test]
fn a_drive_that_is_added_now_has_identifiers_of_its_own() {
    let before = chrono::Utc::now().timestamp();
    let d = add_drive(args(DriveMode::OnDemand)).unwrap();
    let after = chrono::Utc::now().timestamp();
    for id in [&d.id, &d.sse_client_id] {
        assert_eq!(id.len(), 36);
        assert_eq!(id.chars().filter(|c| *c == '-').count(), 4);
        assert_eq!(&id[14..15], "4");
    }
    assert_ne!(d.id, d.sse_client_id);
    assert_eq!(d.name, "My Drive");
    assert_eq!(d.instance_url, "https://example.com");
    let expires = chrono::DateTime::parse_from_rfc3339(&d.credentials.refresh_expires).unwrap();
    assert!(before + 7200 <= expires.timestamp() && expires.timestamp() <= after + 7200);
}

#[test]
fn a_drive_that_is_authorised_again_gets_the_new_tokens() {
    let c = reauthorize(&args(DriveMode::FullMirror)).unwrap();
    assert_eq!(c.access_token, Some("at".to_string()));
    assert_eq!(c.refresh_token, "rt");
    let access = chrono::DateTime::parse_from_rfc3339(&c.access_expires.unwrap()).unwrap();
    let refresh = chrono::DateTime::parse_from_rfc3339(&c.refresh_expires).unwrap();
    assert_eq!(refresh.timestamp() - access.timestamp(), 3600);

    let endless = AddDriveArgs { access_token_expires: i64::MAX as u64, ..args(DriveMode::OnDemand) };
    assert!(reauthorize(&endless).is_none());
    assert!(new_credentials(&args(DriveMode::OnDemand), 0, 0).is_some());
    let past = credentials_of(&endless, "a".into(), "b".into());
    assert_eq!(past.access_expires, Some("a".to_string()));
    assert_eq!(past.refresh_expires, "b");
}

#[test]
fn the_root_is_no_place_for_a_new_drive() {
    assert!(is_root_drive(" / "));
    assert!(!is_root_drive("/tmp"));
    let mut a = args(DriveMode::FullMirror);
    assert!(matches!(plan_add_drive(&a), AddDrivePlan::Create));
    a.local_path = "/".into();
    assert!(matches!(plan_add_drive(&a), AddDrivePlan::RootDrive));
    a.drive_id = Some("d7".into());
    match plan_add_drive(&a) {
        AddDrivePlan::Reauthorize { drive_id } => assert_eq!(drive_id, "d7"),
        other => panic!("{other:?}"),
    }
}

#[test]
fn the_language_is_the_chosen_one_or_the_systems() {
    assert_eq!(get_effective_locale(Some("de".into()), Some("fr".into())), "de");
    assert_eq!(get_effective_locale(None, Some("fr".into())), "fr");
    assert_eq!(get_effective_locale(None, None), "en-US");
}

#[test]
fn addresses_carry_the_language() {
    assert_eq!(get_url_with_lang("index.html", "de"), "index.html?lng=de");
    assert_eq!(get_url_with_lang("index.html?a=1", "de"), "index.html?a=1&lng=de");
    assert_eq!(
        reauthorize_url("d1", "https://a.b/c", "My Drive~1", "en-US"),
        "index.html/#/reauthorize/d1/https%3A%2F%2Fa.b%2Fc/My%20Drive~1?lng=en-US"
    );
    assert_eq!(avatar_url("https://a", "u"), "https://a/api/v4/user/avatar/u");
    assert_eq!(profile_url("https://a", "u"), "https://a/profile/u");
}

#[test]
fn windows_are_hidden_placed_raised_or_made() {
    assert_eq!(plan_main_window(Some(true)), WindowAction::Hide);
    assert_eq!(plan_main_window(Some(false)), WindowAction::Place);
    assert_eq!(plan_main_window(None), WindowAction::Create);
    assert_eq!(plan_window(true), WindowAction::Raise);
    assert_eq!(plan_window(false), WindowAction::Create);
    assert_eq!(main_window("de").url, "index.html/#/popup?lng=de");
    assert_eq!(add_drive_window("de").title, "Add Drive");
    assert_eq!(reauthorize_window("d", "s", "n", "de").title, "Reauthorize Drive");
    assert_eq!(settings_window("de").min_size, Some((600, 400)));
}

#[test]
fn menu_entries_do_what_they_say() {
    assert_eq!(menu_action("show"), MenuAction::ShowMain);
    assert_eq!(menu_action("add_drive"), MenuAction::AddDrive);
    assert_eq!(menu_action("settings"), MenuAction::Settings);
    assert_eq!(menu_action("quit"), MenuAction::Quit);
    assert_eq!(menu_action("other"), MenuAction::Nothing);
}

#[test]
fn a_second_start_hands_its_link_on() {
    assert_eq!(deep_link(&vec!["prog".to_string()]), None);
    assert_eq!(
        deep_link(&vec!["prog".to_string(), "cloudreve://x".to_string()]),
        Some("cloudreve://x".to_string())
    );
    assert!(keeps_running(None));
    assert!(!keeps_running(Some(0)));
}

#[test]
fn a_folder_that_cannot_be_read_counts_as_empty() {
    assert!(is_dir_empty(None));
    assert!(is_dir_empty(Some(false)));
    assert!(!is_dir_empty(Some(true)));
}

#[test]
fn settings_are_shown_as_they_are() {
    let s = GeneralSettings {
        notify_credential_expired: true,
        notify_file_conflict: false,
        fast_popup_launch: true,
        log_to_file: false,
        log_level: "info".into(),
        log_max_files: 5,
        log_dir: "/l".into(),
        language: None,
        heartbeat_interval: 30,
        check_updates_on_startup: true,
        auto_install_updates: false,
    };
    assert_eq!(s.heartbeat_interval, 30);
    assert!(s.fast_popup_launch && s.language.is_none());
}
