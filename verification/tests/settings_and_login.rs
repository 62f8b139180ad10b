use telegram_drive_headless::config::{
    api_id, command_of, env_required, health, load_api_key, playback_registry_path,
    require_authorized_session, serve, session_path, unknown_command, Command, ServeEnvironment,
};
use telegram_drive_headless::login::{
    begin_login, checked_api_hash, checked_phone, complete_raw_login, login, send_login_code,
    CodeOutcome, CodeStep, LoginEvent, LoginNext, LoginUser, SelfPeer, SentCode, SignIn,
};
use telegram_drive_headless::peers::{peer_not_found, DialogPeer, PeerCache, PeerStep};

fn text(value: &str) -> Option<String> {
    Some(value.to_string())
}

#[test]
fn required_settings_are_trimmed_and_not_blank() {
    assert_eq!(env_required("NAME", text(" v ")), Ok("v".to_string()));
    assert_eq!(env_required("NAME", text(" \n")), Err("NAME is required".to_string()));
    assert_eq!(env_required("NAME", None), Err("NAME is required".to_string()));
}

#[test]
fn the_application_has_a_number() {
    assert_eq!(api_id(text(" 12345\n")), Ok(12345));
    assert_eq!(api_id(None), Err("TELEGRAM_API_ID is required".to_string()));
    let no_integer = Err("TELEGRAM_API_ID must be an integer".to_string());
    assert_eq!(api_id(text("12a")), no_integer);
    assert_eq!(api_id(text("2147483648")), no_integer);
}

#[test]
fn a_key_file_goes_before_the_key_setting() {
    let file = |t: &str| Some(Ok(t.to_string()));
    assert_eq!(load_api_key(file(" f\n"), text("v")), Ok("f".to_string()));
    assert_eq!(load_api_key(file(" \n"), text(" v ")), Ok("v".to_string()));
    assert_eq!(load_api_key(None, text("v")), Ok("v".to_string()));
    assert_eq!(load_api_key(Some(Err("io".to_string())), text("v")), Err("io".to_string()));
    let required = Err("TELEGRAM_DRIVE_API_KEY is required".to_string());
    assert_eq!(load_api_key(None, None), required);
    assert_eq!(load_api_key(file(""), text(" ")), required);
}

#[test]
fn paths_have_defaults() {
    assert_eq!(session_path(None), "/data/telegram.session");
    assert_eq!(session_path(text("/x")), "/x");
    assert_eq!(playback_registry_path(None), "/data/playback-registry.json");
    assert_eq!(playback_registry_path(text("")), "");
}

fn environment(key: &str) -> ServeEnvironment {
    ServeEnvironment {
        api_id: text("7"),
        key_file: None,
        api_key: text(key),
        session_path: None,
        bind: None,
        registry_path: None,
    }
}

#[test]
fn the_service_starts_with_a_number_and_a_long_key() {
    let settings = serve(environment("abcdefghijklmnopqrstuvwxyz123456")).unwrap();
    assert_eq!(settings.api_id, 7);
    assert_eq!(settings.api_key, "abcdefghijklmnopqrstuvwxyz123456");
    assert_eq!(
        settings.playback_origin_key,
        "4fb1687fa7cdad5acc5d044a6e52ad63040a0865b44a111309c3dfc8237cb2a2"
    );
    assert_eq!(settings.session_path, "/data/telegram.session");
    assert_eq!(settings.bind, "0.0.0.0:8550");
    assert_eq!(settings.registry_path, "/data/playback-registry.json");
    assert!(serve(environment("abcdefghijklmnopqrstuvwx")).is_ok());
    let short = serve(environment("abcdefghijklmnopqrstuvw")).unwrap_err();
    assert_eq!(short, "TELEGRAM_DRIVE_API_KEY must be at least 24 characters");
    let mut without = environment("short");
    without.api_id = None;
    assert_eq!(serve(without).unwrap_err(), "TELEGRAM_API_ID is required");
    let mut keyless = environment("");
    keyless.api_key = None;
    assert_eq!(serve(keyless).unwrap_err(), "TELEGRAM_DRIVE_API_KEY is required");
}

#[test]
fn the_service_starts_with_a_session_that_is_logged_in() {
    assert_eq!(require_authorized_session(true), Ok(()));
    assert_eq!(
        require_authorized_session(false),
        Err("Telegram session is not authorized. Run the `login` command first.".to_string())
    );
}

#[test]
fn commands_are_told_apart() {
    assert!(matches!(command_of(None), Command::Serve));
    assert!(matches!(command_of(text("serve")), Command::Serve));
    assert!(matches!(command_of(text("login")), Command::Login));
    for help in ["--help", "-h", "help"] {
        assert!(matches!(command_of(text(help)), Command::Help));
    }
    match command_of(text("Serve")) {
        Command::Unknown(name) => assert_eq!(unknown_command(&name), "Unknown command: Serve"),
        _ => panic!("known"),
    }
}

#[test]
fn health_is_that_of_the_telegram_connection() {
    let ok = health(Ok(()), "0.1.0").unwrap();
    assert_eq!((ok.status.as_str(), ok.version.as_str()), ("ok", "0.1.0"));
    assert_eq!(ok.telegram, "connected");
    let e = health(Err("down".to_string()), "0.1.0").unwrap_err();
    assert_eq!(e.code, "NOT_CONNECTED");
    assert_eq!(e.message, "Telegram connection is unavailable: down");
    assert_eq!(e.status, 503);
}

#[test]
fn a_login_starts_with_what_is_given() {
    let start = begin_login(text("7"), text(" hash ")).unwrap();
    assert_eq!((start.api_id, start.api_hash), (7, text("hash")));
    assert_eq!(begin_login(text("7"), text("  ")).unwrap().api_hash, None);
    assert_eq!(begin_login(text("7"), None).unwrap().api_hash, None);
    assert_eq!(begin_login(text("x"), None).unwrap_err(), "TELEGRAM_API_ID must be an integer");
    assert_eq!(checked_api_hash("h".to_string()), Ok("h".to_string()));
    assert_eq!(
        checked_api_hash(String::new()),
        Err("Telegram API hash is required".to_string())
    );
}

#[test]
fn phone_numbers_are_international() {
    assert_eq!(checked_phone("+8412345".to_string()), Ok("+8412345".to_string()));
    for phone in ["", "+841234", "8412345678", " +8412345"] {
        assert_eq!(
            checked_phone(phone.to_string()),
            Err("Phone number must use international +country format".to_string())
        );
    }
}

fn moved(code: i32, value: Option<u32>) -> CodeOutcome {
    CodeOutcome::Rpc { code, value, message: "why".to_string() }
}

#[test]
fn a_login_code_is_asked_for_at_one_other_data_center_at_most() {
    assert!(matches!(send_login_code(false, CodeOutcome::Sent), CodeStep::Done));
    assert!(matches!(send_login_code(true, CodeOutcome::Sent), CodeStep::Done));
    assert!(matches!(send_login_code(false, moved(303, Some(4))), CodeStep::Migrate(4)));
    let fails = |migrated, outcome| match send_login_code(migrated, outcome) {
        CodeStep::Fail(message) => message,
        _ => panic!("no failure"),
    };
    assert_eq!(fails(true, moved(303, Some(4))), "why");
    assert_eq!(fails(false, moved(420, Some(4))), "why");
    let invalid = "Telegram requested an invalid data-center migration";
    assert_eq!(fails(false, moved(303, None)), invalid);
    assert_eq!(fails(false, moved(303, Some(0x8000_0000))), invalid);
    assert_eq!(fails(false, CodeOutcome::Failed("io".to_string())), "io");
    assert_eq!(
        fails(false, CodeOutcome::TimedOut),
        "Telegram timed out while requesting the login code"
    );
}

fn next(event: LoginEvent) -> String {
    match login(event) {
        LoginNext::AskPhone => "phone?".to_string(),
        LoginNext::AskCode => "code?".to_string(),
        LoginNext::AskPassword => "password?".to_string(),
        LoginNext::Complete(message) => format!("complete: {message}"),
        LoginNext::Finish(message) => format!("finish: {message}"),
        LoginNext::Fail(message) => format!("fail: {message}"),
    }
}

#[test]
fn a_login_goes_on_as_telegram_answers() {
    assert_eq!(
        next(LoginEvent::SessionChecked(Ok(true))),
        "finish: Telegram session is already authorized."
    );
    assert_eq!(next(LoginEvent::SessionChecked(Ok(false))), "phone?");
    assert_eq!(next(LoginEvent::SessionChecked(Err("io".to_string()))), "fail: io");
    assert_eq!(next(LoginEvent::CodeSent(SentCode::Code)), "code?");
    assert_eq!(
        next(LoginEvent::CodeSent(SentCode::LoggedIn)),
        "complete: Telegram session authorized."
    );
    let no_account = "fail: Use an existing Telegram account; sign-up is not supported here";
    assert_eq!(next(LoginEvent::CodeSent(SentCode::SignUpRequired)), no_account);
    assert_eq!(
        next(LoginEvent::CodeSent(SentCode::PaymentRequired)),
        "fail: Telegram did not provide a usable phone-code login flow"
    );
    assert_eq!(
        next(LoginEvent::SignedIn(SignIn::TimedOut)),
        "fail: Telegram timed out while verifying the login code"
    );
    assert_eq!(
        next(LoginEvent::SignedIn(SignIn::LoggedIn)),
        "complete: Telegram session authorized and saved."
    );
    assert_eq!(next(LoginEvent::SignedIn(SignIn::SignUpRequired)), no_account);
    let refused = |name: Option<&str>| {
        next(LoginEvent::SignedIn(SignIn::Refused {
            name: name.map(str::to_string),
            message: "why".to_string(),
        }))
    };
    assert_eq!(refused(Some("SESSION_PASSWORD_NEEDED")), "password?");
    assert_eq!(refused(Some("PHONE_CODE_INVALID")), "fail: why");
    assert_eq!(refused(None), "fail: why");
    assert_eq!(
        next(LoginEvent::PasswordChecked(Ok(()))),
        "finish: Telegram session authorized and saved."
    );
    assert_eq!(next(LoginEvent::PasswordChecked(Err("no".to_string()))), "fail: no");
}

#[test]
fn the_account_is_stored_as_the_sessions_own() {
    assert_eq!(
        complete_raw_login(LoginUser::User { id: 5, access_hash: Some(9), bot: true }),
        SelfPeer { id: 5, access_hash: Some(9), bot: true, is_self: true }
    );
    assert_eq!(
        complete_raw_login(LoginUser::Empty { id: 6 }),
        SelfPeer { id: 6, access_hash: None, bot: false, is_self: true }
    );
}

#[test]
fn chats_are_searched_for_and_remembered() {
    let mut cache: PeerCache<String> = PeerCache::new();
    assert!(matches!(cache.resolve_peer(None), PeerStep::AskSelf));
    assert!(matches!(cache.resolve_peer(Some(3)), PeerStep::Search(3)));
    assert_eq!(cache.on_dialog(3, DialogPeer::Other, "unnumbered".to_string()), None);
    assert_eq!(cache.on_dialog(3, DialogPeer::User(1), "one".to_string()), None);
    assert_eq!(
        cache.on_dialog(3, DialogPeer::Channel(3), "three".to_string()),
        Some("three".to_string())
    );
    match cache.resolve_peer(Some(3)) {
        PeerStep::Use(peer) => assert_eq!(peer, "three"),
        _ => panic!("forgotten"),
    }
    match cache.resolve_peer(Some(1)) {
        PeerStep::Use(peer) => assert_eq!(peer, "one"),
        _ => panic!("forgotten"),
    }
    assert!(matches!(cache.resolve_peer(Some(2)), PeerStep::Search(2)));
    assert_eq!(peer_not_found(-1001), "Folder/Chat -1001 not found");
}

#[test]
fn group_chats_are_found_and_remembered() {
    let mut cache: PeerCache<String> = PeerCache::new();
    assert!(matches!(cache.resolve_peer(Some(77)), PeerStep::Search(77)));
    assert_eq!(cache.on_dialog(77, DialogPeer::Group(76), "other".to_string()), None);
    assert_eq!(
        cache.on_dialog(77, DialogPeer::Group(77), "group".to_string()),
        Some("group".to_string())
    );
    for (id, name) in [(76, "other"), (77, "group")] {
        match cache.resolve_peer(Some(id)) {
            PeerStep::Use(peer) => assert_eq!(peer, name),
            _ => panic!("forgotten"),
        }
    }
}
