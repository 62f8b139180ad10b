//! Settings: what the environment gives, with defaults and checks.

use vstd::prelude::*;
use vstd::string::*;

use crate::auth::{derive_playback_origin_key, playback_origin_key};
use crate::number::{
    decimal_int, i32_of, law_written_integers_are_read, lemma_integer_text, parse_i32,
};
use crate::reply::{error, json_error, ErrorReply};
use crate::text::{
    byte_len, chars_of, join2, law_trimming_takes_what_is_around, same_text, text_of, trim_chars,
    trimmed, white_space,
};

verus! {

/// The shortest key that clients may present, in bytes.
pub const MIN_API_KEY_BYTES: usize = 24;

/// A setting that is there and not blank, without the white space around it.
pub open spec fn setting(value: Option<String>) -> Option<Seq<char>> {
    match value {
        Some(v) => if trimmed(v@).len() > 0 {
            Some(trimmed(v@))
        } else {
            None
        },
        None => None,
    }
}

/// Reads a setting that is there and not blank.
pub fn given_setting(value: Option<String>) -> (r: Option<String>)
    ensures
        match r {
            Some(text) => setting(value) == Some(text@),
            None => setting(value) is None,
        },
{
    match value {
        Some(v) => {
            let chars = chars_of(v.as_str());
            let inner = trim_chars(chars.as_slice());
            if inner.len() > 0 {
                Some(text_of(inner))
            } else {
                None
            }
        },
        None => None,
    }
}

/// Reads a setting that has to be there.
pub fn env_required(name: &str, value: Option<String>) -> (r: Result<String, String>)
    ensures
        match r {
            Ok(text) => setting(value) == Some(text@),
            Err(message) => setting(value) is None && message@ == name@ + " is required"@,
        },
{
    match given_setting(value) {
        Some(text) => Ok(text),
        None => Err(join2(name, " is required")),
    }
}

/// The number of the Telegram application, or why there is none.
pub open spec fn api_id_of(value: Option<String>) -> Result<i32, Seq<char>> {
    match setting(value) {
        None => Err("TELEGRAM_API_ID"@ + " is required"@),
        Some(text) => match i32_of(text) {
            Some(id) => Ok(id),
            None => Err("TELEGRAM_API_ID must be an integer"@),
        },
    }
}

/// Reads the number of the Telegram application.
pub fn api_id(value: Option<String>) -> (r: Result<i32, String>)
    ensures
        match r {
            Ok(id) => api_id_of(value) == Ok::<i32, Seq<char>>(id),
            Err(message) => api_id_of(value) == Err::<i32, Seq<char>>(message@),
        },
{
    let text = match env_required("TELEGRAM_API_ID", value) {
        Ok(text) => text,
        Err(message) => return Err(message),
    };
    let chars = chars_of(text.as_str());
    match parse_i32(chars.as_slice()) {
        Some(id) => Ok(id),
        None => Err("TELEGRAM_API_ID must be an integer".to_owned()),
    }
}

/// The key that clients present, or why there is none: a key file goes first,
/// and a blank one counts as none.
pub open spec fn api_key_of(
    file: Option<Result<String, String>>,
    value: Option<String>,
) -> Result<Seq<char>, Seq<char>> {
    match file {
        Some(Err(message)) => Err(message@),
        _ => {
            let from_file = match file {
                Some(Ok(text)) => setting(Some(text)),
                _ => None,
            };
            match (from_file, setting(value)) {
                (Some(key), _) => Ok(key),
                (None, Some(key)) => Ok(key),
                (None, None) => Err("TELEGRAM_DRIVE_API_KEY"@ + " is required"@),
            }
        },
    }
}

/// Reads the key that clients present. `file` is what came of reading the key
/// file, where one is set.
pub fn load_api_key(file: Option<Result<String, String>>, value: Option<String>) -> (r: Result<
    String,
    String,
>)
    ensures
        match r {
            Ok(key) => api_key_of(file, value) == Ok::<Seq<char>, Seq<char>>(key@),
            Err(message) => api_key_of(file, value) == Err::<Seq<char>, Seq<char>>(message@),
        },
{
    match file {
        Some(Ok(text)) => match given_setting(Some(text)) {
            Some(key) => return Ok(key),
            None => {},
        },
        Some(Err(message)) => return Err(message),
        None => {},
    }
    env_required("TELEGRAM_DRIVE_API_KEY", value)
}

/// A setting as it is, or a default where it is not there.
pub open spec fn or_default(value: Option<String>, default: Seq<char>) -> Seq<char> {
    match value {
        Some(v) => v@,
        None => default,
    }
}

fn value_or(value: Option<String>, default: &str) -> (r: String)
    ensures
        r@ == or_default(value, default@),
{
    match value {
        Some(v) => v,
        None => default.to_owned(),
    }
}

/// Where the Telegram session is kept.
pub fn session_path(value: Option<String>) -> (r: String)
    ensures
        r@ == or_default(value, "/data/telegram.session"@),
{
    value_or(value, "/data/telegram.session")
}

/// Where the registry of playback assets is kept.
pub fn playback_registry_path(value: Option<String>) -> (r: String)
    ensures
        r@ == or_default(value, "/data/playback-registry.json"@),
{
    value_or(value, "/data/playback-registry.json")
}

/// What the service reads from the environment.
pub struct ServeEnvironment {
    /// `TELEGRAM_API_ID`
    pub api_id: Option<String>,
    /// What came of reading the file that `TELEGRAM_DRIVE_API_KEY_FILE` names
    pub key_file: Option<Result<String, String>>,
    /// `TELEGRAM_DRIVE_API_KEY`
    pub api_key: Option<String>,
    /// `TELEGRAM_SESSION_PATH`
    pub session_path: Option<String>,
    /// `TELEGRAM_DRIVE_BIND`
    pub bind: Option<String>,
    /// `TELEGRAM_PLAYBACK_REGISTRY_PATH`
    pub registry_path: Option<String>,
}

/// What the service runs with.
#[derive(Debug)]
pub struct ServeSettings {
    pub api_id: i32,
    pub api_key: String,
    pub playback_origin_key: String,
    pub session_path: String,
    pub bind: String,
    pub registry_path: String,
}

/// Why the service does not start with an environment, if it does not.
pub open spec fn serve_refusal(env: ServeEnvironment) -> Option<Seq<char>> {
    match api_id_of(env.api_id) {
        Err(message) => Some(message),
        Ok(_) => match api_key_of(env.key_file, env.api_key) {
            Err(message) => Some(message),
            Ok(key) => if byte_len(key) < MIN_API_KEY_BYTES {
                Some("TELEGRAM_DRIVE_API_KEY must be at least 24 characters"@)
            } else {
                None
            },
        },
    }
}

/// Reads the settings that the service runs with.
pub fn serve(env: ServeEnvironment) -> (r: Result<ServeSettings, String>)
    ensures
        match r {
            Ok(s) => {
                &&& serve_refusal(env) is None
                &&& api_id_of(env.api_id) == Ok::<i32, Seq<char>>(s.api_id)
                &&& api_key_of(env.key_file, env.api_key) == Ok::<Seq<char>, Seq<char>>(s.api_key@)
                &&& s.playback_origin_key@ == playback_origin_key(s.api_key@)
                &&& s.session_path@ == or_default(env.session_path, "/data/telegram.session"@)
                &&& s.bind@ == or_default(env.bind, "0.0.0.0:8550"@)
                &&& s.registry_path@ == or_default(
                    env.registry_path,
                    "/data/playback-registry.json"@,
                )
            },
            Err(message) => serve_refusal(env) == Some(message@),
        },
{
    let id = match api_id(env.api_id) {
        Ok(id) => id,
        Err(message) => return Err(message),
    };
    let key = match load_api_key(env.key_file, env.api_key) {
        Ok(key) => key,
        Err(message) => return Err(message),
    };
    if key.as_str().as_bytes().len() < MIN_API_KEY_BYTES {
        return Err("TELEGRAM_DRIVE_API_KEY must be at least 24 characters".to_owned());
    }
    let origin_key = derive_playback_origin_key(key.as_str());
    Ok(
        ServeSettings {
            api_id: id,
            api_key: key,
            playback_origin_key: origin_key,
            session_path: session_path(env.session_path),
            bind: value_or(env.bind, "0.0.0.0:8550"),
            registry_path: playback_registry_path(env.registry_path),
        },
    )
}

/// Lets the service start with a session that is logged in, and only with
/// one.
pub fn require_authorized_session(authorized: bool) -> (r: Result<(), String>)
    ensures
        match r {
            Ok(_) => authorized,
            Err(message) => !authorized && message@
                == "Telegram session is not authorized. Run the `login` command first."@,
        },
{
    if authorized {
        Ok(())
    } else {
        Err("Telegram session is not authorized. Run the `login` command first.".to_owned())
    }
}

/// A running service cannot be reached without a key: a request that presents
/// nothing is never let through.
pub proof fn law_a_key_is_always_needed(env: ServeEnvironment, key: Seq<char>)
    requires
        serve_refusal(env) is None,
        api_key_of(env.key_file, env.api_key) == Ok::<Seq<char>, Seq<char>>(key),
    ensures
        key.len() > 0,
{
    if key.len() == 0 {
        assert(byte_len(key) == 0);
    }
}

/// What the program is asked to do.
#[derive(Debug)]
pub enum Command {
    Login,
    Serve,
    Help,
    Unknown(String),
}

/// What the program is asked to do by its first argument: to serve, where it
/// has none.
pub fn command_of(argument: Option<String>) -> (r: Command)
    ensures
        ({
            let text = or_default(argument, "serve"@);
            match r {
                Command::Login => text == "login"@,
                Command::Serve => text == "serve"@,
                Command::Help => text == "--help"@ || text == "-h"@ || text == "help"@,
                Command::Unknown(name) => {
                    &&& name@ == text
                    &&& text != "login"@ && text != "serve"@
                    &&& text != "--help"@ && text != "-h"@ && text != "help"@
                },
            }
        }),
{
    let text = value_or(argument, "serve");
    if same_text(text.as_str(), "login") {
        Command::Login
    } else if same_text(text.as_str(), "serve") {
        Command::Serve
    } else if same_text(text.as_str(), "--help") || same_text(text.as_str(), "-h") || same_text(
        text.as_str(),
        "help",
    ) {
        Command::Help
    } else {
        Command::Unknown(text)
    }
}

/// The end of the program for a command that it does not know.
pub fn unknown_command(name: &str) -> (r: String)
    ensures
        r@ == "Unknown command: "@ + name@,
{
    join2("Unknown command: ", name)
}

/// What a running service says of itself.
#[derive(Debug)]
pub struct HealthResponse {
    pub status: String,
    pub version: String,
    pub telegram: String,
}

/// Answers a request for the health of the service, given what came of asking
/// Telegram for the account.
pub fn health(account: Result<(), String>, version: &str) -> (r: Result<
    HealthResponse,
    ErrorReply,
>)
    ensures
        match (account, r) {
            (Ok(_), Ok(h)) => h.status@ == "ok"@ && h.version@ == version@ && h.telegram@
                == "connected"@,
            (Err(message), Err(e)) => e@ == error(
                "NOT_CONNECTED"@,
                "Telegram connection is unavailable: "@ + message@,
                503,
            ),
            _ => false,
        },
{
    match account {
        Ok(_) => Ok(
            HealthResponse {
                status: "ok".to_owned(),
                version: version.to_owned(),
                telegram: "connected".to_owned(),
            },
        ),
        Err(message) => Err(
            json_error(
                "NOT_CONNECTED",
                join2("Telegram connection is unavailable: ", message.as_str()),
                503,
            ),
        ),
    }
}

/// A setting is read as it was written, without the white space around it; a
/// blank one counts as missing.
pub proof fn law_settings_are_read_as_written(
    value: Option<String>,
    front: Seq<char>,
    text: Seq<char>,
    back: Seq<char>,
)
    requires
        forall|i: int| 0 <= i < front.len() ==> white_space(#[trigger] front[i]),
        forall|i: int| 0 <= i < back.len() ==> white_space(#[trigger] back[i]),
        text.len() > 0 ==> !white_space(text[0]) && !white_space(text[text.len() - 1]),
    ensures
        value is None ==> setting(value) is None,
        (value matches Some(v) && v@ == front + text + back) ==> {
            &&& text.len() > 0 ==> setting(value) == Some(text)
            &&& text.len() == 0 ==> setting(value) is None
        },
{
    law_trimming_takes_what_is_around(front, text, back);
}

/// The number of the application is read as it was written, as far as 32 bits
/// reach, with white space around it or not; a setting that is missing, or is
/// no such number, is told of.
pub proof fn law_application_numbers_are_read(
    value: Option<String>,
    front: Seq<char>,
    id: int,
    back: Seq<char>,
)
    requires
        forall|i: int| 0 <= i < front.len() ==> white_space(#[trigger] front[i]),
        forall|i: int| 0 <= i < back.len() ==> white_space(#[trigger] back[i]),
    ensures
        (value matches Some(v) && v@ == front + decimal_int(id) + back) ==> {
            &&& i32::MIN <= id <= i32::MAX ==> api_id_of(value) == Ok::<i32, Seq<char>>(id as i32)
            &&& !(i32::MIN <= id <= i32::MAX) ==> api_id_of(value) == Err::<i32, Seq<char>>(
                "TELEGRAM_API_ID must be an integer"@,
            )
        },
        setting(value) is None ==> api_id_of(value) == Err::<i32, Seq<char>>(
            "TELEGRAM_API_ID"@ + " is required"@,
        ),
        setting(value) matches Some(text) ==> (i32_of(text) is None ==> api_id_of(value) == Err::<
            i32,
            Seq<char>,
        >("TELEGRAM_API_ID must be an integer"@)),
        setting(value) matches Some(text) ==> (i32_of(text) matches Some(n) ==> api_id_of(value)
            == Ok::<i32, Seq<char>>(n)),
{
    lemma_integer_text(id);
    law_settings_are_read_as_written(value, front, decimal_int(id), back);
    law_written_integers_are_read(id);
}

/// The key is what the key file holds, or else what the setting says, without
/// the white space around it. A key file that cannot be read is told of in
/// its own words, and so is a key that is nowhere.
pub proof fn law_the_key_file_goes_first(
    file: Option<Result<String, String>>,
    value: Option<String>,
)
    ensures
        file matches Some(Err(message)) ==> api_key_of(file, value) == Err::<Seq<char>, Seq<char>>(
            message@,
        ),
        file matches Some(Ok(text)) ==> (setting(Some(text)) matches Some(key) ==> api_key_of(
            file,
            value,
        ) == Ok::<Seq<char>, Seq<char>>(key)),
        file is None || (file matches Some(Ok(text)) && setting(Some(text)) is None) ==> {
            &&& setting(value) matches Some(key) ==> api_key_of(file, value) == Ok::<
                Seq<char>,
                Seq<char>,
            >(key)
            &&& setting(value) is None ==> api_key_of(file, value) == Err::<Seq<char>, Seq<char>>(
                "TELEGRAM_DRIVE_API_KEY"@ + " is required"@,
            )
        },
{
}

/// A setting that is there is used as it is, and only else its default.
pub proof fn law_defaults_stand_in_for_what_is_missing(value: Option<String>, default: Seq<char>)
    ensures
        value matches Some(v) ==> or_default(value, default) == v@,
        value is None ==> or_default(value, default) == default,
{
}

/// The service starts with every number and every key of 24 bytes or more; it
/// does not start with a shorter key, nor without a number or a key, and says
/// which.
pub proof fn law_the_service_starts_when_it_can(env: ServeEnvironment)
    ensures
        api_id_of(env.api_id) matches Err(message) ==> serve_refusal(env) == Some(message),
        api_id_of(env.api_id) is Ok ==> {
            &&& api_key_of(env.key_file, env.api_key) matches Err(message) ==> serve_refusal(env)
                == Some(message)
            &&& api_key_of(env.key_file, env.api_key) matches Ok(key) ==> {
                &&& vstd::utf8::encode_utf8(key).len() >= 24 ==> serve_refusal(env) is None
                &&& vstd::utf8::encode_utf8(key).len() < 24 ==> serve_refusal(env) == Some(
                    "TELEGRAM_DRIVE_API_KEY must be at least 24 characters"@,
                )
            }
        },
{
}

} // verus!
