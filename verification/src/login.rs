//! Logging the Telegram session in, once.

use vstd::prelude::*;
use vstd::string::*;
use vstd::utf8::*;

use crate::config::{api_id, api_id_of, given_setting, setting};
use crate::text::{byte_len, chars_of, lemma_bytes_of_two, same_text};

verus! {

/// What a login starts with. A hash that is not given is asked for.
#[derive(Debug)]
pub struct LoginStart {
    pub api_id: i32,
    pub api_hash: Option<String>,
}

/// Starts a login with what the environment gives.
pub fn begin_login(id: Option<String>, api_hash: Option<String>) -> (r: Result<LoginStart, String>)
    ensures
        match r {
            Ok(start) => {
                &&& api_id_of(id) == Ok::<i32, Seq<char>>(start.api_id)
                &&& match start.api_hash {
                    Some(hash) => setting(api_hash) == Some(hash@),
                    None => setting(api_hash) is None,
                }
            },
            Err(message) => api_id_of(id) == Err::<i32, Seq<char>>(message@),
        },
{
    match api_id(id) {
        Ok(number) => Ok(LoginStart { api_id: number, api_hash: given_setting(api_hash) }),
        Err(message) => Err(message),
    }
}

/// Takes a hash that was given or asked for: it has to be something.
pub fn checked_api_hash(api_hash: String) -> (r: Result<String, String>)
    ensures
        match r {
            Ok(hash) => api_hash@.len() > 0 && hash@ == api_hash@,
            Err(message) => api_hash@.len() == 0 && message@ == "Telegram API hash is required"@,
        },
{
    if api_hash.as_str().is_empty() {
        Err("Telegram API hash is required".to_owned())
    } else {
        Ok(api_hash)
    }
}

/// A phone number in international form: a plus sign, and 8 bytes or more.
pub open spec fn international(phone: Seq<char>) -> bool {
    phone.len() > 0 && phone[0] == '+' && byte_len(phone) >= 8
}

/// Takes a phone number that was given or asked for.
pub fn checked_phone(phone: String) -> (r: Result<String, String>)
    ensures
        match r {
            Ok(p) => international(phone@) && p@ == phone@,
            Err(message) => !international(phone@) && message@
                == "Phone number must use international +country format"@,
        },
{
    let chars = chars_of(phone.as_str());
    if chars.len() == 0 || chars[0] != '+' || phone.as_str().as_bytes().len() < 8 {
        Err("Phone number must use international +country format".to_owned())
    } else {
        Ok(phone)
    }
}

/// What came of a request for a login code.
#[derive(Debug)]
pub enum CodeOutcome {
    /// Telegram answered it.
    Sent,
    /// Telegram refused it, with a code and perhaps a number.
    Rpc { code: i32, value: Option<u32>, message: String },
    /// It failed otherwise.
    Failed(String),
    /// No answer came in time.
    TimedOut,
}

/// What to do about a request for a login code.
#[derive(Debug)]
pub enum CodeStep {
    /// Go on with the answer.
    Done,
    /// Move to this data center, and ask again.
    Migrate(i32),
    /// Give up.
    Fail(String),
}

/// What to do about a request for a login code, given whether the session has
/// been moved before: it is moved once at most.
pub fn send_login_code(migrated: bool, outcome: CodeOutcome) -> (r: CodeStep)
    ensures
        match outcome {
            CodeOutcome::Sent => r is Done,
            CodeOutcome::Rpc { code, value, message } => if code == 303 && !migrated {
                match value {
                    Some(dc) if dc <= i32::MAX => r == CodeStep::Migrate(dc as i32),
                    _ => r matches CodeStep::Fail(e) && e@
                        == "Telegram requested an invalid data-center migration"@,
                }
            } else {
                r matches CodeStep::Fail(e) && e@ == message@
            },
            CodeOutcome::Failed(message) => r matches CodeStep::Fail(e) && e@ == message@,
            CodeOutcome::TimedOut => r matches CodeStep::Fail(e) && e@
                == "Telegram timed out while requesting the login code"@,
        },
        migrated ==> !(r is Migrate),
{
    match outcome {
        CodeOutcome::Sent => CodeStep::Done,
        CodeOutcome::Rpc { code, value, message } => {
            if code == 303 && !migrated {
                match value {
                    Some(dc) => {
                        if dc <= 0x7fff_ffff {
                            return CodeStep::Migrate(dc as i32);
                        }
                    },
                    None => {},
                }
                return CodeStep::Fail(
                    "Telegram requested an invalid data-center migration".to_owned(),
                );
            }
            CodeStep::Fail(message)
        },
        CodeOutcome::Failed(message) => CodeStep::Fail(message),
        CodeOutcome::TimedOut => CodeStep::Fail(
            "Telegram timed out while requesting the login code".to_owned(),
        ),
    }
}

/// The answer to a request for a login code.
#[derive(Clone, Copy, Debug, PartialEq, Eq)]
pub enum SentCode {
    /// A code is on its way.
    Code,
    /// None is needed: the session is logged in.
    LoggedIn,
    /// The phone number has no account.
    SignUpRequired,
    /// The code would have to be paid for.
    PaymentRequired,
}

/// What came of handing the login code in.
#[derive(Debug)]
pub enum SignIn {
    /// No answer came in time.
    TimedOut,
    /// The session is logged in.
    LoggedIn,
    /// The phone number has no account.
    SignUpRequired,
    /// Telegram refused it, with the name of the error where it has one.
    Refused { name: Option<String>, message: String },
}

/// What happens to a login.
#[derive(Debug)]
pub enum LoginEvent {
    /// Telegram was asked whether the session is logged in.
    SessionChecked(Result<bool, String>),
    /// The request for a login code was answered.
    CodeSent(SentCode),
    /// The login code was handed in.
    SignedIn(SignIn),
    /// The password was handed in.
    PasswordChecked(Result<(), String>),
}

/// What to do about a login next.
#[derive(Debug)]
pub enum LoginNext {
    /// Ask for the phone number, and Telegram for a code.
    AskPhone,
    /// Ask for the code, and hand it in.
    AskCode,
    /// Ask for the password, and hand it in.
    AskPassword,
    /// Store the account in the session, and say this.
    Complete(String),
    /// Say this, and end.
    Finish(String),
    /// Give up.
    Fail(String),
}

/// What to do about a login next, as plain values.
pub enum LoginNextView {
    AskPhone,
    AskCode,
    AskPassword,
    Complete(Seq<char>),
    Finish(Seq<char>),
    Fail(Seq<char>),
}

impl View for LoginNext {
    type V = LoginNextView;

    open spec fn view(&self) -> LoginNextView {
        match self {
            LoginNext::AskPhone => LoginNextView::AskPhone,
            LoginNext::AskCode => LoginNextView::AskCode,
            LoginNext::AskPassword => LoginNextView::AskPassword,
            LoginNext::Complete(text) => LoginNextView::Complete(text@),
            LoginNext::Finish(text) => LoginNextView::Finish(text@),
            LoginNext::Fail(text) => LoginNextView::Fail(text@),
        }
    }
}

/// The end of a login with a phone number that has no account.
pub open spec fn no_account() -> LoginNextView {
    LoginNextView::Fail("Use an existing Telegram account; sign-up is not supported here"@)
}

/// What to do about a login next.
pub open spec fn login_next(event: LoginEvent) -> LoginNextView {
    match event {
        LoginEvent::SessionChecked(Ok(true)) => LoginNextView::Finish(
            "Telegram session is already authorized."@,
        ),
        LoginEvent::SessionChecked(Ok(false)) => LoginNextView::AskPhone,
        LoginEvent::SessionChecked(Err(message)) => LoginNextView::Fail(message@),
        LoginEvent::CodeSent(SentCode::Code) => LoginNextView::AskCode,
        LoginEvent::CodeSent(SentCode::LoggedIn) => LoginNextView::Complete(
            "Telegram session authorized."@,
        ),
        LoginEvent::CodeSent(SentCode::SignUpRequired) => no_account(),
        LoginEvent::CodeSent(SentCode::PaymentRequired) => LoginNextView::Fail(
            "Telegram did not provide a usable phone-code login flow"@,
        ),
        LoginEvent::SignedIn(SignIn::TimedOut) => LoginNextView::Fail(
            "Telegram timed out while verifying the login code"@,
        ),
        LoginEvent::SignedIn(SignIn::LoggedIn) => LoginNextView::Complete(
            "Telegram session authorized and saved."@,
        ),
        LoginEvent::SignedIn(SignIn::SignUpRequired) => no_account(),
        LoginEvent::SignedIn(SignIn::Refused { name, message }) => match name {
            Some(n) => if n@ == "SESSION_PASSWORD_NEEDED"@ {
                LoginNextView::AskPassword
            } else {
                LoginNextView::Fail(message@)
            },
            None => LoginNextView::Fail(message@),
        },
        LoginEvent::PasswordChecked(Ok(_)) => LoginNextView::Finish(
            "Telegram session authorized and saved."@,
        ),
        LoginEvent::PasswordChecked(Err(message)) => LoginNextView::Fail(message@),
    }
}

/// Says what to do about a login next.
pub fn login(event: LoginEvent) -> (r: LoginNext)
    ensures
        r@ == login_next(event),
{
    match event {
        LoginEvent::SessionChecked(Ok(authorized)) => if authorized {
            LoginNext::Finish("Telegram session is already authorized.".to_owned())
        } else {
            LoginNext::AskPhone
        },
        LoginEvent::SessionChecked(Err(message)) => LoginNext::Fail(message),
        LoginEvent::CodeSent(SentCode::Code) => LoginNext::AskCode,
        LoginEvent::CodeSent(SentCode::LoggedIn) => LoginNext::Complete(
            "Telegram session authorized.".to_owned(),
        ),
        LoginEvent::CodeSent(SentCode::SignUpRequired) => LoginNext::Fail(
            "Use an existing Telegram account; sign-up is not supported here".to_owned(),
        ),
        LoginEvent::CodeSent(SentCode::PaymentRequired) => LoginNext::Fail(
            "Telegram did not provide a usable phone-code login flow".to_owned(),
        ),
        LoginEvent::SignedIn(SignIn::TimedOut) => LoginNext::Fail(
            "Telegram timed out while verifying the login code".to_owned(),
        ),
        LoginEvent::SignedIn(SignIn::LoggedIn) => LoginNext::Complete(
            "Telegram session authorized and saved.".to_owned(),
        ),
        LoginEvent::SignedIn(SignIn::SignUpRequired) => LoginNext::Fail(
            "Use an existing Telegram account; sign-up is not supported here".to_owned(),
        ),
        LoginEvent::SignedIn(SignIn::Refused { name, message }) => match name {
            Some(n) => if same_text(n.as_str(), "SESSION_PASSWORD_NEEDED") {
                LoginNext::AskPassword
            } else {
                LoginNext::Fail(message)
            },
            None => LoginNext::Fail(message),
        },
        LoginEvent::PasswordChecked(Ok(_)) => LoginNext::Finish(
            "Telegram session authorized and saved.".to_owned(),
        ),
        LoginEvent::PasswordChecked(Err(message)) => LoginNext::Fail(message),
    }
}

/// A password is asked for only when Telegram refused the code for the want
/// of one, and a session is stored only when Telegram logged it in.
pub proof fn law_sessions_are_stored_when_logged_in(event: LoginEvent)
    ensures
        login_next(event) is Complete <==> event == LoginEvent::CodeSent(SentCode::LoggedIn)
            || event == LoginEvent::SignedIn(SignIn::LoggedIn),
        login_next(event) is AskPassword <==> (event matches LoginEvent::SignedIn(
            SignIn::Refused { name: Some(n), message: _ },
        ) && n@ == "SESSION_PASSWORD_NEEDED"@),
{
}

/// The account that Telegram logged in.
#[derive(Clone, Copy, Debug, PartialEq, Eq)]
pub enum LoginUser {
    User { id: i64, access_hash: Option<i64>, bot: bool },
    Empty { id: i64 },
}

/// The account as the session stores it.
#[derive(Clone, Copy, Debug, PartialEq, Eq)]
pub struct SelfPeer {
    pub id: i64,
    pub access_hash: Option<i64>,
    pub bot: bool,
    pub is_self: bool,
}

/// The account as the session stores it: marked as the session's own.
pub fn complete_raw_login(user: LoginUser) -> (r: SelfPeer)
    ensures
        r.is_self,
        match user {
            LoginUser::User { id, access_hash, bot } => r.id == id && r.access_hash == access_hash
                && r.bot == bot,
            LoginUser::Empty { id } => r.id == id && r.access_hash is None && !r.bot,
        },
{
    match user {
        LoginUser::User { id, access_hash, bot } => SelfPeer {
            id,
            access_hash,
            bot,
            is_self: true,
        },
        LoginUser::Empty { id } => SelfPeer { id, access_hash: None, bot: false, is_self: true },
    }
}

/// A phone number is taken if and only if it starts with a plus sign and has
/// 7 bytes or more behind it.
pub proof fn law_phone_numbers_are_international(rest: Seq<char>, other: Seq<char>)
    ensures
        international(seq!['+'] + rest) <==> encode_utf8(rest).len() >= 7,
        other.len() == 0 || other[0] != '+' ==> !international(other),
{
    let plus = seq!['+'];
    assert(is_ascii_chars(plus));
    is_ascii_chars_encode_utf8(plus);
    lemma_bytes_of_two(plus, rest);
    assert((plus + rest)[0] == '+');
}

/// A login that fails says why in the words that came, and one that Telegram
/// refused without asking for a password is a login that fails.
pub proof fn law_failed_logins_say_why(message: String, name: Option<String>)
    ensures
        login_next(LoginEvent::SessionChecked(Err(message))) == LoginNextView::Fail(message@),
        login_next(LoginEvent::PasswordChecked(Err(message))) == LoginNextView::Fail(message@),
        name is None || (name matches Some(n) && n@ != "SESSION_PASSWORD_NEEDED"@) ==> login_next(
            LoginEvent::SignedIn(SignIn::Refused { name, message }),
        ) == LoginNextView::Fail(message@),
{
}

/// What is to be done next is seen as it is.
pub proof fn law_next_steps_are_seen_as_they_are(next: LoginNext)
    ensures
        next is AskPhone <==> next@ is AskPhone,
        next is AskCode <==> next@ is AskCode,
        next is AskPassword <==> next@ is AskPassword,
        next matches LoginNext::Complete(text) ==> next@ == LoginNextView::Complete(text@),
        next matches LoginNext::Finish(text) ==> next@ == LoginNextView::Finish(text@),
        next matches LoginNext::Fail(text) ==> next@ == LoginNextView::Fail(text@),
{
}

} // verus!
