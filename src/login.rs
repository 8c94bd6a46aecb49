//! The decisions of signing in: which credentials to use, what to ask in
//! the terminal, and when the sign-in is done or has failed.

use vstd::prelude::*;
use vstd::string::StringExecFns;

use crate::text::chars_of;
use crate::error::GrammersthonError;

verus! {

/// What the application gave for signing in.
pub struct LoginConfig {
    pub bot_token: Option<String>,
    pub phone: Option<String>,
    /// Whether the terminal may be asked for what is missing.
    pub interactive: bool,
    /// Whether the password prompt shows the account's hint.
    pub password_hint: bool,
    pub password: Option<String>,
}

/// Where signing in stands.
#[derive(PartialEq, Eq, Structural, Clone, Copy, Debug)]
pub enum LoginPhase {
    Connecting,
    AskingCredentials,
    SigningInBot,
    RequestingCode,
    AskingCode,
    SigningIn,
    CheckingPassword,
    AskingPassword,
    Finished,
}

/// What the last step of signing in came back with.
pub enum LoginEvent {
    /// The connection is up; whether the session is signed in already.
    Connected(bool),
    /// The terminal answered.
    Answer(String),
    /// The login code was sent.
    CodeSent,
    /// Signing in succeeded.
    SignedIn,
    /// The account has a password; its hint, if it has one.
    PasswordRequired(Option<String>),
    /// The last step failed.
    Failed(GrammersthonError),
}

/// What to do next.
pub enum LoginAction {
    Done,
    Fail(GrammersthonError),
    /// Ask in the terminal, hiding the answer when `hide` holds.
    Prompt { question: String, hide: bool },
    BotSignIn(String),
    RequestCode(String),
    SignIn(String),
    CheckPassword(String),
    /// An event that the phase does not expect: nothing to do.
    Nothing,
}

/// The question for a password, with the hint when it is to be shown.
pub open spec fn password_question(hint: Option<String>, show: bool) -> Seq<char> {
    match hint {
        Some(h) if show => "Enter your password (hint: "@ + h@ + ") (hidden): "@,
        _ => "Enter your password (hidden): "@,
    }
}

/// The phase that follows `p` on event `e`.
pub open spec fn login_next(p: LoginPhase, cfg: LoginConfig, e: LoginEvent) -> LoginPhase {
    match (p, e) {
        (LoginPhase::Connecting, LoginEvent::Connected(authorized)) => if authorized {
            LoginPhase::Finished
        } else if cfg.bot_token is Some {
            LoginPhase::SigningInBot
        } else if !cfg.interactive {
            LoginPhase::Finished
        } else if cfg.phone is Some {
            LoginPhase::RequestingCode
        } else {
            LoginPhase::AskingCredentials
        },
        (LoginPhase::AskingCredentials, LoginEvent::Answer(a)) => if a@.contains(':') {
            LoginPhase::SigningInBot
        } else {
            LoginPhase::RequestingCode
        },
        (LoginPhase::RequestingCode, LoginEvent::CodeSent) => LoginPhase::AskingCode,
        (LoginPhase::AskingCode, LoginEvent::Answer(_)) => LoginPhase::SigningIn,
        (LoginPhase::SigningIn, LoginEvent::PasswordRequired(_)) => if cfg.password is Some {
            LoginPhase::CheckingPassword
        } else {
            LoginPhase::AskingPassword
        },
        (LoginPhase::AskingPassword, LoginEvent::Answer(_)) => LoginPhase::CheckingPassword,
        (LoginPhase::SigningInBot, LoginEvent::SignedIn) => LoginPhase::Finished,
        (LoginPhase::SigningIn, LoginEvent::SignedIn) => LoginPhase::Finished,
        (LoginPhase::CheckingPassword, LoginEvent::SignedIn) => LoginPhase::Finished,
        (LoginPhase::Finished, _) => LoginPhase::Finished,
        (_, LoginEvent::Failed(_)) => LoginPhase::Finished,
        _ => p,
    }
}

/// Whether `a` is what to do when `p` meets `e`: a session that is signed
/// in is done; else a bot token is used first, then, in interactive mode
/// only, a phone number given or asked for; an answer with a `:` is a bot
/// token, any other a phone number; a login code is asked for and used; a
/// password, when the account has one, is the saved one or one asked for,
/// hidden; a failure of any step ends signing in with that error.
pub open spec fn login_action_fits(p: LoginPhase, cfg: LoginConfig, e: LoginEvent, a: LoginAction) -> bool {
    match (p, e) {
        (LoginPhase::Finished, _) => a is Nothing,
        (LoginPhase::Connecting, LoginEvent::Connected(authorized)) => if authorized {
            a is Done
        } else if cfg.bot_token is Some {
            a matches LoginAction::BotSignIn(t) && t@ == cfg.bot_token->0@
        } else if !cfg.interactive {
            a matches LoginAction::Fail(err) && err matches GrammersthonError::MissingParameters(m)
                && m@ == if cfg.phone is Some {
                "interactive (code prompt)"@
            } else {
                "bot_token or phone number"@
            }
        } else if cfg.phone is Some {
            a matches LoginAction::RequestCode(n) && n@ == cfg.phone->0@
        } else {
            a matches LoginAction::Prompt { question, hide } && question@
                == "Enter phone number or bot token: "@ && !hide
        },
        (LoginPhase::AskingCredentials, LoginEvent::Answer(ans)) => if ans@.contains(':') {
            a matches LoginAction::BotSignIn(t) && t@ == ans@
        } else {
            a matches LoginAction::RequestCode(n) && n@ == ans@
        },
        (LoginPhase::RequestingCode, LoginEvent::CodeSent) => a matches LoginAction::Prompt {
            question,
            hide,
        } && question@ == "Enter the code you received: "@ && !hide,
        (LoginPhase::AskingCode, LoginEvent::Answer(code)) => a matches LoginAction::SignIn(c)
            && c@ == code@,
        (LoginPhase::SigningIn, LoginEvent::PasswordRequired(hint)) => match cfg.password {
            Some(pw) => a matches LoginAction::CheckPassword(x) && x@ == pw@,
            None => a matches LoginAction::Prompt { question, hide } && question@
                == password_question(hint, cfg.password_hint) && hide,
        },
        (LoginPhase::AskingPassword, LoginEvent::Answer(pw)) => a matches LoginAction::CheckPassword(
            x,
        ) && x@ == pw@,
        (LoginPhase::SigningInBot, LoginEvent::SignedIn) => a is Done,
        (LoginPhase::SigningIn, LoginEvent::SignedIn) => a is Done,
        (LoginPhase::CheckingPassword, LoginEvent::SignedIn) => a is Done,
        (_, LoginEvent::Failed(err)) => a == LoginAction::Fail(err),
        _ => a is Nothing,
    }
}

/// Whether `s` holds the character `c`.
pub fn has_char(s: &str, c: char) -> (r: bool)
    ensures
        r == s@.contains(c),
{
    let cs = chars_of(s);
    let mut i: usize = 0;
    while i < cs.len()
        invariant
            cs@ == s@,
            i <= cs.len(),
            forall|j: int| 0 <= j < i ==> cs@[j] != c,
        decreases cs.len() - i,
    {
        if cs[i] == c {
            return true;
        }
        i += 1;
    }
    false
}

/// The question for a password.
fn ask_password(hint: Option<String>, show: bool) -> (r: String)
    ensures
        r@ == password_question(hint, show),
{
    match hint {
        Some(h) if show => "Enter your password (hint: ".to_owned().concat(h.as_str()).concat(
            ") (hidden): ",
        ),
        _ => "Enter your password (hidden): ".to_owned(),
    }
}

fn copy_of(s: &String) -> (r: String)
    ensures
        r@ == s@,
{
    s.clone()
}

/// The next phase of signing in and what to do in it.
pub fn login_step(p: LoginPhase, cfg: &LoginConfig, e: LoginEvent) -> (r: (LoginPhase, LoginAction))
    ensures
        r.0 == login_next(p, *cfg, e),
        login_action_fits(p, *cfg, e, r.1),
{
    match (p, e) {
        (LoginPhase::Finished, _) => (LoginPhase::Finished, LoginAction::Nothing),
        (LoginPhase::Connecting, LoginEvent::Connected(authorized)) => {
            if authorized {
                (LoginPhase::Finished, LoginAction::Done)
            } else if let Some(t) = &cfg.bot_token {
                (LoginPhase::SigningInBot, LoginAction::BotSignIn(copy_of(t)))
            } else if !cfg.interactive {
                let what = if cfg.phone.is_some() {
                    "interactive (code prompt)"
                } else {
                    "bot_token or phone number"
                };
                (
                    LoginPhase::Finished,
                    LoginAction::Fail(GrammersthonError::MissingParameters(what.to_owned())),
                )
            } else if let Some(n) = &cfg.phone {
                (LoginPhase::RequestingCode, LoginAction::RequestCode(copy_of(n)))
            } else {
                (
                    LoginPhase::AskingCredentials,
                    LoginAction::Prompt {
                        question: "Enter phone number or bot token: ".to_owned(),
                        hide: false,
                    },
                )
            }
        },
        (LoginPhase::AskingCredentials, LoginEvent::Answer(ans)) => {
            if has_char(ans.as_str(), ':') {
                (LoginPhase::SigningInBot, LoginAction::BotSignIn(ans))
            } else {
                (LoginPhase::RequestingCode, LoginAction::RequestCode(ans))
            }
        },
        (LoginPhase::RequestingCode, LoginEvent::CodeSent) => (
            LoginPhase::AskingCode,
            LoginAction::Prompt { question: "Enter the code you received: ".to_owned(), hide: false },
        ),
        (LoginPhase::AskingCode, LoginEvent::Answer(code)) => (
            LoginPhase::SigningIn,
            LoginAction::SignIn(code),
        ),
        (LoginPhase::SigningIn, LoginEvent::PasswordRequired(hint)) => match &cfg.password {
            Some(pw) => (LoginPhase::CheckingPassword, LoginAction::CheckPassword(copy_of(pw))),
            None => (
                LoginPhase::AskingPassword,
                LoginAction::Prompt { question: ask_password(hint, cfg.password_hint), hide: true },
            ),
        },
        (LoginPhase::AskingPassword, LoginEvent::Answer(pw)) => (
            LoginPhase::CheckingPassword,
            LoginAction::CheckPassword(pw),
        ),
        (LoginPhase::SigningInBot, LoginEvent::SignedIn) => (LoginPhase::Finished, LoginAction::Done),
        (LoginPhase::SigningIn, LoginEvent::SignedIn) => (LoginPhase::Finished, LoginAction::Done),
        (LoginPhase::CheckingPassword, LoginEvent::SignedIn) => (
            LoginPhase::Finished,
            LoginAction::Done,
        ),
        (_, LoginEvent::Failed(err)) => (LoginPhase::Finished, LoginAction::Fail(err)),
        (p, _) => (p, LoginAction::Nothing),
    }
}

} // verus!
