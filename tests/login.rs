use grammersthon::{
    login_step, GrammersthonError, LoginAction, LoginConfig, LoginEvent, LoginPhase,
};

fn config() -> LoginConfig {
    LoginConfig {
        bot_token: None,
        phone: None,
        interactive: true,
        password_hint: false,
        password: None,
    }
}

#[test]
fn signed_in_session_is_done() {
    let (p, a) = login_step(LoginPhase::Connecting, &config(), LoginEvent::Connected(true));
    assert_eq!(p, LoginPhase::Finished);
    assert!(matches!(a, LoginAction::Done));
}

#[test]
fn bot_token_comes_first() {
    let mut cfg = config();
    cfg.bot_token = Some("1:abc".to_string());
    cfg.phone = Some("+100".to_string());
    let (p, a) = login_step(LoginPhase::Connecting, &cfg, LoginEvent::Connected(false));
    assert_eq!(p, LoginPhase::SigningInBot);
    assert!(matches!(a, LoginAction::BotSignIn(ref t) if t == "1:abc"));
    let (p, a) = login_step(p, &cfg, LoginEvent::SignedIn);
    assert_eq!(p, LoginPhase::Finished);
    assert!(matches!(a, LoginAction::Done));
}

#[test]
fn missing_credentials_without_terminal() {
    let mut cfg = config();
    cfg.interactive = false;
    let (_, a) = login_step(LoginPhase::Connecting, &cfg, LoginEvent::Connected(false));
    assert!(matches!(a, LoginAction::Fail(GrammersthonError::MissingParameters(ref m)) if m == "bot_token or phone number"));
    cfg.phone = Some("+100".to_string());
    let (_, a) = login_step(LoginPhase::Connecting, &cfg, LoginEvent::Connected(false));
    assert!(matches!(a, LoginAction::Fail(GrammersthonError::MissingParameters(ref m)) if m == "interactive (code prompt)"));
}

#[test]
fn asked_answer_picks_token_or_phone() {
    let cfg = config();
    let (p, a) = login_step(LoginPhase::Connecting, &cfg, LoginEvent::Connected(false));
    assert_eq!(p, LoginPhase::AskingCredentials);
    assert!(matches!(a, LoginAction::Prompt { ref question, hide: false } if question == "Enter phone number or bot token: "));
    let (bot_phase, a) = login_step(p, &cfg, LoginEvent::Answer("12:xyz".to_string()));
    assert_eq!(bot_phase, LoginPhase::SigningInBot);
    assert!(matches!(a, LoginAction::BotSignIn(ref t) if t == "12:xyz"));
    let (code_phase, a) = login_step(p, &cfg, LoginEvent::Answer("+4412".to_string()));
    assert_eq!(code_phase, LoginPhase::RequestingCode);
    assert!(matches!(a, LoginAction::RequestCode(ref n) if n == "+4412"));
}

#[test]
fn code_and_password() {
    let mut cfg = config();
    cfg.password_hint = true;
    let (p, a) = login_step(LoginPhase::RequestingCode, &cfg, LoginEvent::CodeSent);
    assert_eq!(p, LoginPhase::AskingCode);
    assert!(matches!(a, LoginAction::Prompt { ref question, hide: false } if question == "Enter the code you received: "));
    let (p, a) = login_step(p, &cfg, LoginEvent::Answer("12345".to_string()));
    assert_eq!(p, LoginPhase::SigningIn);
    assert!(matches!(a, LoginAction::SignIn(ref c) if c == "12345"));
    let (p, a) = login_step(p, &cfg, LoginEvent::PasswordRequired(Some("pet".to_string())));
    assert_eq!(p, LoginPhase::AskingPassword);
    assert!(matches!(a, LoginAction::Prompt { ref question, hide: true } if question == "Enter your password (hint: pet) (hidden): "));
    let (p, a) = login_step(p, &cfg, LoginEvent::Answer("secret".to_string()));
    assert_eq!(p, LoginPhase::CheckingPassword);
    assert!(matches!(a, LoginAction::CheckPassword(ref x) if x == "secret"));
    let (p, a) = login_step(p, &cfg, LoginEvent::Failed(GrammersthonError::SignInError("invalid".to_string())));
    assert_eq!(p, LoginPhase::Finished);
    assert!(matches!(a, LoginAction::Fail(GrammersthonError::SignInError(_))));
}

#[test]
fn saved_password_and_hidden_hint() {
    let mut cfg = config();
    let (_, a) = login_step(LoginPhase::SigningIn, &cfg, LoginEvent::PasswordRequired(Some("pet".to_string())));
    assert!(matches!(a, LoginAction::Prompt { ref question, hide: true } if question == "Enter your password (hidden): "));
    cfg.password = Some("kept".to_string());
    let (p, a) = login_step(LoginPhase::SigningIn, &cfg, LoginEvent::PasswordRequired(None));
    assert_eq!(p, LoginPhase::CheckingPassword);
    assert!(matches!(a, LoginAction::CheckPassword(ref x) if x == "kept"));
    let (p, a) = login_step(p, &cfg, LoginEvent::SignedIn);
    assert_eq!(p, LoginPhase::Finished);
    assert!(matches!(a, LoginAction::Done));
}
