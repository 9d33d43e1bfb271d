//! The decisions of signing in: when a stored session is refused, and what
//! follows each answer to a sign-in attempt.

use vstd::prelude::*;

verus! {

/// The report for a stored session that is not signed in.
pub open spec fn session_refused_text() -> Seq<char> {
    "Session not authorized. Please run the program first to authenticate."@
}

/// A stored session is usable only when it is signed in.
pub fn check_session(authorized: bool) -> (r: Result<(), String>)
    ensures
        authorized ==> r is Ok,
        !authorized ==> (r matches Err(e) && e@ == session_refused_text()),
{
    if authorized {
        Ok(())
    } else {
        Err(String::from_str("Session not authorized. Please run the program first to authenticate."))
    }
}

/// The answer to a sign-in attempt with a login code.
#[derive(Debug, Clone)]
pub enum SignInAnswer {
    SignedIn,
    /// The account has a second factor; the password hint, if any.
    PasswordRequired { hint: Option<String> },
    SignUpRequired,
    /// Any other error, which is passed on as it is.
    Failed,
}

/// What follows a sign-in answer.
#[derive(Debug, Clone)]
pub enum SignInNext {
    /// Check that the session is now signed in.
    Verify,
    /// Ask for the second-factor password with this prompt, then check it.
    AskPassword { prompt: String },
    /// Stop with this report.
    Refuse { report: String },
    /// Stop with the error of the attempt.
    PassOn,
}

/// The prompt for the second-factor password: `Enter your 2FA password (hint: HINT)`.
pub open spec fn password_prompt(hint: Seq<char>) -> Seq<char> {
    "Enter your 2FA password (hint: "@ + hint + ")"@
}

/// The report for an account that has not signed up.
pub open spec fn sign_up_text() -> Seq<char> {
    "This account has not signed up yet."@
}

/// Decides what follows a sign-in answer (a missing hint reads as empty).
pub fn after_sign_in(answer: SignInAnswer) -> (r: SignInNext)
    ensures
        answer is SignedIn ==> r is Verify,
        answer matches SignInAnswer::PasswordRequired { hint } ==> (r matches SignInNext::AskPassword {
            prompt,
        } && prompt@ == password_prompt(
            match hint {
                Some(h) => h@,
                None => Seq::empty(),
            },
        )),
        answer is SignUpRequired ==> (r matches SignInNext::Refuse { report } && report@
            == sign_up_text()),
        answer is Failed ==> r is PassOn,
{
    match answer {
        SignInAnswer::SignedIn => SignInNext::Verify,
        SignInAnswer::PasswordRequired { hint } => {
            let mut prompt = String::from_str("Enter your 2FA password (hint: ");
            if let Some(h) = hint {
                prompt.append(h.as_str());
            }
            prompt.append(")");
            SignInNext::AskPassword { prompt }
        },
        SignInAnswer::SignUpRequired => SignInNext::Refuse {
            report: String::from_str("This account has not signed up yet."),
        },
        SignInAnswer::Failed => SignInNext::PassOn,
    }
}

/// The report when the session is still not signed in after the sign-in steps.
pub open spec fn authentication_failed_text() -> Seq<char> {
    "Authentication failed"@
}

/// After the sign-in steps the session must be signed in.
pub fn check_signed_in(authorized: bool) -> (r: Result<(), String>)
    ensures
        authorized ==> r is Ok,
        !authorized ==> (r matches Err(e) && e@ == authentication_failed_text()),
{
    if authorized {
        Ok(())
    } else {
        Err(String::from_str("Authentication failed"))
    }
}

} // verus!
