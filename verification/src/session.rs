//! The session cache: login cookies and CSRF tokens kept per console URL and
//! account, so that a valid login is reused instead of asking for a password.

use vstd::prelude::*;

use crate::strmap::StrMap;
use crate::text::{append_chars, chars_of, chars_trim_end_char, string_of, trim_end_char};

verus! {

/// A cached login.
pub struct Session {
    pub url: String,
    pub email: String,
    pub cookies: String,
    pub csrf_token: String,
    pub cached_at: u64,
}

/// The mathematical form of a [`Session`].
pub struct SessionView {
    pub url: Seq<char>,
    pub email: Seq<char>,
    pub cookies: Seq<char>,
    pub csrf_token: Seq<char>,
    pub cached_at: u64,
}

impl View for Session {
    type V = SessionView;

    open spec fn view(&self) -> SessionView {
        SessionView {
            url: self.url@,
            email: self.email@,
            cookies: self.cookies@,
            csrf_token: self.csrf_token@,
            cached_at: self.cached_at,
        }
    }
}

impl Session {
    /// A copy of the session.
    pub fn cloned(&self) -> (res: Session)
        ensures
            res@ == self@,
    {
        Session {
            url: self.url.clone(),
            email: self.email.clone(),
            cookies: self.cookies.clone(),
            csrf_token: self.csrf_token.clone(),
            cached_at: self.cached_at,
        }
    }
}

/// The cache key of an account on a console: the URL without trailing `/`,
/// a `|`, and the e-mail address.
pub open spec fn session_key(url: Seq<char>, email: Seq<char>) -> Seq<char> {
    trim_end_char(url, '/') + "|"@ + email
}

/// The cache key of an account on a console.
pub fn cache_key(url: &str, email: &str) -> (res: String)
    ensures
        res@ == session_key(url@, email@),
{
    let u = chars_of(url);
    let mut k = chars_trim_end_char(&u, '/');
    let bar = chars_of("|");
    append_chars(&mut k, &bar);
    let e = chars_of(email);
    append_chars(&mut k, &e);
    string_of(&k)
}

/// The session cached for an account on a console, if there is one.
pub fn get_cached_session(url: &str, email: &str, sessions: &StrMap<Session>) -> (res: Option<
    Session,
>)
    requires
        sessions.wf(),
    ensures
        match res {
            Some(s) => sessions@.contains_key(session_key(url@, email@)) && s@ == sessions@[session_key(
                url@,
                email@,
            )],
            None => !sessions@.contains_key(session_key(url@, email@)),
        },
{
    let key = cache_key(url, email);
    match sessions.get(key.as_str()) {
        Some(s) => Some(s.cloned()),
        None => None,
    }
}

/// The session that a login at `url` as `email` leaves in the cache.
pub open spec fn new_session(
    url: Seq<char>,
    email: Seq<char>,
    cookies: Seq<char>,
    csrf_token: Seq<char>,
    now: u64,
) -> SessionView {
    SessionView {
        url: trim_end_char(url, '/'),
        email: email,
        cookies: cookies,
        csrf_token: csrf_token,
        cached_at: now,
    }
}

/// Records a login in the cache, in place of any earlier one of the same
/// account on the same console; `now` is the time of the login in seconds
/// since the Unix epoch.
pub fn save_session(
    sessions: &mut StrMap<Session>,
    url: &str,
    email: &str,
    cookies: &str,
    csrf_token: &str,
    now: u64,
)
    requires
        old(sessions).wf(),
    ensures
        final(sessions).wf(),
        final(sessions)@ == old(sessions)@.insert(
            session_key(url@, email@),
            new_session(url@, email@, cookies@, csrf_token@, now),
        ),
{
    let key = cache_key(url, email);
    let u = chars_of(url);
    let clean = chars_trim_end_char(&u, '/');
    let session = Session {
        url: string_of(&clean),
        email: string_of(&chars_of(email)),
        cookies: string_of(&chars_of(cookies)),
        csrf_token: string_of(&chars_of(csrf_token)),
        cached_at: now,
    };
    sessions.insert(key, session);
}

// ---------------------------------------------------------------------------
// Signing in
// ---------------------------------------------------------------------------

/// How far signing in to a console has come.
pub struct AuthProgress {
    /// The cache holds a session for the account.
    pub cached: bool,
    /// Whether the console accepts the cached session, once it was asked.
    pub cached_valid: Option<bool>,
    /// A password is at hand: given on the command line, or typed in.
    pub has_password: bool,
}

/// What signing in does next.
pub enum AuthStep {
    /// Ask the console whether the cached session is still valid.
    CheckCached,
    /// Go on with the cached session.
    UseCached,
    /// Ask the user for the password.
    PromptPassword,
    /// Log in with the password, and cache the new session.
    Login,
}

/// The next step of signing in: a cached session is checked first and used
/// where the console accepts it; otherwise the account logs in, and the
/// password is asked for only where none was given.
pub open spec fn auth_step(p: AuthProgress) -> AuthStep {
    if p.cached && p.cached_valid is None {
        AuthStep::CheckCached
    } else if p.cached && p.cached_valid == Some(true) {
        AuthStep::UseCached
    } else if !p.has_password {
        AuthStep::PromptPassword
    } else {
        AuthStep::Login
    }
}

/// The next step of signing in.
pub fn next_auth_step(p: &AuthProgress) -> (res: AuthStep)
    ensures
        res == auth_step(*p),
{
    match p.cached_valid {
        None => {
            if p.cached {
                return AuthStep::CheckCached;
            }
        },
        Some(valid) => {
            if p.cached && valid {
                return AuthStep::UseCached;
            }
        },
    }
    if !p.has_password {
        AuthStep::PromptPassword
    } else {
        AuthStep::Login
    }
}

/// Signing in never logs in while a cached session that the console accepts
/// is at hand, never uses a cached session the console was not asked about
/// or refused, and asks for the password only where none is at hand.
pub proof fn law_sign_in_order(p: AuthProgress)
    ensures
        auth_step(p) is Login ==> p.has_password && !(p.cached && p.cached_valid == Some(true)),
        auth_step(p) is UseCached ==> p.cached && p.cached_valid == Some(true),
        auth_step(p) is PromptPassword ==> !p.has_password,
        p.cached && p.cached_valid is None ==> auth_step(p) is CheckCached,
{
}

/// A login that was saved is what the cache then holds for that account, and
/// the cache holds the same as before for every other key.
pub proof fn law_saved_session_is_cached(
    before: Map<Seq<char>, SessionView>,
    url: Seq<char>,
    email: Seq<char>,
    cookies: Seq<char>,
    csrf_token: Seq<char>,
    now: u64,
    other: Seq<char>,
)
    ensures
        ({
            let after = before.insert(
                session_key(url, email),
                new_session(url, email, cookies, csrf_token, now),
            );
            &&& after.contains_key(session_key(url, email))
            &&& after[session_key(url, email)] == new_session(url, email, cookies, csrf_token, now)
            &&& other != session_key(url, email) ==> (after.contains_key(other)
                == before.contains_key(other) && (before.contains_key(other) ==> after[other]
                == before[other]))
        }),
{
}

/// Trailing slashes of the console URL do not change the cache key.
pub proof fn law_trailing_slash_same_key(url: Seq<char>, email: Seq<char>)
    ensures
        session_key(url.push('/'), email) == session_key(url, email),
{
    assert(url.push('/').drop_last() =~= url);
}

} // verus!
