//! The authentication handshake: a browser-based sign-in correlated back to
//! the process through deep-link callbacks, a secret exchanged for session
//! cookies, and the cookies persisted. One attempt may be in flight at a
//! time; the state machine here decides every acceptance, refusal and
//! timeout, while the surrounding application opens the browser, waits on
//! the callback channel, performs the exchange and talks to the credential
//! store.

use vstd::prelude::*;

use crate::consts::base_url;
use crate::credentials::{fold_entries, json_decode, json_encode, CredentialMap};
use crate::text::{chars_start_with, chars_to_string, starts_with_seq, to_chars, trim_chars,
    trim_seq};

verus! {

/// The handshake's failures.
#[derive(Clone, Copy, Debug, PartialEq, Eq, Structural)]
pub enum AuthError {
    /// No accepted callback arrived before the deadline.
    CallbackTimeout,
    /// The callback channel closed while an attempt waited on it.
    CallbackChannelClosed,
    /// A callback URL could not be parsed at all.
    InvalidCallbackUrl,
    /// An accepted callback carried no `secret` query parameter.
    NoSecretInUrl,
    /// Another sign-in attempt holds the lock.
    AlreadyInProgress,
    /// The exchange answered with an error, or with no cookies.
    CredentialExchangeFailed,
    /// The credential store refused an operation.
    CredentialStoreFailed,
}

/// The components of a parsed callback URL that the handshake reads.
#[derive(Debug)]
pub struct CallbackParts {
    pub scheme: String,
    pub path: String,
    pub query: Vec<(String, String)>,
}

/// The mathematical value of a [`CallbackParts`].
pub struct CallbackPartsView {
    pub scheme: Seq<char>,
    pub path: Seq<char>,
    pub query: Seq<(Seq<char>, Seq<char>)>,
}

impl View for CallbackParts {
    type V = CallbackPartsView;

    open spec fn view(&self) -> CallbackPartsView {
        CallbackPartsView {
            scheme: self.scheme@,
            path: self.path@,
            query: self.query@.map_values(|p: (String, String)| (p.0@, p.1@)),
        }
    }
}

/// What parsing a URL yields: a function of the URL text alone.
pub uninterp spec fn url_parts_of(s: Seq<char>) -> Option<CallbackPartsView>;

/// Relies on `url::Url::parse` and its accessors `scheme` (lower-cased,
/// without the `:`), `path`, and `query_pairs` (the query read as
/// `application/x-www-form-urlencoded` pairs, percent-decoded): for a given
/// URL text the outcome is a function of that text alone.
#[verifier::external_body]
fn parse_callback_url(s: &str) -> (r: Option<CallbackParts>)
    ensures
        (match url_parts_of(s@) {
            Some(p) => r matches Some(q) && q@ == p,
            None => r is None,
        }),
{
    match url::Url::parse(s) {
        Ok(u) => Some(CallbackParts {
            scheme: u.scheme().to_string(),
            path: u.path().to_string(),
            query: u.query_pairs().map(|(k, v)| (k.into_owned(), v.into_owned())).collect(),
        }),
        Err(_) => None,
    }
}

/// The custom URL scheme registered for the application.
pub open spec fn app_scheme() -> Seq<char> {
    "clipture"@
}

/// A callback completes the sign-in only when it carries the app's scheme
/// and its path is not the initiating login redirect.
pub open spec fn accepted_callback(p: CallbackPartsView) -> bool {
    &&& p.scheme == app_scheme()
    &&& !starts_with_seq(p.path, "/login"@)
    &&& !starts_with_seq(p.path, "login"@)
}

/// The first `secret` query parameter, if any.
pub open spec fn find_secret(q: Seq<(Seq<char>, Seq<char>)>) -> Option<Seq<char>>
    decreases q.len(),
{
    if q.len() == 0 {
        None
    } else if q[0].0 == "secret"@ {
        Some(q[0].1)
    } else {
        find_secret(q.drop_first())
    }
}

/// How the handshake reads one callback.
#[derive(Debug, PartialEq)]
pub enum CallbackOutcome {
    /// Not a completion callback; the attempt keeps waiting.
    Ignored,
    /// A completion callback without a `secret` parameter; the attempt
    /// fails.
    MissingSecret,
    /// A completion callback; the attempt moves on to the exchange with
    /// this secret, trimmed of surrounding whitespace.
    Accepted(String),
}

/// Reads one parsed callback: completion callbacks yield their trimmed
/// secret, the initiating redirect and foreign schemes are ignored, and a
/// completion callback without a secret fails.
pub fn evaluate_callback(parts: &CallbackParts) -> (r: CallbackOutcome)
    ensures
        !accepted_callback(parts@) ==> r is Ignored,
        accepted_callback(parts@) && find_secret(parts@.query) is None ==> r is MissingSecret,
        (accepted_callback(parts@) && find_secret(parts@.query) is Some) ==> (r matches
            CallbackOutcome::Accepted(t) && t@ == trim_seq(find_secret(parts@.query).unwrap())),
{
    let expected = String::from_str("clipture");
    if !(parts.scheme == expected) {
        return CallbackOutcome::Ignored;
    }
    let path_chars = to_chars(parts.path.as_str());
    let slash_login = to_chars("/login");
    let bare_login = to_chars("login");
    if chars_start_with(&path_chars, &slash_login) || chars_start_with(&path_chars, &bare_login) {
        return CallbackOutcome::Ignored;
    }
    let ghost qv = parts@.query;
    let secret_key = String::from_str("secret");
    proof {
        assert(qv.skip(0) =~= qv);
    }
    let mut i: usize = 0;
    while i < parts.query.len()
        invariant
            accepted_callback(parts@),
            i <= parts.query@.len(),
            qv == parts@.query,
            secret_key@ == "secret"@,
            find_secret(qv) == find_secret(qv.skip(i as int)),
        decreases parts.query@.len() - i,
    {
        proof {
            assert(qv.skip(i as int)[0] == qv[i as int]);
            assert(qv.skip(i as int).drop_first() =~= qv.skip(i + 1));
        }
        if parts.query[i].0 == secret_key {
            proof {
                assert(qv[i as int].0 == "secret"@);
                assert(find_secret(qv) == Some(qv[i as int].1));
            }
            let secret_chars = to_chars(parts.query[i].1.as_str());
            let trimmed = trim_chars(&secret_chars);
            return CallbackOutcome::Accepted(chars_to_string(&trimmed));
        }
        i = i + 1;
    }
    proof {
        assert(qv.skip(qv.len() as int).len() == 0);
    }
    CallbackOutcome::MissingSecret
}

/// Where a sign-in attempt stands.
#[derive(Clone, Copy, Debug, PartialEq, Eq, Structural)]
pub enum AuthPhase {
    /// No attempt is in flight.
    Idle,
    /// The browser is open; the attempt waits for a completion callback
    /// until the absolute deadline, in seconds.
    AwaitingCallback { deadline: u64 },
    /// A secret was accepted; the exchange is under way.
    Exchanging,
}

/// How long an attempt waits for its completion callback, in seconds.
pub const SIGN_IN_TIMEOUT_SECS: u64 = 600;

/// The sign-in manager: the in-memory cookie cache, mirroring the persisted
/// store, and the single-attempt lock.
#[derive(Debug)]
pub struct AuthManager {
    pub cookie_map: Option<CredentialMap>,
    pub phase: AuthPhase,
}

impl AuthManager {
    /// The cached map, where one is held, has pairwise distinct keys.
    pub open spec fn wf(&self) -> bool {
        match self.cookie_map {
            Some(m) => m.wf(),
            None => true,
        }
    }

    /// A manager loaded from what the credential store held: its JSON text
    /// decoded, an unreadable or absent value treated as signed out.
    pub fn new(stored: Option<&str>) -> (r: Self)
        ensures
            r.wf(),
            r.phase == AuthPhase::Idle,
            (match stored {
                Some(s) => (match json_decode(s@) {
                    Some(es) => r.cookie_map matches Some(m) && m@ == fold_entries(es),
                    None => r.cookie_map is None,
                }),
                None => r.cookie_map is None,
            }),
    {
        let cookie_map = match stored {
            Some(s) => CredentialMap::decode(s),
            None => None,
        };
        AuthManager { cookie_map, phase: AuthPhase::Idle }
    }

    /// Whether a user is signed in: exactly when the in-memory cache holds
    /// a map.
    pub fn is_logged_in(&self) -> (r: bool)
        ensures
            r == (self.cookie_map is Some),
    {
        match &self.cookie_map {
            Some(_) => true,
            None => false,
        }
    }

    /// The cached cookies, if any.
    pub fn get_cookies(&self) -> (r: Option<CredentialMap>)
        ensures
            (match r {
                Some(m) => self.cookie_map matches Some(c) && m@ == c@,
                None => self.cookie_map is None,
            }),
    {
        match &self.cookie_map {
            Some(m) => Some(m.clone()),
            None => None,
        }
    }

    /// The login URL that a fresh attempt opens in the browser.
    pub fn sign_in_url() -> (r: String)
        ensures
            r@ == base_url() + "/redirects/login?appLogin=true"@,
    {
        crate::consts::clipture_to_url("/redirects/login?appLogin=true")
    }

    /// Takes the sign-in lock and starts an attempt at `now` (seconds).
    /// While another attempt is in flight the call fails with
    /// `AlreadyInProgress` and changes nothing, so no second browser window
    /// is opened: the caller opens [`Self::sign_in_url`] only on success.
    /// On success the attempt waits for its callback until the absolute
    /// deadline ten minutes from `now`.
    pub fn begin_sign_in(&mut self, now: u64) -> (r: Result<String, AuthError>)
        requires
            old(self).wf(),
            now + SIGN_IN_TIMEOUT_SECS <= u64::MAX,
        ensures
            final(self).wf(),
            r is Ok <==> old(self).phase == AuthPhase::Idle,
            r matches Ok(url) ==> url@ == base_url() + "/redirects/login?appLogin=true"@ && final(self).phase == (AuthPhase::AwaitingCallback { deadline: (now + SIGN_IN_TIMEOUT_SECS) as u64 }),
            r is Err ==> r == Result::<String, AuthError>::Err(AuthError::AlreadyInProgress)
                && *final(self) == *old(self),
            final(self).cookie_map == old(self).cookie_map,
    {
        match self.phase {
            AuthPhase::Idle => {
                self.phase = AuthPhase::AwaitingCallback { deadline: now + SIGN_IN_TIMEOUT_SECS };
                Ok(Self::sign_in_url())
            },
            _ => Err(AuthError::AlreadyInProgress),
        }
    }

    /// Reads one callback URL received at `now` (seconds) while an attempt
    /// waits. At or past the deadline the attempt fails with
    /// `CallbackTimeout`. Before it, a URL that does not parse, carries a
    /// foreign scheme or is the initiating redirect is discarded and the
    /// wait goes on; a completion callback without a secret ends the
    /// attempt with `NoSecretInUrl`; otherwise its trimmed secret moves the
    /// attempt to the exchange.
    pub fn handle_callback(&mut self, now: u64, url: &str) -> (r: Result<
        CallbackOutcome,
        AuthError,
    >)
        requires
            old(self).wf(),
            old(self).phase matches AuthPhase::AwaitingCallback { .. },
        ensures
            final(self).wf(),
            final(self).cookie_map == old(self).cookie_map,
            (old(self).phase matches AuthPhase::AwaitingCallback { deadline } ==> {
                if now >= deadline {
                    r == Result::<CallbackOutcome, AuthError>::Err(AuthError::CallbackTimeout)
                        && final(self).phase == AuthPhase::Idle
                } else {
                    match url_parts_of(url@) {
                        None => r matches Ok(o) && o is Ignored && final(self).phase == old(self).phase,
                        Some(p) => {
                            if !accepted_callback(p) {
                                r matches Ok(o) && o is Ignored && final(self).phase == old(self).phase
                            } else if find_secret(p.query) is None {
                                r == Result::<CallbackOutcome, AuthError>::Err(
                                    AuthError::NoSecretInUrl,
                                ) && final(self).phase == AuthPhase::Idle
                            } else {
                                r matches Ok(o) && o matches CallbackOutcome::Accepted(t) && t@
                                    == trim_seq(find_secret(p.query).unwrap()) && final(self).phase
                                    == AuthPhase::Exchanging
                            }
                        },
                    }
                }
            }),
    {
        let deadline = match self.phase {
            AuthPhase::AwaitingCallback { deadline } => deadline,
            _ => 0,
        };
        if now >= deadline {
            self.phase = AuthPhase::Idle;
            return Err(AuthError::CallbackTimeout);
        }
        match parse_callback_url(url) {
            None => Ok(CallbackOutcome::Ignored),
            Some(parts) => {
                match evaluate_callback(&parts) {
                    CallbackOutcome::Ignored => Ok(CallbackOutcome::Ignored),
                    CallbackOutcome::MissingSecret => {
                        self.phase = AuthPhase::Idle;
                        Err(AuthError::NoSecretInUrl)
                    },
                    CallbackOutcome::Accepted(secret) => {
                        self.phase = AuthPhase::Exchanging;
                        Ok(CallbackOutcome::Accepted(secret))
                    },
                }
            },
        }
    }

    /// Reads the closing of the callback channel while an attempt waits:
    /// the attempt ends, and the lock is released.
    pub fn handle_channel_closed(&mut self) -> (e: AuthError)
        requires
            old(self).wf(),
        ensures
            final(self).wf(),
            e == AuthError::CallbackChannelClosed,
            final(self).phase == AuthPhase::Idle,
            final(self).cookie_map == old(self).cookie_map,
    {
        self.phase = AuthPhase::Idle;
        AuthError::CallbackChannelClosed
    }

    /// Reads the outcome of the secret exchange. `None` stands for a failed
    /// request or a non-success status; an answer with zero cookie entries
    /// fails too, and in both cases the cache is left as it stood. On
    /// success the folded map is cached and its JSON text returned for the
    /// caller to persist. The attempt's lock is released either way.
    pub fn complete_exchange(&mut self, entries: Option<Vec<(String, String)>>) -> (r: Result<
        String,
        AuthError,
    >)
        requires
            old(self).wf(),
            old(self).phase == AuthPhase::Exchanging,
        ensures
            final(self).wf(),
            final(self).phase == AuthPhase::Idle,
            entries is None ==> r == Result::<String, AuthError>::Err(
                AuthError::CredentialExchangeFailed,
            ) && final(self).cookie_map == old(self).cookie_map,
            (entries matches Some(list) ==> {
                let m = fold_entries(list@.map_values(|p: (String, String)| (p.0@, p.1@)));
                if m.len() == 0 {
                    r == Result::<String, AuthError>::Err(AuthError::CredentialExchangeFailed)
                        && final(self).cookie_map == old(self).cookie_map
                } else {
                    r matches Ok(text) && text@ == json_encode(m) && (final(self).cookie_map
                        matches Some(cm) && cm@ == m)
                }
            }),
    {
        self.phase = AuthPhase::Idle;
        match entries {
            None => Err(AuthError::CredentialExchangeFailed),
            Some(list) => {
                let m = CredentialMap::from_entries(list);
                if m.is_empty() {
                    Err(AuthError::CredentialExchangeFailed)
                } else {
                    let text = m.encode();
                    self.cookie_map = Some(m);
                    Ok(text)
                }
            },
        }
    }

    /// Signs out: the in-memory cache is cleared; the caller then deletes
    /// the persisted credential and reports the outcome through
    /// [`interpret_store_deletion`].
    pub fn sign_out(&mut self)
        ensures
            final(self).wf(),
            final(self).cookie_map is None,
            final(self).phase == old(self).phase,
    {
        self.cookie_map = None;
    }
}

/// Reads the outcome of deleting the persisted credential: a refusal of the
/// store is propagated as `CredentialStoreFailed`.
pub fn interpret_store_deletion(deleted: bool) -> (r: Result<(), AuthError>)
    ensures
        deleted <==> r is Ok,
        !deleted ==> r == Result::<(), AuthError>::Err(AuthError::CredentialStoreFailed),
{
    if deleted {
        Ok(())
    } else {
        Err(AuthError::CredentialStoreFailed)
    }
}

} // verus!
