//! What a run is configured with: the accounts and their tokens.

use vstd::prelude::*;
use crate::failure::{Failure, FailureKind, FailureView};
use crate::timestamp::Timestamp;

verus! {

/// The GitHub account.
pub struct Github {
    pub username: String,
    pub token: String,
}

/// The application by which Google Calendar is read.
pub struct GoogleClient {
    pub client_id: String,
    pub client_secret: String,
}

/// The tokens for Google Calendar, and the instant at which the access token
/// expires.
pub struct GoogleToken {
    pub access_token: String,
    pub refresh_token: String,
    pub experies_at: Timestamp,
}

/// The value of a [`GoogleToken`].
pub struct GoogleTokenView {
    pub access_token: Seq<char>,
    pub refresh_token: Seq<char>,
    pub experies_at: Timestamp,
}

impl View for GoogleToken {
    type V = GoogleTokenView;

    open spec fn view(&self) -> GoogleTokenView {
        GoogleTokenView {
            access_token: self.access_token@,
            refresh_token: self.refresh_token@,
            experies_at: self.experies_at,
        }
    }
}

/// The calendar whose meetings are reported.
pub struct GoogleCalendar {
    pub id: String,
}

/// The configuration of a run.
pub struct Config {
    pub github: Github,
    pub google_client: Option<GoogleClient>,
    pub google_token: Option<GoogleToken>,
    pub gcal: Option<GoogleCalendar>,
}

/// The failure for a configuration without tokens for Google Calendar.
pub open spec fn no_token() -> FailureView {
    FailureView { kind: FailureKind::Configuration, message: "no token config"@ }
}

/// The tokens after a renewal: the new access token and its expiry, and
/// the new refresh token if one was handed out, else the one there was.
pub open spec fn renewed_view(
    saved: GoogleTokenView,
    access_token: Seq<char>,
    refresh_token: Option<Seq<char>>,
    experies_at: Timestamp,
) -> GoogleTokenView {
    GoogleTokenView {
        access_token,
        refresh_token: match refresh_token {
            Some(token) => token,
            None => saved.refresh_token,
        },
        experies_at,
    }
}

impl GoogleToken {
    /// Whether the access token has expired at the instant `now`.
    pub fn expired(&self, now: &Timestamp) -> (due: bool)
        ensures
            due == self.experies_at.before(*now),
    {
        self.experies_at.is_before(now)
    }

    /// The tokens after a renewal.
    pub fn renewed(
        &self,
        access_token: String,
        refresh_token: Option<String>,
        experies_at: Timestamp,
    ) -> (tokens: GoogleToken)
        ensures
            tokens@ == renewed_view(
                self@,
                access_token@,
                crate::text::optional_text(refresh_token),
                experies_at,
            ),
    {
        let refresh_token = match refresh_token {
            Some(token) => token,
            None => self.refresh_token.clone(),
        };
        GoogleToken { access_token, refresh_token, experies_at }
    }
}

impl Config {
    /// The access token for Google Calendar.
    pub fn access_token(&self) -> (token: Result<String, Failure>)
        ensures
            match token {
                Ok(text) => self.google_token matches Some(tokens) && text@
                    == tokens.access_token@,
                Err(failure) => self.google_token is None && failure@ == no_token(),
            },
    {
        match &self.google_token {
            Some(tokens) => Ok(tokens.access_token.clone()),
            None => Err(Failure::new(FailureKind::Configuration, "no token config")),
        }
    }

    /// Whether the access token for Google Calendar has to be renewed at
    /// the instant `now`.
    pub fn refresh_due(&self, now: &Timestamp) -> (due: Result<bool, Failure>)
        ensures
            match due {
                Ok(expired) => self.google_token matches Some(tokens) && expired
                    == tokens.experies_at.before(*now),
                Err(failure) => self.google_token is None && failure@ == no_token(),
            },
    {
        match &self.google_token {
            Some(tokens) => Ok(tokens.expired(now)),
            None => Err(Failure::new(FailureKind::Configuration, "no token config")),
        }
    }
}

} // verus!
