//! Configuration types, their defaults, and the form of the authorization code.

use crate::error::DyricsError;
use vstd::prelude::*;

verus! {

/// Main application configuration.
#[derive(Debug, Clone)]
pub struct Config {
    /// Configuration of the status sink.
    pub discord: DiscordConfig,
    /// Configuration of the playback source.
    pub spotify: SpotifyConfig,
}

/// Discord configuration.
#[derive(Debug, Clone)]
pub struct DiscordConfig {
    /// User token for status updates.
    pub token: String,
}

/// Spotify configuration.
#[derive(Debug, Clone)]
pub struct SpotifyConfig {
    /// Application client ID.
    pub client_id: String,
    /// Application client secret.
    pub client_secret: String,
    /// OAuth redirect URI.
    pub redirect_uri: String,
    /// Interval between two resyncs with the playback source, in nanoseconds.
    pub resync_interval: u128,
    /// Optional authorization code for initial setup, in the form `state:code`.
    pub code: Option<String>,
}

/// The redirect URI that is used where none is configured.
pub fn default_redirect_uri() -> (uri: String)
    ensures
        uri@ == "https://127.0.0.1"@,
{
    "https://127.0.0.1".to_owned()
}

/// The resync interval that is used where none is configured: 2.5 seconds.
pub fn default_resync_interval() -> (interval: u128)
    ensures
        interval == 2_500_000_000,
{
    2_500_000_000
}

/// The index of the first `mark` in `text`; the length of `text` where it
/// holds none.
pub open spec fn first_index_of(text: Seq<char>, mark: char) -> int
    decreases text.len(),
{
    if text.len() == 0 || text[0] == mark {
        0
    } else {
        1 + first_index_of(text.drop_first(), mark)
    }
}

/// [`first_index_of`] points at the first `mark`, or behind the text where
/// there is none.
pub proof fn lemma_first_index_of(text: Seq<char>, mark: char)
    ensures
        0 <= first_index_of(text, mark) <= text.len(),
        forall|j: int| 0 <= j < first_index_of(text, mark) ==> text[j] != mark,
        first_index_of(text, mark) < text.len() ==> text[first_index_of(text, mark)] == mark,
    decreases text.len(),
{
    if text.len() > 0 && text[0] != mark {
        let rest = text.drop_first();
        lemma_first_index_of(rest, mark);
        assert forall|j: int| 0 <= j < first_index_of(text, mark) implies text[j] != mark by {
            if j > 0 {
                assert(text[j] == rest[j - 1]);
            }
        }
        if first_index_of(text, mark) < text.len() {
            assert(text[first_index_of(text, mark)] == rest[first_index_of(rest, mark)]);
        }
    }
}

/// What is reported for an authorization code without a colon.
pub open spec fn invalid_code_detail() -> Seq<char> {
    "Invalid code format, expected 'state:code'"@
}

/// Splits an authorization code of the form `state:code` at its first colon.
/// A code without a colon is an authentication error.
pub fn split_auth_code(code: &str) -> (parts: Result<(String, String), DyricsError>)
    ensures
        first_index_of(code@, ':') < code@.len() ==> parts is Ok && parts->Ok_0.0@ == code@.take(
            first_index_of(code@, ':'),
        ) && parts->Ok_0.1@ == code@.skip(first_index_of(code@, ':') + 1),
        first_index_of(code@, ':') >= code@.len() ==> parts is Err && parts->Err_0 is Auth
            && parts->Err_0.detail() == invalid_code_detail(),
{
    let n: usize = code.unicode_len();
    let mut i: usize = 0;
    proof {
        assert(code@.skip(0) =~= code@);
    }
    while i < n
        invariant
            i <= n,
            n == code@.len(),
            first_index_of(code@, ':') == i + first_index_of(code@.skip(i as int), ':'),
        decreases n - i,
    {
        if code.get_char(i) == ':' {
            proof {
                assert(code@.skip(i as int)[0] == code@[i as int]);
            }
            let state = code.substring_char(0, i).to_owned();
            let rest = code.substring_char(i + 1, n).to_owned();
            proof {
                assert(code@.take(i as int) =~= code@.subrange(0, i as int));
                assert(code@.skip(i + 1) =~= code@.subrange(i + 1, n as int));
            }
            return Ok((state, rest));
        }
        proof {
            assert(code@.skip(i as int)[0] == code@[i as int]);
            assert(code@.skip(i as int).drop_first() =~= code@.skip(i + 1));
        }
        i += 1;
    }
    Err(DyricsError::Auth("Invalid code format, expected 'state:code'".to_owned()))
}

} // verus!
