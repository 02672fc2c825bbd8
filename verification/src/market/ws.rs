//! The decisions of the price feed: what to do after a failed connection,
//! and which event a trade message gives.
use crate::decimal::{decimal_from_text, Dec};
use crate::engine::event::EngineEvent;
use vstd::arithmetic::power::pow;
use vstd::prelude::*;

verus! {

/// Connection attempts in a row after which the feed gives up.
pub const MAX_RETRIES: u32 = 5;

/// The longest wait between attempts, in seconds.
pub const MAX_BACKOFF_SECS: u64 = 60;

/// What the feed does after a failed connection.
#[derive(Clone, Copy, Debug, PartialEq, Eq, Structural)]
pub enum FeedAction {
    /// Wait this many seconds, then connect again.
    RetryAfter(u64),
    /// Stop: too many attempts failed in a row.
    GiveUp,
}

/// The wait after `failures` failed attempts in a row: `2^failures`
/// seconds, at most `MAX_BACKOFF_SECS`.
pub open spec fn backoff_secs(failures: nat) -> int {
    if pow(2, failures) < MAX_BACKOFF_SECS {
        pow(2, failures)
    } else {
        MAX_BACKOFF_SECS as int
    }
}

/// The feed's count of failed connection attempts in a row.
#[derive(Clone, Copy, Debug)]
pub struct FeedState {
    pub connection_failures: u32,
}

impl FeedState {
    /// No failures yet.
    pub fn new() -> (r: FeedState)
        ensures
            r.connection_failures == 0,
    {
        FeedState { connection_failures: 0 }
    }

    /// A connection succeeded: the count starts again.
    pub fn on_connected(&mut self)
        ensures
            final(self).connection_failures == 0,
    {
        self.connection_failures = 0;
    }

    /// A connection failed: the count rises, and the feed gives up once it
    /// reaches `MAX_RETRIES`, or else waits `backoff_secs` of the count.
    pub fn on_connect_failed(&mut self) -> (r: FeedAction)
        requires
            old(self).connection_failures < MAX_RETRIES,
        ensures
            final(self).connection_failures == old(self).connection_failures + 1,
            final(self).connection_failures >= MAX_RETRIES ==> r == FeedAction::GiveUp,
            final(self).connection_failures < MAX_RETRIES ==> r == FeedAction::RetryAfter(
                backoff_secs(final(self).connection_failures as nat) as u64,
            ),
    {
        self.connection_failures = self.connection_failures + 1;
        let n = self.connection_failures;
        if n >= MAX_RETRIES {
            return FeedAction::GiveUp;
        }
        let mut wait: u64 = 1;
        let mut i: u32 = 0;
        assert(pow(2, 0) == 1 && pow(2, 1) == 2 && pow(2, 2) == 4 && pow(2, 3) == 8) by {
            reveal_with_fuel(pow, 4);
        }
        while i < n
            invariant
                i <= n,
                n < MAX_RETRIES,
                wait == pow(2, i as nat),
                pow(2, 0) == 1 && pow(2, 1) == 2 && pow(2, 2) == 4 && pow(2, 3) == 8,
            decreases n - i,
        {
            assert(pow(2, (i + 1) as nat) == 2 * pow(2, i as nat)) by {
                reveal(pow);
            }
            wait = wait * 2;
            i = i + 1;
        }
        if wait < MAX_BACKOFF_SECS {
            FeedAction::RetryAfter(wait)
        } else {
            FeedAction::RetryAfter(MAX_BACKOFF_SECS)
        }
    }
}

/// Why a trade message gave no price.
#[derive(Clone, Copy, Debug, PartialEq, Eq, Structural)]
pub enum PriceMessageError {
    /// The message is not JSON.
    MalformedMessage,
    /// The message has no text field `p`.
    MissingPriceField,
    /// The field `p` is not a decimal number.
    InvalidPrice,
}

impl PriceMessageError {
    pub fn message(&self) -> (r: &'static str)
        ensures
            r@ == price_error_text(*self),
    {
        match self {
            PriceMessageError::MalformedMessage => "Malformed price message",
            PriceMessageError::MissingPriceField => "Missing price field 'p' in message",
            PriceMessageError::InvalidPrice => "Invalid price field 'p' in message",
        }
    }
}

pub open spec fn price_error_text(e: PriceMessageError) -> Seq<char> {
    match e {
        PriceMessageError::MalformedMessage => "Malformed price message"@,
        PriceMessageError::MissingPriceField => "Missing price field 'p' in message"@,
        PriceMessageError::InvalidPrice => "Invalid price field 'p' in message"@,
    }
}

/// The event a trade message gives, from the text of its field `p` (if it
/// has one): a price update with the decimal that field holds.
pub fn price_event(price_field: Option<&str>) -> (r: Result<EngineEvent, PriceMessageError>)
    ensures
        match price_field {
            None => r == Err::<EngineEvent, PriceMessageError>(PriceMessageError::MissingPriceField),
            Some(t) => match decimal_from_text(t@) {
                Some(d) => r == Ok::<EngineEvent, PriceMessageError>(EngineEvent::PriceUpdate(d)),
                None => r == Err::<EngineEvent, PriceMessageError>(PriceMessageError::InvalidPrice),
            },
        },
{
    match price_field {
        None => Err(PriceMessageError::MissingPriceField),
        Some(t) => match Dec::parse(t) {
            Some(d) => Ok(EngineEvent::PriceUpdate(d)),
            None => Err(PriceMessageError::InvalidPrice),
        },
    }
}

/// What `serde_json` reads of a trade message: `None` where the text is not
/// JSON, `Some(None)` where the value has no string field `p`, and
/// `Some(Some(t))` where that field holds the string `t`.
pub uninterp spec fn json_price_field(text: Seq<char>) -> Option<Option<Seq<char>>>;

/// Calls `serde_json::from_str::<serde_json::Value>` on the text, then
/// `value["p"].as_str()`; the result, each string taken as its text, is
/// named `json_price_field`.
#[verifier::external_body]
fn read_price_field(text: &str) -> (r: Option<Option<String>>)
    ensures
        match r {
            None => json_price_field(text@) == None::<Option<Seq<char>>>,
            Some(None) => json_price_field(text@) == Some(None::<Seq<char>>),
            Some(Some(t)) => json_price_field(text@) == Some(Some(t@)),
        },
{
    serde_json::from_str::<serde_json::Value>(text).ok().map(|v| v["p"].as_str().map(|t| t.to_string()))
}

/// The event a raw trade message gives: a price update with the decimal
/// its string field `p` holds; malformed JSON, a missing field `p` and a
/// field that is no decimal are refused, each with its own error.
pub fn price_message_event(text: &str) -> (r: Result<EngineEvent, PriceMessageError>)
    ensures
        match json_price_field(text@) {
            None => r == Err::<EngineEvent, PriceMessageError>(PriceMessageError::MalformedMessage),
            Some(None) => r == Err::<EngineEvent, PriceMessageError>(
                PriceMessageError::MissingPriceField,
            ),
            Some(Some(t)) => match decimal_from_text(t) {
                Some(d) => r == Ok::<EngineEvent, PriceMessageError>(EngineEvent::PriceUpdate(d)),
                None => r == Err::<EngineEvent, PriceMessageError>(PriceMessageError::InvalidPrice),
            },
        },
{
    match read_price_field(text) {
        None => Err(PriceMessageError::MalformedMessage),
        Some(None) => price_event(None),
        Some(Some(t)) => price_event(Some(t.as_str())),
    }
}

} // verus!
