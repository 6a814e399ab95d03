//! The error taxonomy: every failure a pipeline stage can signal, each
//! unrecoverable at its point of occurrence.  No stage retries or defaults.

use vstd::prelude::*;

verus! {

/// A failure of the login handshake.
#[derive(Clone, Copy, Debug, PartialEq, Eq, Structural)]
pub enum AuthError {
    /// The index page's body was not JSON, or held no `SessionID` string.
    MalformedIndex,
    /// The login response set no `Wilma2SID` cookie.
    NoSessionCookie,
}

/// A failure to extract the schedule data from a page.
#[derive(Clone, Copy, Debug, PartialEq, Eq, Structural)]
pub enum ParseError {
    /// No line of the page holds the schedule marker.
    MarkerNotFound,
    /// The marker sits on the last line, so no schedule line follows it.
    TruncatedDocument,
    /// The schedule line is shorter than the fixed prefix, or is not shaped
    /// as the portal's object literal.
    MalformedScheduleLine,
    /// The repaired line is still not valid JSON.
    InvalidJson,
    /// The repaired JSON has no array under the `Events` key.
    MissingEventsField,
}

/// A failure to read an attribute out of an HTML fragment.
#[derive(Clone, Copy, Debug, PartialEq, Eq, Structural)]
pub enum ExtractError {
    /// No line of the page holds the marker.
    NoMatchingLine,
    /// The fragment holds no anchor with an `href`.
    NoAnchor,
    /// The `href` has too few path segments, or no number where the person id
    /// belongs.
    MalformedHref,
}

/// A failure to decode one schedule event from its JSON value.
#[derive(Clone, Copy, Debug, PartialEq, Eq, Structural)]
pub enum DecodeError {
    /// The value, or a required wrapper in it, is missing or of the wrong
    /// shape.
    MalformedEvent,
    /// The event's title names no recognized supervision location.
    UnknownBreakPlace,
}

/// A failure to group events into break buckets.
#[derive(Clone, Copy, Debug, PartialEq, Eq, Structural)]
pub enum GroupingError {
    /// An event's weekday is none of the five fixed names.
    UnknownWeekday,
    /// An event's start is none of the six fixed break starts.
    UnknownBreakStart,
    /// The events are not sorted by weekday and start.
    OutOfOrder,
    /// The events skip a weekday the portal's order cannot skip.
    WeekdayGap,
}

} // verus!
