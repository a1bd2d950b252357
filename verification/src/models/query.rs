use vstd::prelude::*;

verus! {

/// The query of a playlist request: an optional start and end time, in
/// RFC 3339. With a start it asks for a playlist of a past stretch of the
/// stream; with no start, for the live playlist.
pub struct Query {
    pub start: Option<String>,
    pub end: Option<String>,
}

} // verus!
