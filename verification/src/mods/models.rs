use vstd::prelude::*;

verus! {

/// A point in time: whole seconds since the Unix epoch and the nanoseconds
/// past that second.
#[derive(Clone, Copy, Debug, PartialEq, Eq, Structural)]
pub struct Timestamp {
    pub sec: i64,
    pub nsec: i32,
}

/// A catalogued file.
#[derive(Debug)]
pub struct Listing {
    pub id: String,
    pub checksum: Option<String>,
    pub time_created: Timestamp,
    pub file_name: String,
    pub file_path: String,
    pub file_size: i64,
}

/// A tag that can be applied to listings.
#[derive(Debug, Clone)]
pub struct Tag {
    pub id: String,
    pub tag: String,
}

/// The application of a tag to a listing.
#[derive(Debug, Clone)]
pub struct ListingTag {
    pub id: String,
    pub listing_id: String,
    pub tag_id: String,
}

/// A listing joined with one tag applied to it.
#[derive(Debug)]
pub struct AppliedTag {
    pub listing_id: String,
    pub checksum: Option<String>,
    pub file_name: String,
    pub file_path: String,
    pub file_size: i64,
    pub listing_tags_id: String,
    pub tags_id: String,
    pub tag: String,
}

} // verus!
