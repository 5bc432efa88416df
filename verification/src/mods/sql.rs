use vstd::prelude::*;

use crate::mods::capabilities::hex_digit;
use crate::mods::models::{Listing, ListingTag, Tag, Timestamp};

verus! {

/// The rows of a query, last row first.
pub fn reverse_rows<T>(rows: Vec<T>) -> (r: Vec<T>)
    ensures
        r@ == rows@.reverse(),
{
    let ghost orig = rows@;
    let mut rows = rows;
    let mut out: Vec<T> = Vec::new();
    while rows.len() > 0
        invariant
            out@.len() + rows@.len() == orig.len(),
            rows@ == orig.take(rows@.len() as int),
            forall|i: int| 0 <= i < out@.len() ==> out@[i] == orig[orig.len() - 1 - i],
        decreases rows@.len(),
    {
        let x = rows.pop().unwrap();
        out.push(x);
        proof {
            assert(rows@ =~= orig.take(rows@.len() as int));
        }
    }
    assert(out@ =~= orig.reverse());
    out
}

/// The two lowercase hexadecimal digits of a byte.
pub open spec fn hex_byte(x: u8) -> Seq<char> {
    seq![hex_digit((x / 16) as nat), hex_digit((x % 16) as nat)]
}

/// The bytes of `b` in lowercase hexadecimal, two digits each.
pub open spec fn hex_bytes(b: Seq<u8>) -> Seq<char>
    decreases b.len(),
{
    if b.len() == 0 {
        Seq::empty()
    } else {
        hex_byte(b[0]) + hex_bytes(b.drop_first())
    }
}

/// The hyphenated form of the 16 bytes of a UUID: groups of 4, 2, 2, 2 and 6
/// bytes in lowercase hexadecimal, joined by hyphens.
pub open spec fn hyphenated(b: Seq<u8>) -> Seq<char> {
    hex_bytes(b.subrange(0, 4)) + seq!['-'] + hex_bytes(b.subrange(4, 6)) + seq!['-']
        + hex_bytes(b.subrange(6, 8)) + seq!['-'] + hex_bytes(b.subrange(8, 10)) + seq!['-']
        + hex_bytes(b.subrange(10, 16))
}

/// Random bytes with the version (4) and the variant (RFC 4122) of a random
/// UUID set.
pub open spec fn v4_bytes(b: Seq<u8>) -> Seq<u8> {
    b.update(6, (b[6] & 0x0f) | 0x40).update(8, (b[8] & 0x3f) | 0x80)
}

/// The text of the random UUID made from the 16 bytes `b`.
pub open spec fn uuid_v4_text(b: Seq<u8>) -> Seq<char> {
    hyphenated(v4_bytes(b))
}

/// `getrandom::fill` (getrandom): fills `bytes` from the operating system's
/// random source and tells whether that succeeded. What the bytes hold is
/// left open, on success as on failure.
#[verifier::external_body]
fn fill_random(bytes: &mut [u8; 16]) -> (ok: bool) {
    match getrandom::fill(bytes) {
        Ok(()) => true,
        Err(_) => false,
    }
}

/// `Builder::from_random_bytes(bytes).into_uuid().to_string()` (uuid): the
/// hyphenated lowercase text of the UUID whose bytes are `bytes` with the
/// version and variant bits of a random UUID set.
#[verifier::external_body]
fn uuid_text(bytes: [u8; 16]) -> (s: String)
    ensures
        s@ == uuid_v4_text(bytes@),
{
    uuid::Builder::from_random_bytes(bytes).into_uuid().to_string()
}

/// `time::get_time()` (time 0.1): the current time of the system clock.
/// Which time comes out is left open: only that the nanoseconds lie below
/// one second is stated.
#[verifier::external_body]
fn current_time() -> (t: Timestamp)
    ensures
        0 <= t.nsec < 1_000_000_000,
{
    let now = time::get_time();
    Timestamp { sec: now.sec, nsec: now.nsec }
}

/// A fresh id for a record: the text of a random UUID, or `None` when the
/// operating system gives no random bytes. Which UUID comes out is left to
/// chance.
pub fn new_id() -> (id: Option<String>)
    ensures
        id matches Some(s) ==> exists|b: Seq<u8>| b.len() == 16 && s@ == #[trigger] uuid_v4_text(b),
{
    let mut bytes: [u8; 16] = [0u8; 16];
    if fill_random(&mut bytes) {
        let s = uuid_text(bytes);
        assert(bytes@.len() == 16 && s@ == uuid_v4_text(bytes@));
        Some(s)
    } else {
        None
    }
}

/// A record as a lookup found it, or a new record that is to be stored.
pub enum Row<T> {
    Existing(T),
    New(T),
}

/// The listing stored for a newly hashed file: the given id, time, checksum,
/// name, path and size.
pub fn create_listing(
    id: String,
    time_created: Timestamp,
    checksum: &str,
    file_name: &str,
    file_path: &str,
    file_size: &i64,
) -> (l: Listing)
    ensures
        l.id == id,
        l.time_created == time_created,
        l.checksum matches Some(c) && c@ == checksum@,
        l.file_name@ == file_name@,
        l.file_path@ == file_path@,
        l.file_size == *file_size,
{
    Listing {
        id,
        checksum: Some(checksum.to_owned()),
        time_created,
        file_name: file_name.to_owned(),
        file_path: file_path.to_owned(),
        file_size: *file_size,
    }
}

/// The listing for a newly hashed file, with a fresh id and the current
/// time; `None` when no id could be drawn.
pub fn new_listing(checksum: &str, file_name: &str, file_path: &str, file_size: &i64) -> (r: Option<
    Listing,
>)
    ensures
        r matches Some(l) ==> {
            &&& exists|b: Seq<u8>| b.len() == 16 && l.id@ == #[trigger] uuid_v4_text(b)
            &&& 0 <= l.time_created.nsec < 1_000_000_000
            &&& l.checksum matches Some(c) && c@ == checksum@
            &&& l.file_name@ == file_name@
            &&& l.file_path@ == file_path@
            &&& l.file_size == *file_size
        },
{
    match new_id() {
        Some(id) => {
            let now = current_time();
            Some(create_listing(id, now, checksum, file_name, file_path, file_size))
        },
        None => None,
    }
}

/// The tag named `p_tag`, given the tags that the lookup by that name found:
/// the last one found when there is any, else a new tag with id `id`.
pub fn create_tag(existing: Vec<Tag>, p_tag: &str, id: String) -> (r: Row<Tag>)
    ensures
        existing@.len() > 0 ==> r == Row::Existing(existing@.last()),
        existing@.len() == 0 ==> (r matches Row::New(t) && t.id == id && t.tag@ == p_tag@),
{
    if existing.len() > 0 {
        let mut existing = existing;
        let t = existing.pop().unwrap();
        Row::Existing(t)
    } else {
        Row::New(Tag { id, tag: p_tag.to_owned() })
    }
}

/// The application of tag `p_tag_id` to listing `p_listing_id`, given the
/// applications that the lookup found: the last one found when there is
/// any, else a new application with id `id`.
pub fn create_listing_tag(
    existing: Vec<ListingTag>,
    p_listing_id: &str,
    p_tag_id: &str,
    id: String,
) -> (r: Row<ListingTag>)
    ensures
        existing@.len() > 0 ==> r == Row::Existing(existing@.last()),
        existing@.len() == 0 ==> (r matches Row::New(t) && t.id == id && t.listing_id@
            == p_listing_id@ && t.tag_id@ == p_tag_id@),
{
    if existing.len() > 0 {
        let mut existing = existing;
        let t = existing.pop().unwrap();
        Row::Existing(t)
    } else {
        Row::New(
            ListingTag { id, listing_id: p_listing_id.to_owned(), tag_id: p_tag_id.to_owned() },
        )
    }
}

/// The listings that the lookup by path found, last row first.
pub fn find_single_file(rows: Vec<Listing>) -> (r: Vec<Listing>)
    ensures
        r@ == rows@.reverse(),
{
    reverse_rows(rows)
}

/// The query for the listings stored under `p_file_path`.
pub fn find_single_file_query(p_file_path: &str) -> (q: String)
    ensures
        q@ == "SELECT id, checksum, time_created, file_name, file_path, file_size FROM listing where file_path='"@
            + p_file_path@ + "'"@,
{
    let mut q = "SELECT id, checksum, time_created, file_name, file_path, file_size FROM listing where file_path='".to_owned();
    q.append(p_file_path);
    q.append("'");
    q
}

/// The query for the tags named `p_tag`.
pub fn find_tag_query(p_tag: &str) -> (q: String)
    ensures
        q@ == "SELECT id, tag FROM tag where tag = '"@ + p_tag@ + "'"@,
{
    let mut q = "SELECT id, tag FROM tag where tag = '".to_owned();
    q.append(p_tag);
    q.append("'");
    q
}

/// The query for the applications of tag `p_tag_id` to listing
/// `p_listing_id`.
pub fn find_listing_tag_query(p_listing_id: &str, p_tag_id: &str) -> (q: String)
    ensures
        q@ == "SELECT id, listing_id, tag_id FROM listing_tag where listing_id = '"@ + p_listing_id@
            + "' AND tag_id = '"@ + p_tag_id@ + "'"@,
{
    let mut q = "SELECT id, listing_id, tag_id FROM listing_tag where listing_id = '".to_owned();
    q.append(p_listing_id);
    q.append("' AND tag_id = '");
    q.append(p_tag_id);
    q.append("'");
    q
}

/// The statement that stores checksum `hash` in the listing with id `id`.
pub fn update_hash_query(id: &str, hash: &str) -> (q: String)
    ensures
        q@ == "UPDATE listing SET checksum = '"@ + hash@ + "' WHERE id = '"@ + id@ + "'"@,
{
    let mut q = "UPDATE listing SET checksum = '".to_owned();
    q.append(hash);
    q.append("' WHERE id = '");
    q.append(id);
    q.append("'");
    q
}

} // verus!
