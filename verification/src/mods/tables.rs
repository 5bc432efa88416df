//! The catalog's tables as sequences of rows, and the laws that the
//! find-or-create operations and the scan keep over them. A lookup by a
//! quoted literal is modelled as the rows whose column equals the literal's
//! value.

use vstd::prelude::*;

use crate::mods::capabilities::{
    checksum_state, hashing_action_for, HashingAction,
};
use crate::mods::models::{Listing, ListingTag, Tag};
use crate::mods::sql::Row;
use crate::mods::util::{escaped, lemma_unescape_escape, unescaped};

verus! {

/// The rows of `rows` that satisfy `keep`, in order.
pub open spec fn rows_where<T>(rows: Seq<T>, keep: spec_fn(T) -> bool) -> Seq<T>
    decreases rows.len(),
{
    if rows.len() == 0 {
        Seq::empty()
    } else if keep(rows.last()) {
        rows_where(rows.drop_last(), keep).push(rows.last())
    } else {
        rows_where(rows.drop_last(), keep)
    }
}

proof fn lemma_rows_where_push<T>(rows: Seq<T>, keep: spec_fn(T) -> bool, x: T)
    ensures
        keep(x) ==> rows_where(rows.push(x), keep) == rows_where(rows, keep).push(x),
        !keep(x) ==> rows_where(rows.push(x), keep) == rows_where(rows, keep),
{
    assert(rows.push(x).drop_last() =~= rows);
}

proof fn lemma_rows_where_none<T>(rows: Seq<T>, keep: spec_fn(T) -> bool)
    requires
        rows_where(rows, keep).len() == 0,
    ensures
        forall|i: int| 0 <= i < rows.len() ==> !keep(#[trigger] rows[i]),
    decreases rows.len(),
{
    if rows.len() > 0 {
        lemma_rows_where_none(rows.drop_last(), keep);
        assert forall|i: int| 0 <= i < rows.len() implies !keep(#[trigger] rows[i]) by {
            if i < rows.len() - 1 {
                assert(rows[i] == rows.drop_last()[i]);
            }
        }
    }
}

/// The value that a find-or-create operation returns.
pub open spec fn row_value<T>(r: Row<T>) -> T {
    match r {
        Row::Existing(t) => t,
        Row::New(t) => t,
    }
}

// ---------------------------------------------------------------------------
// Tags
// ---------------------------------------------------------------------------

/// A tag is named `name`.
pub open spec fn is_named(name: Seq<char>) -> spec_fn(Tag) -> bool {
    |t: Tag| t.tag@ == name
}

/// The tags named `name`.
pub open spec fn tags_named(table: Seq<Tag>, name: Seq<char>) -> Seq<Tag> {
    rows_where(table, is_named(name))
}

/// The tag table after `create_tag` for the name of `new_tag`, and what it
/// returns: the lookup by name finds the tags of that name; with any found,
/// the last found is returned and the table stays; else `new_tag` is stored
/// and returned (the decision of [`crate::mods::sql::create_tag`]).
pub open spec fn create_tag_on(table: Seq<Tag>, new_tag: Tag) -> (Seq<Tag>, Row<Tag>) {
    let found = tags_named(table, new_tag.tag@);
    if found.len() > 0 {
        (table, Row::Existing(found.last()))
    } else {
        (table.push(new_tag), Row::New(new_tag))
    }
}

/// No two tags share a name.
pub open spec fn tag_names_unique(table: Seq<Tag>) -> bool {
    forall|i: int, j: int|
        0 <= i < j < table.len() ==> (#[trigger] table[i]).tag@ != (#[trigger] table[j]).tag@
}

/// Asking twice for a tag of one name returns the same tag, and the second
/// request leaves the table as the first left it.
pub proof fn lemma_create_tag_twice(table: Seq<Tag>, first: Tag, second: Tag)
    requires
        first.tag@ == second.tag@,
    ensures
        create_tag_on(create_tag_on(table, first).0, second).0 == create_tag_on(table, first).0,
        create_tag_on(create_tag_on(table, first).0, second).1 == Row::Existing(
            row_value(create_tag_on(table, first).1),
        ),
{
    let name = first.tag@;
    let found = tags_named(table, name);
    if found.len() == 0 {
        lemma_rows_where_push(table, is_named(name), first);
    }
}

/// Creating a tag keeps the names of the tag table unique.
pub proof fn lemma_create_tag_keeps_names_unique(table: Seq<Tag>, new_tag: Tag)
    requires
        tag_names_unique(table),
    ensures
        tag_names_unique(create_tag_on(table, new_tag).0),
{
    let name = new_tag.tag@;
    let found = tags_named(table, name);
    if found.len() == 0 {
        lemma_rows_where_none(table, is_named(name));
        let t2 = table.push(new_tag);
        assert forall|i: int, j: int| 0 <= i < j < t2.len() implies (#[trigger] t2[i]).tag@
            != (#[trigger] t2[j]).tag@ by {
            if j == table.len() {
                assert(t2[i] == table[i]);
            } else {
                assert(t2[i] == table[i] && t2[j] == table[j]);
            }
        }
    }
}

// ---------------------------------------------------------------------------
// Tag applications
// ---------------------------------------------------------------------------

/// An application is of tag `tag_id` to listing `listing_id`.
pub open spec fn applies(listing_id: Seq<char>, tag_id: Seq<char>) -> spec_fn(ListingTag) -> bool {
    |lt: ListingTag| lt.listing_id@ == listing_id && lt.tag_id@ == tag_id
}

/// The applications of tag `tag_id` to listing `listing_id`.
pub open spec fn applications_of(table: Seq<ListingTag>, listing_id: Seq<char>, tag_id: Seq<
    char,
>) -> Seq<ListingTag> {
    rows_where(table, applies(listing_id, tag_id))
}

/// The application table after `create_listing_tag` for the listing and tag
/// of `new_lt`, and what it returns: with any application found, the last
/// found is returned and the table stays; else `new_lt` is stored and
/// returned (the decision of [`crate::mods::sql::create_listing_tag`]).
pub open spec fn create_listing_tag_on(table: Seq<ListingTag>, new_lt: ListingTag) -> (Seq<
    ListingTag,
>, Row<ListingTag>) {
    let found = applications_of(table, new_lt.listing_id@, new_lt.tag_id@);
    if found.len() > 0 {
        (table, Row::Existing(found.last()))
    } else {
        (table.push(new_lt), Row::New(new_lt))
    }
}

/// No listing carries the same tag twice.
pub open spec fn applications_unique(table: Seq<ListingTag>) -> bool {
    forall|i: int, j: int|
        0 <= i < j < table.len() ==> !((#[trigger] table[i]).listing_id@ == (
        #[trigger] table[j]).listing_id@ && table[i].tag_id@ == table[j].tag_id@)
}

/// Asking twice for the application of one tag to one listing returns the
/// same application, and the second request leaves the table as the first
/// left it.
pub proof fn lemma_create_listing_tag_twice(
    table: Seq<ListingTag>,
    first: ListingTag,
    second: ListingTag,
)
    requires
        first.listing_id@ == second.listing_id@,
        first.tag_id@ == second.tag_id@,
    ensures
        create_listing_tag_on(create_listing_tag_on(table, first).0, second).0
            == create_listing_tag_on(table, first).0,
        create_listing_tag_on(create_listing_tag_on(table, first).0, second).1 == Row::Existing(
            row_value(create_listing_tag_on(table, first).1),
        ),
{
    let l = first.listing_id@;
    let t = first.tag_id@;
    let found = applications_of(table, l, t);
    if found.len() == 0 {
        lemma_rows_where_push(table, applies(l, t), first);
    }
}

/// Creating an application keeps at most one application per listing and
/// tag.
pub proof fn lemma_create_listing_tag_keeps_unique(table: Seq<ListingTag>, new_lt: ListingTag)
    requires
        applications_unique(table),
    ensures
        applications_unique(create_listing_tag_on(table, new_lt).0),
{
    let l = new_lt.listing_id@;
    let t = new_lt.tag_id@;
    let found = applications_of(table, l, t);
    if found.len() == 0 {
        lemma_rows_where_none(table, applies(l, t));
        let t2 = table.push(new_lt);
        assert forall|i: int, j: int| 0 <= i < j < t2.len() implies !((#[trigger] t2[i]).listing_id@
            == (#[trigger] t2[j]).listing_id@ && t2[i].tag_id@ == t2[j].tag_id@) by {
            if j == table.len() {
                assert(t2[i] == table[i]);
            } else {
                assert(t2[i] == table[i] && t2[j] == table[j]);
            }
        }
    }
}

/// Both tables after `tag_listing`: the tag named as `new_tag` is found or
/// created, then its application to the listing of `new_lt` is found or
/// created; `new_tag` and `new_lt` carry the fresh ids that the two calls
/// would store.
pub open spec fn tag_listing_on(
    tags: Seq<Tag>,
    applications: Seq<ListingTag>,
    new_tag: Tag,
    new_lt: ListingTag,
) -> (Seq<Tag>, Seq<ListingTag>) {
    let (tags1, r) = create_tag_on(tags, new_tag);
    let tag = row_value(r);
    let applied = ListingTag { id: new_lt.id, listing_id: new_lt.listing_id, tag_id: tag.id };
    (tags1, create_listing_tag_on(applications, applied).0)
}

/// Tagging a listing a second time with the same tag name leaves both
/// tables as the first tagging left them.
pub proof fn lemma_tag_listing_twice(
    tags: Seq<Tag>,
    applications: Seq<ListingTag>,
    tag1: Tag,
    lt1: ListingTag,
    tag2: Tag,
    lt2: ListingTag,
)
    requires
        tag1.tag@ == tag2.tag@,
        lt1.listing_id@ == lt2.listing_id@,
    ensures
        ({
            let (tags1, apps1) = tag_listing_on(tags, applications, tag1, lt1);
            tag_listing_on(tags1, apps1, tag2, lt2) == (tags1, apps1)
        }),
{
    lemma_create_tag_twice(tags, tag1, tag2);
    let (tags1, r1) = create_tag_on(tags, tag1);
    let tag = row_value(r1);
    let applied1 = ListingTag { id: lt1.id, listing_id: lt1.listing_id, tag_id: tag.id };
    let applied2 = ListingTag { id: lt2.id, listing_id: lt2.listing_id, tag_id: tag.id };
    lemma_create_listing_tag_twice(applications, applied1, applied2);
}

// ---------------------------------------------------------------------------
// Listings and the scan
// ---------------------------------------------------------------------------

/// A listing is stored under `path`.
pub open spec fn stored_at(path: Seq<char>) -> spec_fn(Listing) -> bool {
    |l: Listing| l.file_path@ == path
}

/// The listings stored under `path`.
pub open spec fn listings_at(table: Seq<Listing>, path: Seq<char>) -> Seq<Listing> {
    rows_where(table, stored_at(path))
}

/// A listing with its checksum replaced when its id is `id`.
pub open spec fn with_checksum(l: Listing, id: Seq<char>, checksum: Option<String>) -> Listing {
    if l.id@ == id {
        Listing {
            id: l.id,
            checksum,
            time_created: l.time_created,
            file_name: l.file_name,
            file_path: l.file_path,
            file_size: l.file_size,
        }
    } else {
        l
    }
}

/// The listing table after the update of the checksum of listing `id`.
pub open spec fn update_checksum(table: Seq<Listing>, id: Seq<char>, checksum: Option<String>) -> Seq<
    Listing,
>
    decreases table.len(),
{
    if table.len() == 0 {
        Seq::empty()
    } else {
        update_checksum(table.drop_last(), id, checksum).push(
            with_checksum(table.last(), id, checksum),
        )
    }
}

/// The listing table after a scan meets the file at `path`. The scan looks
/// the file up by a literal whose body is the escaped path, so the lookup
/// finds the listings stored under the unescaped body; `new_listing` is the
/// record that it would store for a new file, with the escaped path and the
/// file's checksum, and whose checksum it would store in a listing without
/// one.
pub open spec fn scan_file_on(table: Seq<Listing>, path: Seq<char>, new_listing: Listing) -> Seq<
    Listing,
> {
    let found = listings_at(table, unescaped(escaped(path))).reverse();
    match hashing_action_for(checksum_state(found)) {
        HashingAction::HashNew => table.push(new_listing),
        HashingAction::HashExisting(id) => update_checksum(table, id@, new_listing.checksum),
        _ => table,
    }
}

proof fn lemma_escaped_quote_free(s: Seq<char>)
    requires
        forall|i: int| 0 <= i < s.len() ==> s[i] != '\'',
    ensures
        escaped(s) == s,
    decreases s.len(),
{
    if s.len() > 0 {
        lemma_escaped_quote_free(s.drop_first());
        assert(seq![s[0]] + s.drop_first() =~= s);
    }
}

proof fn lemma_update_keeps_lookup(table: Seq<Listing>, path: Seq<char>, id: Seq<char>, c: Option<
    String,
>)
    ensures
        listings_at(update_checksum(table, id, c), path).len() == listings_at(table, path).len(),
        listings_at(table, path).len() > 0 ==> listings_at(update_checksum(table, id, c), path).last()
            == with_checksum(listings_at(table, path).last(), id, c),
    decreases table.len(),
{
    if table.len() > 0 {
        lemma_update_keeps_lookup(table.drop_last(), path, id, c);
        let up = update_checksum(table, id, c);
        assert(up.drop_last() =~= update_checksum(table.drop_last(), id, c));
        assert(up.last() == with_checksum(table.last(), id, c));
    }
}

proof fn lemma_last_of_reverse<T>(s: Seq<T>)
    requires
        s.len() > 0,
    ensures
        s.reverse().len() == s.len(),
        s.reverse()[0] == s.last(),
{
}

/// A second scan over an unchanged file adds nothing: after a scan met the
/// file at `path`, meeting it again leaves the listing table as it was. It
/// holds for paths without a single quote; a path with one is stored
/// escaped but looked up unescaped, so it is never found again.
pub proof fn lemma_second_scan_adds_nothing(
    table: Seq<Listing>,
    path: Seq<char>,
    first: Listing,
    second: Listing,
)
    requires
        forall|i: int| 0 <= i < path.len() ==> path[i] != '\'',
        first.file_path@ == escaped(path),
        first.checksum is Some,
        second.checksum is Some,
    ensures
        scan_file_on(scan_file_on(table, path, first), path, second) == scan_file_on(
            table,
            path,
            first,
        ),
{
    lemma_escaped_quote_free(path);
    lemma_unescape_escape(path);
    let found = listings_at(table, path);
    let t1 = scan_file_on(table, path, first);
    let action = hashing_action_for(checksum_state(found.reverse()));
    if found.len() == 0 {
        assert(found.reverse() =~= Seq::<Listing>::empty());
        assert(t1 == table.push(first));
        lemma_rows_where_push(table, stored_at(path), first);
        assert(listings_at(t1, path) =~= found.push(first));
        lemma_last_of_reverse(listings_at(t1, path));
    } else {
        lemma_last_of_reverse(found);
        let last = found.last();
        if last.checksum is None {
            assert(action == HashingAction::HashExisting(last.id));
            assert(t1 == update_checksum(table, last.id@, first.checksum));
            lemma_update_keeps_lookup(table, path, last.id@, first.checksum);
            lemma_last_of_reverse(listings_at(t1, path));
        } else {
            assert(t1 == table);
        }
    }
}

} // verus!
