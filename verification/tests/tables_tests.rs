use card_catalog::mods::capabilities::{hashing_action, is_file_hashed, HashingAction};
use card_catalog::mods::models::{Listing, ListingTag, Tag, Timestamp};
use card_catalog::mods::sql::{create_listing, create_listing_tag, create_tag, find_single_file, Row};
use card_catalog::mods::util::{escape_sql_string, unescape_sql_string};

/// Runs the find-or-create of a tag against a table held in memory.
fn create_tag_in(table: &mut Vec<Tag>, name: &str, id: &str) -> Tag {
    let found: Vec<Tag> = table.iter().filter(|t| t.tag == name).cloned().collect();
    match create_tag(found, name, id.to_string()) {
        Row::Existing(t) => t,
        Row::New(t) => {
            table.push(t.clone());
            t
        }
    }
}

fn create_listing_tag_in(table: &mut Vec<ListingTag>, listing_id: &str, tag_id: &str, id: &str) -> ListingTag {
    let found: Vec<ListingTag> =
        table.iter().filter(|lt| lt.listing_id == listing_id && lt.tag_id == tag_id).cloned().collect();
    match create_listing_tag(found, listing_id, tag_id, id.to_string()) {
        Row::Existing(lt) => lt,
        Row::New(lt) => {
            table.push(lt.clone());
            lt
        }
    }
}

#[test]
fn asking_twice_for_a_tag_returns_the_same_tag() {
    let mut tags = vec![Tag { id: "t0".to_string(), tag: "beach".to_string() }];
    let first = create_tag_in(&mut tags, "summer", "t1");
    let second = create_tag_in(&mut tags, "summer", "t2");
    assert_eq!(first.id, "t1");
    assert_eq!(second.id, "t1");
    assert_eq!(tags.len(), 2);
}

#[test]
fn tagging_a_listing_twice_changes_nothing() {
    let mut tags: Vec<Tag> = Vec::new();
    let mut applied: Vec<ListingTag> = Vec::new();
    for round in 0..2 {
        let tag = create_tag_in(&mut tags, "vacation", &format!("tag-{}", round));
        create_listing_tag_in(&mut applied, "listing-1", &tag.id, &format!("lt-{}", round));
    }
    assert_eq!(tags.len(), 1);
    assert_eq!(applied.len(), 1);
    assert_eq!(applied[0].tag_id, "tag-0");
    assert_eq!(applied[0].id, "lt-0");
}

/// One scan step over a table in memory; the lookup by a quoted literal
/// finds the listings stored under the literal's value.
fn scan_in(table: &mut Vec<Listing>, path: &str) {
    let key = escape_sql_string(&path.to_string());
    let value = unescape_sql_string(&key);
    let rows: Vec<Listing> = table
        .iter()
        .filter(|l| l.file_path == value)
        .map(|l| Listing {
            id: l.id.clone(),
            checksum: l.checksum.clone(),
            time_created: l.time_created,
            file_name: l.file_name.clone(),
            file_path: l.file_path.clone(),
            file_size: l.file_size,
        })
        .collect();
    match hashing_action(is_file_hashed(&find_single_file(rows))) {
        HashingAction::HashNew => {
            let id = format!("l{}", table.len());
            table.push(create_listing(id, Timestamp { sec: 0, nsec: 0 }, "abc", "f", &key, &1));
        }
        HashingAction::HashExisting(id) => {
            for l in table.iter_mut() {
                if l.id == id {
                    l.checksum = Some("abc".to_string());
                }
            }
        }
        _ => {}
    }
}

#[test]
fn a_second_scan_adds_nothing() {
    let mut table: Vec<Listing> = Vec::new();
    scan_in(&mut table, "/srv/music/a.flac");
    scan_in(&mut table, "/srv/music/a.flac");
    assert_eq!(table.len(), 1);
}

#[test]
fn a_path_with_a_quote_is_listed_again_on_each_scan() {
    let mut table: Vec<Listing> = Vec::new();
    scan_in(&mut table, "/srv/it's.txt");
    scan_in(&mut table, "/srv/it's.txt");
    assert_eq!(table.len(), 2);
}
