use card_catalog::mods::capabilities::{
    find_duplicates, find_missing, find_tagged_listings, hash_file, hashing_action, is_file_hashed,
    select_rows, to_hex_lower, ChecksumState, FileHasher, HashingAction,
};
use card_catalog::mods::models::{AppliedTag, Listing, Timestamp};

fn listing(id: &str, checksum: Option<&str>, path: &str) -> Listing {
    Listing {
        id: id.to_string(),
        checksum: checksum.map(|c| c.to_string()),
        time_created: Timestamp { sec: 1_600_000_000, nsec: 5 },
        file_name: "f".to_string(),
        file_path: path.to_string(),
        file_size: 10,
    }
}

fn digest_of(chunks: &[&[u8]]) -> u64 {
    let mut h = FileHasher::new();
    for c in chunks {
        h.update(c);
    }
    h.digest()
}

#[test]
fn digest_of_nothing_is_the_xxh64_of_the_empty_input() {
    assert_eq!(digest_of(&[]), 0xef46_db37_51d8_e999);
    assert_eq!(digest_of(&[b""]), 0xef46_db37_51d8_e999);
}

#[test]
fn digest_matches_known_xxh64_values() {
    assert_eq!(digest_of(&[&[42]]), 0x0a9e_dece_beb0_3ae4);
    assert_eq!(digest_of(&[b"Hello, world!\0"]), 0x7b06_c531_ea43_e89f);
    let bytes: Vec<u8> = (0..100).collect();
    assert_eq!(digest_of(&[&bytes]), 0x6ac1_e580_3216_6597);
}

#[test]
fn digest_does_not_depend_on_chunking() {
    let bytes: Vec<u8> = (0..100).collect();
    let one = digest_of(&[&bytes]);
    let by_byte: Vec<&[u8]> = bytes.chunks(1).collect();
    assert_eq!(digest_of(&by_byte), one);
    let by_seven: Vec<&[u8]> = bytes.chunks(7).collect();
    assert_eq!(digest_of(&by_seven), one);
}

#[test]
fn absorbed_counts_bytes() {
    let mut h = FileHasher::new();
    assert_eq!(h.absorbed(), 0);
    h.update(b"abc");
    h.update(b"de");
    assert_eq!(h.absorbed(), 5);
}

#[test]
fn hex_is_lowercase_without_leading_zeros() {
    assert_eq!(to_hex_lower(0), "0");
    assert_eq!(to_hex_lower(15), "f");
    assert_eq!(to_hex_lower(16), "10");
    assert_eq!(to_hex_lower(0x0a9e_dece_beb0_3ae4), "a9edecebeb03ae4");
    assert_eq!(to_hex_lower(u64::MAX), "ffffffffffffffff");
}

#[test]
fn hash_file_reports_missing_files() {
    assert_eq!(hash_file(None), "Not Found!");
}

#[test]
fn hash_file_formats_the_digest() {
    assert_eq!(hash_file(Some(0xef46_db37_51d8_e999)), "ef46db3751d8e999");
    assert_eq!(hash_file(Some(digest_of(&[b"Hello, world!\0"]))), "7b06c531ea43e89f");
}

#[test]
fn unknown_path_is_not_present() {
    let (state, id) = is_file_hashed(&vec![]);
    assert!(matches!(state, ChecksumState::NotPresent));
    assert_eq!(id, None);
}

#[test]
fn listing_without_checksum_is_present_but_unhashed() {
    let (state, id) = is_file_hashed(&vec![listing("a", None, "/x"), listing("b", Some("1"), "/x")]);
    assert!(matches!(state, ChecksumState::PresentButNoChecksum));
    assert_eq!(id, Some("a".to_string()));
}

#[test]
fn listing_with_checksum_is_hashed() {
    let (state, id) = is_file_hashed(&vec![listing("b", Some("ff"), "/x"), listing("a", None, "/x")]);
    assert!(matches!(state, ChecksumState::PresentWithChecksum));
    assert_eq!(id, Some("b".to_string()));
}

#[test]
fn scan_actions_follow_the_checksum_state() {
    assert!(matches!(hashing_action((ChecksumState::NotPresent, None)), HashingAction::HashNew));
    match hashing_action((ChecksumState::PresentButNoChecksum, Some("id7".to_string()))) {
        HashingAction::HashExisting(id) => assert_eq!(id, "id7"),
        _ => panic!("expected HashExisting"),
    }
    assert!(matches!(hashing_action((ChecksumState::PresentWithChecksum, Some("x".to_string()))), HashingAction::Skip));
    assert!(matches!(hashing_action((ChecksumState::NotPresent, Some("x".to_string()))), HashingAction::Nothing));
    assert!(matches!(hashing_action((ChecksumState::PresentWithChecksum, None)), HashingAction::Nothing));
}

#[test]
fn a_hashed_file_is_skipped_on_the_next_scan() {
    let results = vec![listing("a", Some("ef46db3751d8e999"), "/x")];
    assert!(matches!(hashing_action(is_file_hashed(&results)), HashingAction::Skip));
}

#[test]
fn duplicates_are_listings_with_matching_checksums_last_first() {
    assert!(find_duplicates(vec![]).is_none());
    let r = find_duplicates(vec![
        listing("1", Some("aa"), "/a"),
        listing("2", Some("bb"), "/b"),
        listing("3", None, "/c"),
        listing("4", Some("aa"), "/d"),
        listing("5", None, "/e"),
    ])
    .unwrap();
    let ids: Vec<&str> = r.iter().map(|l| l.id.as_str()).collect();
    assert_eq!(ids, vec!["4", "1"]);
}

#[test]
fn no_matching_checksums_gives_none() {
    assert!(find_duplicates(vec![listing("1", Some("aa"), "/a"), listing("2", Some("bb"), "/b")]).is_none());
    assert!(find_duplicates(vec![listing("1", None, "/a"), listing("2", None, "/b")]).is_none());
}

#[test]
fn select_keeps_flagged_rows_in_order() {
    assert_eq!(select_rows(vec![1, 2, 3, 4], &vec![false, true, true, false]), vec![2, 3]);
}

#[test]
fn tagged_listings_come_last_row_first() {
    let applied = |id: &str| AppliedTag {
        listing_id: id.to_string(),
        checksum: None,
        file_name: "n".to_string(),
        file_path: "p".to_string(),
        file_size: 1,
        listing_tags_id: "lt".to_string(),
        tags_id: "t".to_string(),
        tag: "beach".to_string(),
    };
    assert!(find_tagged_listings(vec![]).is_none());
    let r = find_tagged_listings(vec![applied("x"), applied("y")]).unwrap();
    assert_eq!(r[0].listing_id, "y");
    assert_eq!(r[1].listing_id, "x");
}

#[test]
fn missing_keeps_the_listings_whose_file_is_gone_in_order() {
    let ls = vec![listing("1", None, "/a"), listing("2", None, "/b"), listing("3", None, "/c"), listing("4", None, "/d")];
    let r = find_missing(ls, &vec![true, false, true, false]).unwrap();
    let ids: Vec<&str> = r.iter().map(|l| l.id.as_str()).collect();
    assert_eq!(ids, vec!["2", "4"]);
}

#[test]
fn nothing_missing_gives_none() {
    assert!(find_missing(vec![], &vec![]).is_none());
    assert!(find_missing(vec![listing("1", None, "/a")], &vec![true]).is_none());
}
