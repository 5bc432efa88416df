use card_catalog::models::{Listing, NewListing};
use card_catalog::server::{cors, index};

#[test]
fn index_greets() {
    assert_eq!(index(), "Hello, world!");
}

#[test]
fn cors_greets() {
    assert_eq!(cors(), "Hello CORS");
}

#[test]
fn record_types_hold_their_fields() {
    let size: i64 = 7;
    let n = NewListing { checksum: "c", file_name: "n", file_path: "p", file_size: &size };
    assert_eq!(*n.file_size, 7);
    let l = Listing { id: 3, checksum: None, file_name: n.file_name.to_string(), file_path: n.file_path.to_string(), file_size: size };
    assert_eq!(l.id, 3);
    assert_eq!(l.checksum, None);
}
