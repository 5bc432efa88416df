use card_catalog::mods::util::{escape_sql_string, unescape_sql_string, Settings};

#[test]
fn escape_doubles_single_quotes() {
    assert_eq!(escape_sql_string(&"/home/o'neil/it's.txt".to_string()), "/home/o''neil/it''s.txt");
}

#[test]
fn escape_leaves_plain_paths_alone() {
    assert_eq!(escape_sql_string(&"/srv/music/track 01.flac".to_string()), "/srv/music/track 01.flac");
    assert_eq!(escape_sql_string(&String::new()), "");
}

#[test]
fn escape_handles_runs_of_quotes_and_unicode() {
    assert_eq!(escape_sql_string(&"''".to_string()), "''''");
    assert_eq!(escape_sql_string(&"café'ß".to_string()), "café''ß");
}

#[test]
fn unescape_folds_pairs_of_quotes() {
    assert_eq!(unescape_sql_string(&"/home/o''neil/it''s.txt".to_string()), "/home/o'neil/it's.txt");
}

#[test]
fn unescape_takes_pairs_from_the_left() {
    assert_eq!(unescape_sql_string(&"'''".to_string()), "''");
    assert_eq!(unescape_sql_string(&"a'b".to_string()), "a'b");
    assert_eq!(unescape_sql_string(&"''''".to_string()), "''");
    assert_eq!(unescape_sql_string(&String::new()), "");
}

#[test]
fn unescape_undoes_escape() {
    for s in ["", "'", "''", "x'y''z'", "/tmp/it's/a 'dir'/f.txt", "ünïcødé'"] {
        let s = s.to_string();
        assert_eq!(unescape_sql_string(&escape_sql_string(&s)), s);
    }
}

#[test]
fn escape_undoes_unescape_on_paired_text() {
    let t = "a''b''''c".to_string();
    assert_eq!(escape_sql_string(&unescape_sql_string(&t)), t);
}

#[test]
fn escape_does_not_undo_unescape_on_a_lone_quote() {
    let t = "'".to_string();
    assert_eq!(escape_sql_string(&unescape_sql_string(&t)), "''");
}

#[test]
fn settings_hold_their_fields() {
    let s = Settings { directory_to_scan: "/data".to_string(), pg_connection_string: "catalog.db".to_string() };
    assert_eq!(s.directory_to_scan, "/data");
    assert_eq!(s.pg_connection_string, "catalog.db");
}
