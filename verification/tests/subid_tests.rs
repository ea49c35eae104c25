//! Behavior of sub-id range parsing and id-mapping argument computation.

use rpmoci::subid::{get_sub_id_ranges, newidmap_args, SubIdRange};

fn subid_contents() -> &'static str {
    "\n# this is a comment\nuser1:100:500\nuser2:10:10\nuser3:1000:65536\nuser1:1:8\n1000:100000:5\n        "
}

#[test]
fn test_get_sub_id_ranges() {
    let contents = subid_contents();
    assert_eq!(
        get_sub_id_ranges(contents.as_bytes(), "1000", None),
        vec![SubIdRange { start: 100000, count: 5 }]
    );
    assert_eq!(
        get_sub_id_ranges(contents.as_bytes(), "1000", Some("user1")),
        vec![
            SubIdRange { start: 100, count: 500 },
            SubIdRange { start: 1, count: 8 },
            SubIdRange { start: 100000, count: 5 },
        ]
    );
    assert_eq!(
        get_sub_id_ranges(contents.as_bytes(), "1001", Some("user1")),
        vec![
            SubIdRange { start: 100, count: 500 },
            SubIdRange { start: 1, count: 8 },
        ]
    );
    assert_eq!(
        get_sub_id_ranges(contents.as_bytes(), "1001", Some("user2")),
        vec![SubIdRange { start: 10, count: 10 }]
    );
}

#[test]
fn test_newidmap_args() {
    let contents = subid_contents();
    assert_eq!(
        newidmap_args(contents.as_bytes(), "1000", Some("user1"), 1234),
        (
            vec![
                "1234".to_string(),
                "0".to_string(),
                "1000".to_string(),
                "1".to_string(),
                "1".to_string(),
                "100".to_string(),
                "500".to_string(),
                "501".to_string(),
                "1".to_string(),
                "8".to_string(),
                "509".to_string(),
                "100000".to_string(),
                "5".to_string(),
            ],
            514
        )
    );
}

#[test]
fn malformed_lines_ignored() {
    let contents = "u:1\nu:x:5\nu:5:y\nu:2:3:extra\nu:7:8";
    assert_eq!(
        get_sub_id_ranges(contents.as_bytes(), "0", Some("u")),
        vec![SubIdRange { start: 7, count: 8 }]
    );
}

#[test]
fn crlf_lines_accepted() {
    let contents = "u:5:6\r\nu:7:8";
    assert_eq!(
        get_sub_id_ranges(contents.as_bytes(), "0", Some("u")),
        vec![
            SubIdRange { start: 5, count: 6 },
            SubIdRange { start: 7, count: 8 },
        ]
    );
}
