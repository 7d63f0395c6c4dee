use ssr::listing::group_hosts;
use ssr::listing::list_report;
use ssr::listing::ListReport;
use ssr::text::split_lines;

#[test]
fn whitespace_only_file_reports_empty() {
    match list_report(&b" \n\t \n".to_vec()) {
        ListReport::Empty => {}
        ListReport::Entries(_) => panic!("whitespace-only contents must report empty"),
    }
    match list_report(&b"".to_vec()) {
        ListReport::Empty => {}
        ListReport::Entries(_) => panic!("empty contents must report empty"),
    }
}

#[test]
fn non_blank_file_reports_entries() {
    match list_report(&b"example.com ssh-rsa AAAA\n".to_vec()) {
        ListReport::Empty => panic!("a file with an entry is not empty"),
        ListReport::Entries(groups) => {
            assert_eq!(groups.len(), 1);
            assert_eq!(groups[0].host, b"example.com".to_vec());
            assert_eq!(groups[0].count, 1);
        }
    }
}

#[test]
fn grouping_keeps_first_seen_order_and_counts() {
    // Host fields a, b, a, c, b, a: a first with count 3, then b with
    // count 2, then c with count 1.
    let contents = b"a k1\nb k2\na k3\nc k4\nb k5\na k6\n".to_vec();
    let lines = split_lines(&contents);
    let groups = group_hosts(&lines);
    assert_eq!(groups.len(), 3);
    assert_eq!(groups[0].host, b"a".to_vec());
    assert_eq!(groups[0].count, 3);
    assert_eq!(groups[1].host, b"b".to_vec());
    assert_eq!(groups[1].count, 2);
    assert_eq!(groups[2].host, b"c".to_vec());
    assert_eq!(groups[2].count, 1);
}

#[test]
fn comments_and_blanks_are_not_counted() {
    let contents = b"# heading\n\nhost1 key\n   # note\nhost1 other\n".to_vec();
    let lines = split_lines(&contents);
    let groups = group_hosts(&lines);
    assert_eq!(groups.len(), 1);
    assert_eq!(groups[0].host, b"host1".to_vec());
    assert_eq!(groups[0].count, 2);
}

#[test]
fn listing_leaves_contents_unchanged() {
    let contents = b"a k1\nb k2\n# note\n".to_vec();
    let before = contents.clone();
    let _ = list_report(&contents);
    assert_eq!(contents, before);
}
