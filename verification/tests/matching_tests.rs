use ssr::entry::host_field_of;
use ssr::entry::is_entry_line;
use ssr::matching::clean_host_of;
use ssr::matching::matches_host_field;
use ssr::matching::matches_line;
use ssr::matching::split_host_field;

#[test]
fn entry_line_classification() {
    assert!(is_entry_line(&b"example.com ssh-ed25519 AAAA".to_vec()));
    assert!(is_entry_line(&b"   example.com key".to_vec()));
    assert!(!is_entry_line(&b"".to_vec()));
    assert!(!is_entry_line(&b"   \t ".to_vec()));
    assert!(!is_entry_line(&b"# a comment".to_vec()));
    assert!(!is_entry_line(&b"   # indented comment".to_vec()));
}

#[test]
fn host_field_is_first_token() {
    assert_eq!(host_field_of(&b"example.com ssh-rsa AAAA".to_vec()), b"example.com".to_vec());
    assert_eq!(host_field_of(&b"  spaced.host key material".to_vec()), b"spaced.host".to_vec());
    assert_eq!(host_field_of(&b"lonely".to_vec()), b"lonely".to_vec());
}

#[test]
fn clean_host_strips_bracket_and_port() {
    assert_eq!(clean_host_of(&b"[192.168.1.5]:2222".to_vec()), b"192.168.1.5".to_vec());
    assert_eq!(clean_host_of(&b"plain.host".to_vec()), b"plain.host".to_vec());
    assert_eq!(clean_host_of(&b"[[x]]".to_vec()), b"[x".to_vec());
    assert_eq!(clean_host_of(&b"".to_vec()), b"".to_vec());
}

#[test]
fn split_host_field_on_commas() {
    let subs = split_host_field(&b"a,b,c".to_vec());
    assert_eq!(subs, vec![b"a".to_vec(), b"b".to_vec(), b"c".to_vec()]);
    let single = split_host_field(&b"alone".to_vec());
    assert_eq!(single, vec![b"alone".to_vec()]);
    let with_empty = split_host_field(&b"a,,b".to_vec());
    assert_eq!(with_empty, vec![b"a".to_vec(), b"".to_vec(), b"b".to_vec()]);
}

#[test]
fn host_field_match_comma_separated() {
    assert!(matches_host_field(&b"host1,host2".to_vec(), &b"host2".to_vec()));
    assert!(matches_host_field(&b"host1,host2".to_vec(), &b"host1".to_vec()));
    assert!(!matches_host_field(&b"host1,host2".to_vec(), &b"host3".to_vec()));
}

#[test]
fn host_field_match_substring_quirk() {
    // The substring fallback is loose by design: `1.1` occurs inside
    // `11.1.1.1`, so the target matches that host as well.
    assert!(matches_host_field(&b"11.1.1.1".to_vec(), &b"1.1".to_vec()));
}

#[test]
fn comment_line_never_matches() {
    assert!(!matches_line(&b"# example.com is mentioned here".to_vec(), &b"example.com".to_vec()));
    assert!(!matches_line(&b"   ".to_vec(), &b"example.com".to_vec()));
    assert!(matches_line(&b"example.com ssh-rsa AAAA".to_vec(), &b"example.com".to_vec()));
}
