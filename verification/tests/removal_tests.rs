use ssr::removal::filter_lines;
use ssr::removal::remove_from_contents;
use ssr::removal::RemoveOutcome;
use ssr::text::split_lines;

#[test]
fn removal_counts_and_keeps_the_rest() {
    // Five entry lines, two of which match target `x`; the comment and
    // the blank line stay untouched and in place.
    let contents = b"# known hosts\nx ka\nhost2 kb\n\nx,other kc\nhost4 kd\nhost5 ke\n".to_vec();
    match remove_from_contents(&contents, &b"x".to_vec()) {
        RemoveOutcome::NoMatch => panic!("two lines match"),
        RemoveOutcome::Rewrite { new_contents, removed_hosts } => {
            assert_eq!(removed_hosts.len(), 2);
            assert_eq!(removed_hosts[0], b"x".to_vec());
            assert_eq!(removed_hosts[1], b"x,other".to_vec());
            assert_eq!(
                new_contents,
                b"# known hosts\nhost2 kb\n\nhost4 kd\nhost5 ke\n".to_vec()
            );
        }
    }
}

#[test]
fn no_match_touches_nothing() {
    let contents = b"host1 ka\nhost2 kb\n".to_vec();
    match remove_from_contents(&contents, &b"absent".to_vec()) {
        RemoveOutcome::NoMatch => {}
        RemoveOutcome::Rewrite { .. } => panic!("nothing matches, the file must stay"),
    }
}

#[test]
fn bracket_form_matches_clean_host() {
    let contents = b"[192.168.1.5]:2222 ssh-rsa AAAA\n".to_vec();
    match remove_from_contents(&contents, &b"192.168.1.5".to_vec()) {
        RemoveOutcome::NoMatch => panic!("the bracketed host must match its clean form"),
        RemoveOutcome::Rewrite { new_contents, removed_hosts } => {
            assert_eq!(removed_hosts.len(), 1);
            assert_eq!(removed_hosts[0], b"[192.168.1.5]:2222".to_vec());
            assert_eq!(new_contents, b"".to_vec());
        }
    }
}

#[test]
fn bracket_form_matches_substring_of_literal_token() {
    let contents = b"[192.168.1.5]:2222 ssh-rsa AAAA\n".to_vec();
    match remove_from_contents(&contents, &b"]:2222".to_vec()) {
        RemoveOutcome::NoMatch => panic!("a substring of the raw token must match"),
        RemoveOutcome::Rewrite { removed_hosts, .. } => {
            assert_eq!(removed_hosts.len(), 1);
        }
    }
}

#[test]
fn loose_substring_removal_quirk() {
    let contents = b"11.1.1.1 ssh-rsa AAAA\n".to_vec();
    match remove_from_contents(&contents, &b"1.1".to_vec()) {
        RemoveOutcome::NoMatch => panic!("the substring fallback matches 11.1.1.1"),
        RemoveOutcome::Rewrite { removed_hosts, .. } => {
            assert_eq!(removed_hosts.len(), 1);
        }
    }
}

#[test]
fn comment_mentioning_target_is_kept() {
    let contents = b"# x lives here\nx ka\n".to_vec();
    match remove_from_contents(&contents, &b"x".to_vec()) {
        RemoveOutcome::NoMatch => panic!("the entry line matches"),
        RemoveOutcome::Rewrite { new_contents, removed_hosts } => {
            assert_eq!(removed_hosts.len(), 1);
            assert_eq!(new_contents, b"# x lives here\n".to_vec());
        }
    }
}

#[test]
fn filter_lines_preserves_order_of_kept_lines() {
    let contents = b"keep1 ka\ndrop kb\nkeep2 kc\n".to_vec();
    let lines = split_lines(&contents);
    let outcome = filter_lines(&lines, &b"drop".to_vec());
    assert_eq!(outcome.kept, vec![b"keep1 ka".to_vec(), b"keep2 kc".to_vec()]);
    assert_eq!(outcome.removed_hosts, vec![b"drop".to_vec()]);
}

#[test]
fn rewrite_normalizes_line_endings_only_on_match() {
    // A matching removal rewrites the retained lines each with a plain
    // terminating newline.
    let contents = b"drop ka\r\nkeep kb".to_vec();
    match remove_from_contents(&contents, &b"drop".to_vec()) {
        RemoveOutcome::NoMatch => panic!("one line matches"),
        RemoveOutcome::Rewrite { new_contents, removed_hosts } => {
            assert_eq!(removed_hosts.len(), 1);
            assert_eq!(new_contents, b"keep kb\n".to_vec());
        }
    }
}

#[test]
fn empty_target_matches_every_entry_line() {
    // An empty target is a substring of every sub-token, another facet of
    // the loose fallback.
    let contents = b"# comment stays\nhost1 ka\nhost2 kb\n".to_vec();
    match remove_from_contents(&contents, &b"".to_vec()) {
        RemoveOutcome::NoMatch => panic!("the empty target matches every entry"),
        RemoveOutcome::Rewrite { new_contents, removed_hosts } => {
            assert_eq!(removed_hosts.len(), 2);
            assert_eq!(new_contents, b"# comment stays\n".to_vec());
        }
    }
}
