use ssr::path::known_hosts_path;

#[test]
fn primary_home_wins() {
    let r = known_hosts_path(Some(b"/home/alice".to_vec()), Some(b"/profiles/alice".to_vec()));
    assert_eq!(r, Some(b"/home/alice/.ssh/known_hosts".to_vec()));
}

#[test]
fn secondary_is_the_fallback() {
    let r = known_hosts_path(None, Some(b"/profiles/bob".to_vec()));
    assert_eq!(r, Some(b"/profiles/bob/.ssh/known_hosts".to_vec()));
}

#[test]
fn primary_alone_resolves() {
    let r = known_hosts_path(Some(b"/root".to_vec()), None);
    assert_eq!(r, Some(b"/root/.ssh/known_hosts".to_vec()));
}

#[test]
fn neither_home_value_resolves_nothing() {
    assert_eq!(known_hosts_path(None, None), None);
}
