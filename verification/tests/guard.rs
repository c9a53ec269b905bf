use rustywebserver::guard::{
    climbs_above, find_final_component, has_forbidden_name, is_forbidden_file, is_hidden,
    is_under_scripts, is_within, join_path, leaves_root, relative_to_root, resolve, Kind,
    Resolution,
};

#[test]
fn ordinary_file_within_root_is_not_forbidden() {
    assert!(!is_forbidden_file(b"/srv/index.html", Some(b"/srv/index.html"), b"/srv"));
    assert!(!is_forbidden_file(b"/srv/a/b.txt", Some(b"/srv/a/b.txt"), b"/srv"));
    assert!(!is_forbidden_file(b"/srv", Some(b"/srv"), b"/srv"));
}

#[test]
fn missing_path_is_not_forbidden() {
    assert!(!is_forbidden_file(b"/srv/missing.txt", None, b"/srv"));
    assert!(!is_forbidden_file(b"/srv/a/b/missing", None, b"/srv"));
    assert!(!is_forbidden_file(b"/srv/a/../missing", None, b"/srv"));
    assert!(!is_forbidden_file(b"/srv", None, b"/srv"));
}

#[test]
fn missing_path_that_leaves_root_is_forbidden() {
    assert!(is_forbidden_file(b"/srv/../etc/nothing", None, b"/srv"));
    assert!(is_forbidden_file(b"/srv/a/../../etc/nothing", None, b"/srv"));
    assert!(is_forbidden_file(b"/etc/nothing", None, b"/srv"));
    assert!(is_forbidden_file(b"/srvx/nothing", None, b"/srv"));
}

#[test]
fn missing_path_with_a_reserved_or_hidden_name_is_forbidden() {
    assert!(is_forbidden_file(b"/srv/forbidden/x", None, b"/srv"));
    assert!(is_forbidden_file(b"/srv/restricted_area.txt", None, b"/srv"));
    assert!(is_forbidden_file(b"/srv/.hidden", None, b"/srv"));
}

#[test]
fn leaving_root_is_told_from_the_written_path() {
    assert!(leaves_root(b"/srv/..", b"/srv"));
    assert!(leaves_root(b"/other", b"/srv"));
    assert!(!leaves_root(b"/srv", b"/srv"));
    assert!(!leaves_root(b"/srv/a/..", b"/srv"));
    assert!(!leaves_root(b"/srv//a/./b", b"/srv"));
}

#[test]
fn trailing_dot_components_are_looked_through() {
    assert!(is_hidden(b"/srv/.hidden/."));
    assert!(is_hidden(b"/srv/.hidden/./"));
    assert!(is_hidden(b"/srv/.hidden/././/"));
    assert!(is_hidden(b".hidden/."));
    assert!(!is_hidden(b"/srv/shown/."));
    assert!(!is_hidden(b"/srv/.hidden/.."));
    assert!(!is_hidden(b"."));
    assert!(!is_hidden(b"./"));
    assert!(!is_hidden(b".."));
    assert_eq!(find_final_component(b"/srv/.hidden/./"), (5, 12));
    assert_eq!(find_final_component(b"/srv/a.txt"), (5, 10));
    assert_eq!(find_final_component(b"/"), (0, 0));
    assert!(is_forbidden_file(b"/srv/.hidden/.", Some(b"/srv/.hidden"), b"/srv"));
}

#[test]
fn path_is_taken_relative_to_root() {
    assert_eq!(relative_to_root(b"/srv/a/b", b"/srv"), b"a/b".to_vec());
    assert_eq!(relative_to_root(b"/srv/a", b"/srv/"), b"a".to_vec());
    assert_eq!(relative_to_root(b"/srv", b"/srv"), Vec::<u8>::new());
    assert_eq!(relative_to_root(b"/other/a", b"/srv"), b"/other/a".to_vec());
    assert_eq!(relative_to_root(b"/srvx", b"/srv"), b"/srvx".to_vec());
}

#[test]
fn path_that_resolves_outside_root_is_forbidden() {
    assert!(is_forbidden_file(b"/srv/../etc/passwd", Some(b"/etc/passwd"), b"/srv"));
    assert!(is_forbidden_file(b"/srv/link", Some(b"/"), b"/srv"));
    assert!(is_forbidden_file(b"/srv/link", Some(b"/srvx/file"), b"/srv"));
}

#[test]
fn reserved_names_are_forbidden() {
    assert!(is_forbidden_file(b"/srv/forbidden/x", Some(b"/srv/forbidden/x"), b"/srv"));
    assert!(is_forbidden_file(b"/srv/forbidden", Some(b"/srv/forbidden"), b"/srv"));
    assert!(is_forbidden_file(b"/srv/a/restricted_area.txt", Some(b"/srv/a/restricted_area.txt"), b"/srv"));
    assert!(is_forbidden_file(b"/srv/scripts/../index.html", Some(b"/srv/index.html"), b"/srv"));
    assert!(has_forbidden_name(b"/srv/my_forbidden_notes.txt"));
    assert!(!has_forbidden_name(b"/srv/scripts/run.sh"));
    assert!(!has_forbidden_name(b"/srv/Forbidden"));
}

#[test]
fn hidden_entries_are_forbidden() {
    assert!(is_forbidden_file(b"/srv/.git", Some(b"/srv/.git"), b"/srv"));
    assert!(is_forbidden_file(b"/srv/.git/", Some(b"/srv/.git"), b"/srv"));
    assert!(is_hidden(b".profile"));
    assert!(is_hidden(b"/srv/a/.x"));
    assert!(is_hidden(b"/srv/..."));
    assert!(!is_hidden(b"/srv/.git/config"));
    assert!(!is_hidden(b"/srv/a.b"));
    assert!(!is_hidden(b"/srv/a/.."));
    assert!(!is_hidden(b"/srv/a/."));
    assert!(!is_hidden(b"/"));
    assert!(!is_hidden(b""));
}

#[test]
fn within_compares_whole_components() {
    assert!(is_within(b"/srv", b"/srv"));
    assert!(is_within(b"/srv/a", b"/srv"));
    assert!(is_within(b"/srv/a", b"/srv/"));
    assert!(is_within(b"/a", b"/"));
    assert!(is_within(b"anything", b""));
    assert!(!is_within(b"/srvx", b"/srv"));
    assert!(!is_within(b"/sr", b"/srv"));
    assert!(!is_within(b"/etc/srv", b"/srv"));
}

#[test]
fn paths_are_joined_by_one_slash() {
    assert_eq!(join_path(b"/srv", b"a/b"), b"/srv/a/b".to_vec());
    assert_eq!(join_path(b"/srv/", b"a"), b"/srv/a".to_vec());
    assert_eq!(join_path(b"/srv", b""), b"/srv".to_vec());
    assert_eq!(join_path(b"", b"a"), b"a".to_vec());
    assert_eq!(join_path(b"/", b"a"), b"/a".to_vec());
}

#[test]
fn climbing_is_counted_component_by_component() {
    assert!(climbs_above(b".."));
    assert!(climbs_above(b"../a"));
    assert!(climbs_above(b"a/../.."));
    assert!(climbs_above(b"a/../../b/c/d"));
    assert!(climbs_above(b"./.."));
    assert!(climbs_above(b"a//../.."));
    assert!(!climbs_above(b""));
    assert!(!climbs_above(b"a/.."));
    assert!(!climbs_above(b"a/b/../../c"));
    assert!(!climbs_above(b"..."));
    assert!(!climbs_above(b"..a/b"));
    assert!(!climbs_above(b"a/./b"));
}

#[test]
fn existing_file_resolves_to_its_canonical_path() {
    let r = resolve(b"index.html", b"/srv", Some(b"/srv/index.html"), Kind::File);
    assert_eq!(r.tag, Resolution::File);
    assert_eq!(r.path, b"/srv/index.html".to_vec());
    let r = resolve(b"a/../docs", b"/srv", Some(b"/srv/docs"), Kind::Directory);
    assert_eq!(r.tag, Resolution::Directory);
    assert_eq!(r.path, b"/srv/docs".to_vec());
    let r = resolve(b"pipe", b"/srv", Some(b"/srv/pipe"), Kind::Other);
    assert_eq!(r.tag, Resolution::Missing);
}

#[test]
fn root_itself_resolves_to_a_directory() {
    let r = resolve(b"", b"/srv", Some(b"/srv"), Kind::Directory);
    assert_eq!(r.tag, Resolution::Directory);
    assert_eq!(r.path, b"/srv".to_vec());
}

#[test]
fn traversal_resolves_to_forbidden_whatever_is_there() {
    for kind in [Kind::File, Kind::Directory, Kind::Other] {
        let r = resolve(b"../etc/passwd", b"/srv", Some(b"/etc/passwd"), kind);
        assert_eq!(r.tag, Resolution::Forbidden);
    }
    let r = resolve(b"../../etc/nothing", b"/srv", None, Kind::Other);
    assert_eq!(r.tag, Resolution::Forbidden);
}

#[test]
fn forbidden_name_wins_over_existence() {
    let r = resolve(b"forbidden/x", b"/srv", None, Kind::Other);
    assert_eq!(r.tag, Resolution::Forbidden);
    let r = resolve(b"forbidden/x", b"/srv", Some(b"/srv/forbidden/x"), Kind::File);
    assert_eq!(r.tag, Resolution::Forbidden);
    let r = resolve(b".hidden", b"/srv", None, Kind::Other);
    assert_eq!(r.tag, Resolution::Forbidden);
}

#[test]
fn missing_path_resolves_to_missing() {
    let r = resolve(b"missing.txt", b"/srv", None, Kind::Other);
    assert_eq!(r.tag, Resolution::Missing);
    assert_eq!(r.path, b"/srv/missing.txt".to_vec());
    let r = resolve(b"a/../missing.txt", b"/srv", None, Kind::Other);
    assert_eq!(r.tag, Resolution::Missing);
}

#[test]
fn scripts_directory_is_recognised_by_component() {
    assert!(is_under_scripts(b"/srv/scripts/run.sh", b"/srv"));
    assert!(is_under_scripts(b"/srv/scripts/sub/run", b"/srv"));
    assert!(is_under_scripts(b"/srv/scripts", b"/srv"));
    assert!(!is_under_scripts(b"/srv/scriptsx/run", b"/srv"));
    assert!(!is_under_scripts(b"/srv/a/scripts/run", b"/srv"));
    assert!(!is_under_scripts(b"/srv/index.html", b"/srv"));
}
