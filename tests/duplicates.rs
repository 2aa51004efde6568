use gifdome::duplicates::{duplicate_suggestions, parse_duplicate_clusters};
use gifdome::menu::{admin_menu, global_admin_menu, global_menu};
use gifdome::db::TournamentState;

fn strings(v: &[&str]) -> Vec<String> {
    v.iter().map(|s| s.to_string()).collect()
}

#[test]
fn fingerprint_report_is_read_per_line() {
    let report = "/thumbs/abc /thumbs/def\n/x/y/ghi\t/x/./jkl/\n";
    assert_eq!(
        parse_duplicate_clusters(report),
        vec![strings(&["abc", "def"]), strings(&["ghi", "jkl"])]
    );
    assert_eq!(parse_duplicate_clusters(""), Vec::<Vec<String>>::new());
    assert_eq!(parse_duplicate_clusters("a\n\nb"), vec![strings(&["a"]), vec![], strings(&["b"])]);
    assert_eq!(parse_duplicate_clusters("a/.. / . ./x\r\n"), vec![strings(&["x"])]);
}

#[test]
fn file_names_match_std_paths() {
    for path in ["/t/a", "a/b/", "a//b", "./c", "../d", "e/.", "/", ".", "..", "f/..", "g.png", "h/.i"] {
        let expected: Vec<String> = std::path::Path::new(path)
            .file_name()
            .and_then(|n| n.to_str())
            .map(|n| vec![n.to_string()])
            .unwrap_or_default();
        assert_eq!(parse_duplicate_clusters(path), vec![expected], "{path}");
    }
}

#[test]
fn suggestions_keep_clusters_with_two_submitted() {
    let clusters = vec![strings(&["a", "b", "c"]), strings(&["d", "e"]), strings(&["f", "a"])];
    let submitted = strings(&["a", "c", "d", "x"]);
    assert_eq!(duplicate_suggestions(&clusters, &submitted), vec![strings(&["a", "c"])]);
    assert!(duplicate_suggestions(&vec![], &submitted).is_empty());
}

#[test]
fn command_menus() {
    let names = |v: Vec<gifdome::menu::MenuCommand>| v.into_iter().map(|c| c.command).collect::<Vec<_>>();
    assert_eq!(names(admin_menu(Some(TournamentState::Submitting)).unwrap()), strings(&["startvoting", "abort", "help"]));
    assert_eq!(names(admin_menu(Some(TournamentState::Voting)).unwrap()), strings(&["abort", "help"]));
    assert!(admin_menu(None).is_none());
    assert!(admin_menu(Some(TournamentState::Finished)).is_none());
    assert_eq!(names(global_menu()), strings(&["help"]));
    let admin = global_admin_menu();
    assert_eq!(admin[0].description, "Start the GIFdome");
    assert_eq!(names(admin), strings(&["start", "help"]));
}
