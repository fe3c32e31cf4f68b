use shorten_folder::anchors::AnchorSet;
use shorten_folder::path::{join_path, starts_with};
use shorten_folder::render::render;
use shorten_folder::trim::{trim, Step};

fn components(text: &str) -> Vec<String> {
    let mut cs = vec!["/".to_string()];
    for part in text.split('/').filter(|p| !p.is_empty()) {
        cs.push(part.to_string());
    }
    cs
}

/// Runs the abbreviation against synthetic listings: the directories in
/// `anchored` hold a manifest, all others a plain file. Returns the result and
/// the directories that were listed.
fn run(
    text: &str,
    width: usize,
    in_users_home: bool,
    stop_early: bool,
    anchored: &[&str],
) -> (String, Vec<String>) {
    let path = components(text);
    let anchors = AnchorSet::standard();
    let mut listings: Vec<Vec<String>> = vec![];
    let mut listed = vec![];
    loop {
        match trim(&path, width, in_users_home, stop_early, &anchors, &listings) {
            Step::Done(out) => return (join_path(&out), listed),
            Step::List(dir) => {
                let dir = join_path(&dir);
                let entries = if anchored.contains(&dir.as_str()) {
                    vec!["src".to_string(), "Cargo.toml".to_string()]
                } else {
                    vec!["README.md".to_string()]
                };
                listed.push(dir);
                listings.push(entries);
            }
        }
    }
}

#[test]
fn full_abbreviation_without_anchors() {
    let (out, _) = run("/home/alice/projects/widgets/src", 0, false, false, &[]);
    assert_eq!(out, "/h/a/p/w/src");
}

#[test]
fn anchored_directory_stays_whole() {
    let (out, _) = run(
        "/home/alice/projects/widgets/src",
        0,
        false,
        false,
        &["/home/alice/projects/widgets"],
    );
    assert_eq!(out, "/h/a/p/widgets/src");
}

#[test]
fn anchored_projects_directory_stays_whole() {
    let (out, _) = run(
        "/home/alice/projects/widgets/src",
        0,
        false,
        false,
        &["/home/alice/projects"],
    );
    assert_eq!(out, "/h/a/projects/w/src");
}

#[test]
fn hidden_component_keeps_two_characters() {
    let (out, _) = run("/home/alice/.config/app", 0, false, false, &[]);
    assert_eq!(out, "/h/a/.c/app");
}

#[test]
fn fitting_path_unchanged_under_home() {
    let (out, listed) = run("/home/alice/projects/widgets/src", 1000, true, true, &[]);
    assert_eq!(out, "/home/alice/projects/widgets/src");
    assert!(listed.is_empty());
}

#[test]
fn fitting_path_is_still_abbreviated_without_early_stop() {
    let (out, _) = run("/home/alice/projects/widgets/src", 1000, false, false, &[]);
    assert_eq!(out, "/h/a/p/w/src");
}

#[test]
fn early_stop_keeps_least_abbreviated_fit() {
    let (out, listed) = run("/home/alice/projects/widgets/src", 28, false, true, &[]);
    assert_eq!(out, "/h/a/projects/widgets/src");
    assert_eq!(listed, vec!["/", "/home", "/home/alice"]);
}

#[test]
fn early_stop_that_never_fits_abbreviates_all() {
    let (out, _) = run("/home/alice/projects/widgets/src", 3, false, true, &[]);
    assert_eq!(out, "/h/a/p/w/src");
}

#[test]
fn home_prefix_never_listed_or_shortened() {
    let (out, listed) = run(
        "/home/alice/projects/widgets/src",
        0,
        true,
        false,
        &["/home", "/home/alice"],
    );
    assert_eq!(out, "/home/alice/p/w/src");
    assert_eq!(listed, vec!["/home/alice/projects", "/home/alice/projects/widgets"]);
}

#[test]
fn home_directory_itself_gives_empty_path() {
    let (out, listed) = run("/home/alice", 0, true, false, &[]);
    assert_eq!(out, "");
    assert!(listed.is_empty());
}

#[test]
fn single_component_under_home_gives_empty_path() {
    let (out, _) = run("/home/alice/notes", 0, true, false, &[]);
    assert_eq!(out, "");
}

#[test]
fn root_alone_gives_empty_path() {
    let (out, _) = run("/", 0, false, false, &[]);
    assert_eq!(out, "");
}

#[test]
fn empty_path_gives_empty_path() {
    let anchors = AnchorSet::standard();
    match trim(&vec![], 0, false, false, &anchors, &vec![]) {
        Step::Done(out) => assert!(out.is_empty()),
        Step::List(_) => panic!("an empty path needs no listing"),
    }
}

#[test]
fn result_keeps_component_count_and_last_component() {
    let path = components("/usr/local/share/fonts");
    let anchors = AnchorSet::standard();
    let listings = vec![vec![], vec![], vec![], vec![]];
    match trim(&path, 0, false, false, &anchors, &listings) {
        Step::Done(out) => {
            assert_eq!(out.len(), path.len());
            assert_eq!(out.last(), path.last());
            assert_eq!(out, vec!["/", "u", "l", "s", "fonts"]);
        }
        Step::List(_) => panic!("all listings were given"),
    }
}

#[test]
fn listing_request_names_next_directory() {
    let path = components("/usr/local/share/fonts");
    let anchors = AnchorSet::standard();
    let listings = vec![vec![], vec!["bin".to_string()]];
    match trim(&path, 0, false, false, &anchors, &listings) {
        Step::Done(_) => panic!("a listing is missing"),
        Step::List(dir) => assert_eq!(dir, vec!["/", "usr", "local"]),
    }
}

#[test]
fn abbreviation_never_lengthens() {
    for text in ["/a/b/c", "/.x/.yz/.w", "/home/alice/projects/widgets/src", "/éé/üü/x"] {
        for width in [0, 5, 10, 100] {
            for stop in [false, true] {
                let (out, _) = run(text, width, false, stop, &[]);
                assert!(out.chars().count() <= text.chars().count());
            }
        }
    }
}

/// Runs the whole prompt rendering, as the program does, with no anchors.
fn prompt(cwd: &str, home: &str, width: usize, stop_early: bool) -> String {
    let path = components(cwd);
    let home = components(home);
    let in_users_home = starts_with(&path, &home);
    let anchors = AnchorSet::standard();
    let mut listings: Vec<Vec<String>> = vec![];
    loop {
        match trim(&path, width, in_users_home, stop_early, &anchors, &listings) {
            Step::Done(out) => return render(&out, &home, in_users_home),
            Step::List(_) => listings.push(vec![]),
        }
    }
}

#[test]
fn prompt_outside_home_has_no_tilde() {
    assert_eq!(prompt("/home/x", "/h", 0, false), "/h/<b>x</b>");
}

#[test]
fn prompt_under_deep_home_has_tilde() {
    assert_eq!(prompt("/home/users/alice/x/y", "/home/users/alice", 0, false), "~/a/x/<b>y</b>");
}

#[test]
fn prompt_at_root_has_no_tilde() {
    assert_eq!(prompt("/", "/home/alice", 0, false), "<b></b>");
}

#[test]
fn prompt_under_home() {
    assert_eq!(prompt("/home/alice/projects/widgets/src", "/home/alice", 0, false), "~/p/w/<b>src</b>");
    assert_eq!(prompt("/home/alice/projects/widgets/src", "/home/alice", 100, true), "~/projects/widgets/<b>src</b>");
    assert_eq!(prompt("/home/alice", "/home/alice", 0, false), "<b>~</b>");
}
