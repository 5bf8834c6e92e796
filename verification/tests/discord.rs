use kanshi::discord::{build_changelog, limit_content_and_see_more, ChangelogBuilder};
use kanshi::error::DoomError;

fn groups(v: &[&[&str]]) -> Vec<Vec<String>> {
    v.iter().map(|g| g.iter().map(|s| s.to_string()).collect()).collect()
}

#[test]
fn changelog_layout() {
    let v = groups(&[&["Head", "line"], &["A", "B"], &["n1", "n2"]]);
    assert_eq!("Head line\n\nA\n\nB\n\nn1 n2", build_changelog(&v));
}

#[test]
fn changelog_layout_of_nothing_is_empty() {
    assert_eq!("", build_changelog(&Vec::new()));
}

#[test]
fn everything_fits_without_link() {
    let v = groups(&[&["Head"], &["A", "B"], &["n1"]]);
    let r = limit_content_and_see_more(4096, &v, &ChangelogBuilder, Some(("http://x", 1)));
    assert_eq!("Head\n\nA\n\nB\n\nn1", r.ok().unwrap());
}

#[test]
fn cut_and_link_added() {
    let long = "b".repeat(40);
    let v = groups(&[&["H"], &["aaaa", long.as_str()], &["f1", "f2"]]);
    // level 1: "H\n\naaaa\n\nf1" (13 bytes); level 2 is 56 bytes; the link takes 17.
    let r = limit_content_and_see_more(40, &v, &ChangelogBuilder, Some(("u", 1)));
    assert_eq!("H\n\naaaa\n\n[... See more](u)\n\nf1", r.ok().unwrap());
}

#[test]
fn cut_without_link() {
    let v = groups(&[&["H"], &["aaaa", "bbbb", "cccc"], &["f1", "f2", "f3"]]);
    let r = limit_content_and_see_more(19, &v, &ChangelogBuilder, None);
    assert_eq!("H\n\naaaa\n\nf1", r.ok().unwrap());
    let r = limit_content_and_see_more(20, &v, &ChangelogBuilder, None);
    assert_eq!("H\n\naaaa\n\nbbbb\n\nf1 f2", r.ok().unwrap());
}

#[test]
fn no_room_for_link_is_an_error() {
    let v = groups(&[&["H"], &["aaaa", "bbbb", "cccc"], &["f1", "f2", "f3"]]);
    let r = limit_content_and_see_more(20, &v, &ChangelogBuilder, Some(("http://example.org/changelog", 1)));
    match r {
        Err(DoomError::NotImplementedError { functionality }) => {
            assert_eq!("Handling of Insufficient Space for Link", functionality)
        }
        Ok(s) => panic!("unexpected {}", s),
    }
}

#[test]
fn nothing_fits() {
    let v = groups(&[&["Header"], &["A"], &["B"]]);
    let r = limit_content_and_see_more(3, &v, &ChangelogBuilder, None);
    assert_eq!("", r.ok().unwrap());
}

#[test]
fn link_pads_missing_groups() {
    // only the group count matters to the padding: three groups, link into group 1
    let v = groups(&[&["x"], &["y", "z"], &["w"]]);
    let r = limit_content_and_see_more(12, &v, &ChangelogBuilder, Some(("", 1)));
    // level 1 "x\n\ny\n\nw" is 7 bytes, level 2 is 10, full fits: no link
    assert_eq!("x\n\ny\n\nz\n\nw", r.ok().unwrap());
}

#[test]
fn multibyte_text_is_measured_in_bytes() {
    let v = groups(&[&["将棋"], &["王手", "x"], &["n"]]);
    // "将棋\n\n王手\n\nn" is 17 bytes; with "\n\nx" it is 20.
    let r = limit_content_and_see_more(19, &v, &ChangelogBuilder, None);
    assert_eq!("将棋\n\n王手\n\nn", r.ok().unwrap());
}

#[test]
fn doom_error_message() {
    let e = DoomError::NotImplementedError { functionality: "Pings".to_string() };
    assert_eq!("This functionality 'Pings' is not implemented.", e.message());
}

#[test]
fn larger_limits_keep_more() {
    let v = groups(&[&["H"], &["aaaa", "bbbb", "cccc"], &["f1", "f2", "f3"]]);
    let mut previous = String::new();
    for limit in [0usize, 10, 19, 20, 27, 30, 40, 100] {
        let r = limit_content_and_see_more(limit, &v, &ChangelogBuilder, None).ok().unwrap();
        for part in previous.split("\n\n").flat_map(|p| p.split(' ')).filter(|p| !p.is_empty()) {
            assert!(r.contains(part), "{} lost {} at limit {}", r, part, limit);
        }
        previous = r;
    }
}
