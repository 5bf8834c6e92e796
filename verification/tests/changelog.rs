use kanshi::changelog::{
    changelog_from_text, changelog_reply, format_header, split_changelog, version_sections,
    ChangelogError, ChangelogReply, VersionSection,
};

const SAMPLE: &str = "# Changelog\n\nNotes\nhere.\n\n## [Unreleased] - d\n\n## [0.2.0] - c\n\n- B\n\n## [0.1.0] - a\n\n- A\n\n[Unreleased]: u\n[0.2.0]: v2\n[0.1.0]: v1\n";

fn embed(r: Result<ChangelogReply, kanshi::error::DoomError>) -> String {
    match r {
        Ok(ChangelogReply::Embed(s)) => s,
        _ => panic!("expected an embed"),
    }
}

fn sample_entries() -> Vec<(String, String)> {
    vec![
        ("0.3.0".to_string(), "## [Unreleased] - d".to_string()),
        ("0.2.0".to_string(), "## [0.2.0] - c\n\n- B".to_string()),
        ("0.1.0".to_string(), "## [0.1.0] - a\n\n- A".to_string()),
    ]
}

#[test]
fn splits_header_versions_and_footnotes() {
    let parts = split_changelog(SAMPLE).unwrap();
    assert_eq!("# Changelog\n\nNotes\nhere.\n\n", parts.header);
    assert_eq!(
        "## [Unreleased] - d\n\n## [0.2.0] - c\n\n- B\n\n## [0.1.0] - a\n\n- A\n\n",
        parts.versions
    );
    assert_eq!("[Unreleased]: u\n[0.2.0]: v2\n[0.1.0]: v1\n", parts.footer);
}

#[test]
fn split_errors() {
    assert_eq!(Some(ChangelogError::MissingVersionSection), split_changelog("# Changelog\n").err());
    assert_eq!(Some(ChangelogError::MissingVersionBracket), split_changelog("## [0.1.0\n").err());
    assert_eq!(Some(ChangelogError::MissingFootnote), split_changelog("## [0.1.0]\n- A\n").err());
}

#[test]
fn header_joins_paragraph_lines() {
    assert_eq!("# Changelog\nNotes here.", format_header("# Changelog\n\nNotes\nhere.\n\n").unwrap());
    assert_eq!("a b\n\nc", format_header("  a\r\nb\n\n\nc  ").unwrap());
}

#[test]
fn sections_oldest_first_with_unreleased_next_minor() {
    let parts = split_changelog(SAMPLE).unwrap();
    let sections = version_sections(&parts.versions).unwrap();
    let got: Vec<(String, String)> =
        sections.into_iter().map(|s| (s.version, s.section)).collect();
    let mut expected = sample_entries();
    expected.reverse();
    assert_eq!(expected, got);
}

#[test]
fn lone_unreleased_is_first_minor() {
    let sections = version_sections("## [Unreleased]\n\n- x\n").unwrap();
    assert_eq!(1, sections.len());
    assert_eq!("0.1.0", sections[0].version);
    assert_eq!("## [Unreleased]\n\n- x", sections[0].section);
}

#[test]
fn invalid_version_heading() {
    assert_eq!(Some(ChangelogError::InvalidVersion), version_sections("## [abc]\n").err());
}

#[test]
fn whole_changelog_reply() {
    let body = embed(changelog_reply("# Changelog\nNotes here.", &sample_entries(), "[Unreleased]: u\n[0.2.0]: v2\n[0.1.0]: v1\n", None));
    assert_eq!(
        "# Changelog\nNotes here.\n\n## [Unreleased] - d\n\n## [0.2.0] - c\n\n- B\n\n## [0.1.0] - a\n\n- A\n\n[Unreleased]: u [0.2.0]: v2 [0.1.0]: v1",
        body
    );
}

#[test]
fn requirement_selects_sections_and_footnotes() {
    let body = embed(changelog_reply("H", &sample_entries(), "[Unreleased]: u\n[0.2.0]: v2\n[0.1.0]: v1\n", Some("v0.2")));
    assert_eq!("H\n\n## [0.2.0] - c\n\n- B\n\n[0.2.0]: v2", body);
}

#[test]
fn requirement_without_match() {
    let body = embed(changelog_reply("H", &sample_entries(), "a\nb\nc\n", Some(">5")));
    assert_eq!(":mag_right: Version Requirement didn't match any existing version.", body);
}

#[test]
fn invalid_requirement() {
    match changelog_reply("H", &sample_entries(), "a\nb\nc\n", Some("vfoo")) {
        Ok(ChangelogReply::Content(s)) => assert_eq!(":octagonal_sign: Invalid Version Requirement: foo", s),
        _ => panic!("expected a plain message"),
    }
}

#[test]
fn long_changelog_is_cut_with_link() {
    let long = "x".repeat(3000);
    let entries = vec![("0.2.0".to_string(), long.clone()), ("0.1.0".to_string(), long.clone())];
    let body = embed(changelog_reply("H", &entries, "n2\nn1\n", None));
    assert_eq!(
        format!("H\n\n{}\n\n[... See more](https://github.com/QueenOfDoom/kanshi/blob/master/CHANGELOG.md)\n\nn2", long),
        body
    );
}

fn section(version: &str, text: &str) -> VersionSection {
    VersionSection { version: version.to_string(), section: text.to_string() }
}

#[test]
fn sections_come_out_newest_first() {
    let parts = split_changelog(SAMPLE).unwrap();
    let sections = version_sections(&parts.versions).unwrap();
    assert_eq!(sample_entries(), kanshi::changelog::newest_first(&sections).unwrap());
}

#[test]
fn semver_order_with_prerelease_and_repeats() {
    let sections = vec![
        section("1.0.0", "a"),
        section("1.0.0-alpha", "b"),
        section("0.9.0", "c"),
        section("1.0.0", "d"),
        section("0.10.0", "e"),
    ];
    let expected: Vec<(String, String)> = vec![
        ("1.0.0".to_string(), "d".to_string()),
        ("1.0.0-alpha".to_string(), "b".to_string()),
        ("0.10.0".to_string(), "e".to_string()),
        ("0.9.0".to_string(), "c".to_string()),
    ];
    assert_eq!(expected, kanshi::changelog::newest_first(&sections).unwrap());
}

#[test]
fn ordering_needs_semantic_versions() {
    let sections = vec![section("1.0.0", "a"), section("one", "b")];
    assert_eq!(Some(ChangelogError::InvalidVersion), kanshi::changelog::newest_first(&sections).err());
}

#[test]
fn reply_from_changelog_text() {
    let body = embed_of(changelog_from_text(SAMPLE, None));
    assert_eq!(
        "# Changelog\nNotes here.\n\n## [Unreleased] - d\n\n## [0.2.0] - c\n\n- B\n\n## [0.1.0] - a\n\n- A\n\n[Unreleased]: u [0.2.0]: v2 [0.1.0]: v1",
        body
    );
    let body = embed_of(changelog_from_text(SAMPLE, Some("v0.1")));
    assert_eq!("# Changelog\nNotes here.\n\n## [0.1.0] - a\n\n- A\n\n[0.1.0]: v1", body);
    match changelog_from_text(SAMPLE, Some("bad req")) {
        Ok(ChangelogReply::Content(s)) => assert_eq!(":octagonal_sign: Invalid Version Requirement: bad req", s),
        _ => panic!("expected a plain message"),
    }
}

#[test]
fn changelog_text_errors() {
    assert_eq!(Some(ChangelogError::MissingVersionSection), changelog_from_text("# Changelog\n", None).err());
    assert_eq!(Some(ChangelogError::InvalidVersion), changelog_from_text("## [abc]\n[abc]: x\n", None).err());
    let huge = format!("{}\n## [0.1.0]\n- A\n[0.1.0]: x\n", "h".repeat(5000));
    assert_eq!(Some(ChangelogError::NoRoomForLink), changelog_from_text(&huge, None).err());
}

fn embed_of(r: Result<ChangelogReply, ChangelogError>) -> String {
    match r {
        Ok(ChangelogReply::Embed(s)) => s,
        _ => panic!("expected an embed"),
    }
}
