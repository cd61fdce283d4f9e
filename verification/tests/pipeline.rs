//! Tests beyond the per-function ones: parser edge cases, the exclusion
//! policy, the defaults, and the whole pipeline run end to end.

use thanks_contributors::{
    build_entry, create_entries, create_output, default_excludes, group_by_author, keep, Commit,
    CommitAuthor, CommitMeta, CommitMetaAuthor, Entry, MsgAndPr,
};

#[test]
fn parse_marker_not_at_line_end() {
    assert_eq!(
        parse("fix (#12) done"),
        MsgAndPr {
            message: Some("fix".to_string()),
            pr_number: Some("12".to_string())
        }
    )
}

fn parse(input: &str) -> MsgAndPr {
    thanks_contributors::parse_msg_and_pr(input)
}

#[test]
fn parse_marker_at_line_start() {
    assert_eq!(
        parse("(#123) message"),
        MsgAndPr {
            message: Some("".to_string()),
            pr_number: Some("123".to_string())
        }
    )
}

#[test]
fn parse_empty_line() {
    assert_eq!(
        parse(""),
        MsgAndPr {
            message: None,
            pr_number: None
        }
    )
}

#[test]
fn parse_empty_marker_never_matches() {
    assert_eq!(
        parse("fix (#)"),
        MsgAndPr {
            message: None,
            pr_number: None
        }
    )
}

#[test]
fn parse_trims_tab_before_marker() {
    assert_eq!(
        parse("fix\t(#5)"),
        MsgAndPr {
            message: Some("fix".to_string()),
            pr_number: Some("5".to_string())
        }
    )
}

#[test]
fn parse_summary_of_single_marker_line_parses_to_nothing() {
    let first = parse("fix: Message (#12)");
    let summary = first.message.expect("a marker was present");
    assert_eq!(
        parse(&summary),
        MsgAndPr {
            message: None,
            pr_number: None
        }
    )
}

#[test]
fn build_entry_prefers_platform_identity() {
    let commit = Commit {
        url: "url-1".to_string(),
        commit: CommitMeta {
            url: "url-1".to_string(),
            message: "feat: Thing (#7)\n\nLong body".to_string(),
            author: CommitMetaAuthor {
                name: "Meta Name".to_string(),
            },
        },
        author: Some(CommitAuthor {
            login: "platform-login".to_string(),
            html_url: "platform-url".to_string(),
        }),
    };
    assert_eq!(
        build_entry(&commit),
        Entry {
            author: "platform-login".to_string(),
            author_url: Some("platform-url".to_string()),
            message: Some("feat: Thing".to_string()),
            pr_number: Some("7".to_string()),
        }
    )
}

#[test]
fn build_entry_falls_back_to_metadata_name() {
    let commit = Commit {
        url: "url-1".to_string(),
        commit: CommitMeta {
            url: "url-1".to_string(),
            message: "feat: Thing (#7)\r\nbody".to_string(),
            author: CommitMetaAuthor {
                name: "Meta Name".to_string(),
            },
        },
        author: None,
    };
    assert_eq!(
        build_entry(&commit),
        Entry {
            author: "Meta Name".to_string(),
            author_url: None,
            message: Some("feat: Thing".to_string()),
            pr_number: Some("7".to_string()),
        }
    )
}

fn plain_entry(author: &str) -> Entry {
    Entry {
        author: author.to_string(),
        author_url: None,
        message: None,
        pr_number: None,
    }
}

#[test]
fn keep_include_all_keeps_everyone() {
    let excludes = vec!["author-x".to_string()];
    let members = vec!["author-x".to_string()];
    assert!(keep(&plain_entry("author-x"), true, &excludes, &members));
}

#[test]
fn keep_drops_excluded_author() {
    let excludes = vec!["author-x".to_string()];
    let members = vec![];
    assert!(!keep(&plain_entry("author-x"), false, &excludes, &members));
}

#[test]
fn keep_drops_org_member() {
    let excludes = vec![];
    let members = vec!["author-x".to_string()];
    assert!(!keep(&plain_entry("author-x"), false, &excludes, &members));
}

#[test]
fn keep_is_case_sensitive_and_exact() {
    let excludes = vec!["Author-X".to_string(), "author".to_string()];
    let members = vec![];
    assert!(keep(&plain_entry("author-x"), false, &excludes, &members));
}

#[test]
fn default_excludes_name_the_bot_spellings() {
    assert_eq!(
        default_excludes(),
        vec!["renovate[bot]".to_string(), "renovate-bot".to_string()]
    );
}

#[test]
fn create_output_single_entry_without_message() {
    let groups = group_by_author(vec![plain_entry("author-q")]);
    assert_eq!(
        create_output(groups, "owner", "repo"),
        "- author-q: No message could be generated\n".to_string()
    );
}

#[test]
fn create_output_multi_entry_skips_messageless() {
    let with_message = Entry {
        author: "author-q".to_string(),
        author_url: None,
        message: Some("fix: Thing".to_string()),
        pr_number: Some("9".to_string()),
    };
    let groups = group_by_author(vec![plain_entry("author-q"), with_message]);
    assert_eq!(
        create_output(groups, "owner", "repo"),
        "- author-q\n  - fix: Thing [PR #9](https://github.com/owner/repo/pull/9)\n".to_string()
    );
}

fn raw_commit(message: &str, meta_name: &str, platform: Option<(&str, &str)>) -> Commit {
    Commit {
        url: "url".to_string(),
        commit: CommitMeta {
            url: "url".to_string(),
            message: message.to_string(),
            author: CommitMetaAuthor {
                name: meta_name.to_string(),
            },
        },
        author: platform.map(|(login, html_url)| CommitAuthor {
            login: login.to_string(),
            html_url: html_url.to_string(),
        }),
    }
}

#[test]
fn full_pipeline_renders_grouped_report() {
    let commits = vec![
        raw_commit(
            "feat: One (#1)",
            "author-a",
            Some(("author-a", "author-a-url")),
        ),
        raw_commit(
            "feat: Two (#2)",
            "author-a",
            Some(("author-a", "author-a-url")),
        ),
        raw_commit(
            "feat: Three (#3)",
            "author-b",
            Some(("author-b", "author-b-url")),
        ),
        raw_commit("feat: Four (#4)", "author-c", None),
        raw_commit("feat: Five (#5)", "author-d", None),
        raw_commit("feat: Six (#6)", "author-e", None),
    ];
    let excludes = vec!["author-e".to_string()];
    let members = vec!["author-d".to_string()];

    let entries = create_entries(commits, false, excludes, members);
    let authors: Vec<&str> = entries.iter().map(|e| e.author.as_str()).collect();
    assert_eq!(
        authors,
        vec!["author-a", "author-a", "author-b", "author-c"]
    );

    let groups = group_by_author(entries);
    let output = create_output(groups, "owner", "repo");
    assert_eq!(
        output,
        "- [author-a](author-a-url)\n  - feat: One [PR #1](https://github.com/owner/repo/pull/1)\n  - feat: Two [PR #2](https://github.com/owner/repo/pull/2)\n- [author-b](author-b-url): feat: Three [PR #3](https://github.com/owner/repo/pull/3)\n- author-c: feat: Four [PR #4](https://github.com/owner/repo/pull/4)\n"
    );
}
