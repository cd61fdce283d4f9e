//! Tests for the commit-to-markdown pipeline: parsing, entry building,
//! filtering, grouping and rendering.

use thanks_contributors::{
    create_entries, create_output, get_pr_link, group_by_author, parse_msg_and_pr, Commit,
    CommitAuthor, CommitMeta, CommitMetaAuthor, Entry, Group, MsgAndPr,
};

fn entry_a_one() -> Entry {
    Entry {
        author: "author-a".to_string(),
        author_url: Some("author-a-url".to_string()),
        message: Some("fix(scope): Message".to_string()),
        pr_number: Some("1".to_string()),
    }
}

fn entry_a_two() -> Entry {
    Entry {
        author: "author-a".to_string(),
        author_url: Some("author-a-url".to_string()),
        message: Some("fix(scope): Message".to_string()),
        pr_number: Some("2".to_string()),
    }
}

fn entry_b() -> Entry {
    Entry {
        author: "author-b".to_string(),
        author_url: Some("author-b-url".to_string()),
        message: Some("fix(scope): Message".to_string()),
        pr_number: Some("3".to_string()),
    }
}

fn entry_c() -> Entry {
    Entry {
        author: "author-c".to_string(),
        author_url: None,
        message: Some("fix(scope): Message".to_string()),
        pr_number: Some("4".to_string()),
    }
}

#[test]
fn group_by_author_correct() {
    let input: Vec<Entry> = vec![entry_a_one(), entry_a_two(), entry_b()];

    let assert = vec![
        Group {
            author: "author-a".to_string(),
            entries: vec![entry_a_one(), entry_a_two()],
        },
        Group {
            author: "author-b".to_string(),
            entries: vec![entry_b()],
        },
    ];

    assert_eq!(group_by_author(input), assert)
}

#[test]
fn group_by_author_empty_input() {
    assert_eq!(group_by_author(vec![]), Vec::<Group>::new())
}

#[test]
fn pr_link_no_number() {
    assert_eq!(
        get_pr_link(
            &Entry {
                author: "foo".to_string(),
                author_url: None,
                message: None,
                pr_number: None,
            },
            "owner",
            "repo"
        ),
        "".to_string()
    )
}

#[test]
fn pr_link_correct() {
    assert_eq!(
        get_pr_link(
            &Entry {
                author: "foo".to_string(),
                author_url: None,
                message: None,
                pr_number: Some("123".to_string()),
            },
            "owner",
            "repo"
        ),
        "[PR #123](https://github.com/owner/repo/pull/123)".to_string()
    )
}

#[test]
fn parse_msg_and_pr_no_result() {
    assert_eq!(
        parse_msg_and_pr("(((test)))"),
        MsgAndPr {
            message: None,
            pr_number: None
        }
    )
}

#[test]
fn parse_msg_and_pr_correct() {
    assert_eq!(
        parse_msg_and_pr("fix(scope): Message (#123)"),
        MsgAndPr {
            message: Some("fix(scope): Message".to_string()),
            pr_number: Some("123".to_string())
        }
    )
}

#[test]
fn parse_msg_and_pr_correct_backport() {
    assert_eq!(
        parse_msg_and_pr("fix(scope): Message (#123) (#456)"),
        MsgAndPr {
            message: Some("fix(scope): Message (#123)".to_string()),
            pr_number: Some("456".to_string())
        }
    )
}

#[test]
fn parse_msg_and_pr_only_msg() {
    assert_eq!(
        parse_msg_and_pr("fix(scope): Message"),
        MsgAndPr {
            message: None,
            pr_number: None
        }
    )
}

fn get_org_members() -> Vec<String> {
    vec!["author-d".to_string()]
}

fn get_excludes() -> Vec<String> {
    vec!["author-e".to_string()]
}

fn commits_data() -> Vec<Commit> {
    vec![
        Commit {
            url: "url-1".to_string(),
            commit: CommitMeta {
                url: "url-1".to_string(),
                message: "fix(scope): Message (#1)".to_string(),
                author: CommitMetaAuthor {
                    name: "author-a".to_string(),
                },
            },
            author: Some(CommitAuthor {
                login: "author-a".to_string(),
                html_url: "author-a-url".to_string(),
            }),
        },
        Commit {
            url: "url-2".to_string(),
            commit: CommitMeta {
                url: "url-2".to_string(),
                message: "fix(scope): Message (#2)".to_string(),
                author: CommitMetaAuthor {
                    name: "author-a".to_string(),
                },
            },
            author: Some(CommitAuthor {
                login: "author-a".to_string(),
                html_url: "author-a-url".to_string(),
            }),
        },
        Commit {
            url: "url-3".to_string(),
            commit: CommitMeta {
                url: "url-3".to_string(),
                message: "fix(scope): Message (#3)".to_string(),
                author: CommitMetaAuthor {
                    name: "author-b".to_string(),
                },
            },
            author: Some(CommitAuthor {
                login: "author-b".to_string(),
                html_url: "author-b-url".to_string(),
            }),
        },
        Commit {
            url: "url-4".to_string(),
            commit: CommitMeta {
                url: "url-4".to_string(),
                message: "fix(scope): Message (#4)".to_string(),
                author: CommitMetaAuthor {
                    name: "author-c".to_string(),
                },
            },
            author: None,
        },
        Commit {
            url: "url-5".to_string(),
            commit: CommitMeta {
                url: "url-5".to_string(),
                message: "fix(scope): Message (#5)".to_string(),
                author: CommitMetaAuthor {
                    name: "author-d".to_string(),
                },
            },
            author: None,
        },
        Commit {
            url: "url-6".to_string(),
            commit: CommitMeta {
                url: "url-6".to_string(),
                message: "fix(scope): Message (#6)".to_string(),
                author: CommitMetaAuthor {
                    name: "author-e".to_string(),
                },
            },
            author: None,
        },
    ]
}

#[test]
fn create_entries_defaults() {
    assert_eq!(
        create_entries(commits_data(), false, vec![], get_org_members()),
        vec![
            Entry {
                author: "author-a".to_string(),
                author_url: Some("author-a-url".to_string()),
                message: Some("fix(scope): Message".to_string()),
                pr_number: Some("1".to_string())
            },
            Entry {
                author: "author-a".to_string(),
                author_url: Some("author-a-url".to_string()),
                message: Some("fix(scope): Message".to_string()),
                pr_number: Some("2".to_string())
            },
            Entry {
                author: "author-b".to_string(),
                author_url: Some("author-b-url".to_string()),
                message: Some("fix(scope): Message".to_string()),
                pr_number: Some("3".to_string())
            },
            Entry {
                author: "author-c".to_string(),
                author_url: None,
                message: Some("fix(scope): Message".to_string()),
                pr_number: Some("4".to_string())
            },
            Entry {
                author: "author-e".to_string(),
                author_url: None,
                message: Some("fix(scope): Message".to_string()),
                pr_number: Some("6".to_string())
            }
        ]
    )
}

#[test]
fn create_entries_include_org_members() {
    assert_eq!(
        create_entries(commits_data(), true, vec![], get_org_members()),
        vec![
            Entry {
                author: "author-a".to_string(),
                author_url: Some("author-a-url".to_string()),
                message: Some("fix(scope): Message".to_string()),
                pr_number: Some("1".to_string())
            },
            Entry {
                author: "author-a".to_string(),
                author_url: Some("author-a-url".to_string()),
                message: Some("fix(scope): Message".to_string()),
                pr_number: Some("2".to_string())
            },
            Entry {
                author: "author-b".to_string(),
                author_url: Some("author-b-url".to_string()),
                message: Some("fix(scope): Message".to_string()),
                pr_number: Some("3".to_string())
            },
            Entry {
                author: "author-c".to_string(),
                author_url: None,
                message: Some("fix(scope): Message".to_string()),
                pr_number: Some("4".to_string())
            },
            Entry {
                author: "author-d".to_string(),
                author_url: None,
                message: Some("fix(scope): Message".to_string()),
                pr_number: Some("5".to_string())
            },
            Entry {
                author: "author-e".to_string(),
                author_url: None,
                message: Some("fix(scope): Message".to_string()),
                pr_number: Some("6".to_string())
            }
        ]
    )
}

#[test]
fn create_entries_defaults_with_excludes() {
    assert_eq!(
        create_entries(commits_data(), false, get_excludes(), get_org_members()),
        vec![
            Entry {
                author: "author-a".to_string(),
                author_url: Some("author-a-url".to_string()),
                message: Some("fix(scope): Message".to_string()),
                pr_number: Some("1".to_string())
            },
            Entry {
                author: "author-a".to_string(),
                author_url: Some("author-a-url".to_string()),
                message: Some("fix(scope): Message".to_string()),
                pr_number: Some("2".to_string())
            },
            Entry {
                author: "author-b".to_string(),
                author_url: Some("author-b-url".to_string()),
                message: Some("fix(scope): Message".to_string()),
                pr_number: Some("3".to_string())
            },
            Entry {
                author: "author-c".to_string(),
                author_url: None,
                message: Some("fix(scope): Message".to_string()),
                pr_number: Some("4".to_string())
            }
        ]
    )
}

#[test]
fn create_output_single_entry() {
    let groups = vec![Group {
        author: "author-b".to_string(),
        entries: vec![entry_b()],
    }];

    assert_eq!(create_output(groups, "owner", "repo"), "- [author-b](author-b-url): fix(scope): Message [PR #3](https://github.com/owner/repo/pull/3)\n".to_string())
}

#[test]
fn create_output_multiple_entries() {
    let groups = vec![Group {
        author: "author-a".to_string(),
        entries: vec![entry_a_one(), entry_a_two()],
    }];

    assert_eq!(create_output(groups, "owner", "repo"), "- [author-a](author-a-url)\n  - fix(scope): Message [PR #1](https://github.com/owner/repo/pull/1)\n  - fix(scope): Message [PR #2](https://github.com/owner/repo/pull/2)\n".to_string())
}

#[test]
fn create_output_no_author_url() {
    let groups = vec![Group {
        author: "author-c".to_string(),
        entries: vec![entry_c()],
    }];

    assert_eq!(
        create_output(groups, "owner", "repo"),
        "- author-c: fix(scope): Message [PR #4](https://github.com/owner/repo/pull/4)\n"
            .to_string()
    )
}

#[test]
fn create_output_no_author_url_multiple_entries() {
    let groups = vec![Group {
        author: "author-c".to_string(),
        entries: vec![entry_c(), entry_c()],
    }];

    assert_eq!(create_output(groups, "owner", "repo"), "- author-c\n  - fix(scope): Message [PR #4](https://github.com/owner/repo/pull/4)\n  - fix(scope): Message [PR #4](https://github.com/owner/repo/pull/4)\n".to_string())
}
