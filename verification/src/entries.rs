//! The entry builder and the exclusion filter: one normalized entry per
//! fetched commit, then a pass that drops entries whose author is excluded
//! or an organization member, unless the caller asked for everyone.

use vstd::prelude::*;

use crate::data::{Commit, CommitView, Entry, EntryView};
use crate::parser::{parse_msg_and_pr, spec_parse};
use crate::text::{first_line, first_line_of};

verus! {

/// The entry a commit normalizes to: a verified platform identity is
/// preferred for the display name and profile link, falling back to the
/// name in the commit metadata with no link; summary and pull-request
/// number come from parsing the first line of the message.
pub open spec fn spec_entry_of(c: CommitView) -> EntryView {
    let parsed = spec_parse(first_line(c.commit.message));
    match c.author {
        Some(a) => EntryView {
            author: a.login,
            author_url: Some(a.html_url),
            message: parsed.message,
            pr_number: parsed.pr_number,
        },
        None => EntryView {
            author: c.commit.author.name,
            author_url: None,
            message: parsed.message,
            pr_number: parsed.pr_number,
        },
    }
}

/// Builds the normalized entry for one fetched commit. Total: a message
/// without a pull-request marker yields an entry with neither summary nor
/// number, not an error.
pub fn build_entry(c: &Commit) -> (e: Entry)
    ensures
        e@ == spec_entry_of(c@),
{
    let parsed = parse_msg_and_pr(first_line_of(c.commit.message.as_str()));
    match &c.author {
        Some(a) => Entry {
            author: a.login.clone(),
            author_url: Some(a.html_url.clone()),
            message: parsed.message,
            pr_number: parsed.pr_number,
        },
        None => Entry {
            author: c.commit.author.name.clone(),
            author_url: None,
            message: parsed.message,
            pr_number: parsed.pr_number,
        },
    }
}

/// Whether an entry survives the exclusion filter: everything survives when
/// `include_all` is set; otherwise exactly those entries whose author is
/// named neither in the exclude list nor in the member list.
pub open spec fn spec_keep(
    e: EntryView,
    include_all: bool,
    excludes: Seq<Seq<char>>,
    org_members: Seq<Seq<char>>,
) -> bool {
    include_all || (!excludes.contains(e.author) && !org_members.contains(e.author))
}

/// Looks an author name up in a list of names, by exact, case-sensitive
/// comparison.
fn name_listed(name: &String, list: &Vec<String>) -> (r: bool)
    ensures
        r == list.deep_view().contains(name@),
{
    let mut idx: usize = 0;
    while idx < list.len()
        invariant
            idx <= list.len(),
            forall|j: int| 0 <= j < idx ==> list.deep_view()[j] != name@,
        decreases list.len() - idx,
    {
        if list[idx].eq(name) {
            assert(list.deep_view()[idx as int] == name@);
            return true;
        }
        idx = idx + 1;
    }
    false
}

/// Decides the exclusion policy for one entry. Keeps every entry when
/// `should_include_org_members` is set; otherwise drops an entry exactly
/// when its author is a verbatim match for some excluded name or some
/// organization member.
pub fn keep(
    entry: &Entry,
    should_include_org_members: bool,
    parsed_excludes: &Vec<String>,
    org_members: &Vec<String>,
) -> (r: bool)
    ensures
        r == spec_keep(
            entry@,
            should_include_org_members,
            parsed_excludes.deep_view(),
            org_members.deep_view(),
        ),
{
    if should_include_org_members {
        return true;
    }
    !name_listed(&entry.author, parsed_excludes) && !name_listed(&entry.author, org_members)
}

/// The exclude list a caller applies when the user supplies none: the two
/// spellings under which the dependency-update bot authors commits.
pub fn default_excludes() -> (r: Vec<String>)
    ensures
        r.deep_view() =~= seq!["renovate[bot]"@, "renovate-bot"@],
{
    let mut v: Vec<String> = Vec::new();
    v.push(String::from_str("renovate[bot]"));
    v.push(String::from_str("renovate-bot"));
    v
}

/// Builds the filtered entry list for a fetched commit range: one entry per
/// commit, in commit order, keeping exactly those the exclusion policy
/// admits.
pub fn create_entries(
    commits: Vec<Commit>,
    should_include_org_members: bool,
    parsed_excludes: Vec<String>,
    org_members: Vec<String>,
) -> (r: Vec<Entry>)
    ensures
        r.deep_view() == commits.deep_view().map_values(|c: CommitView| spec_entry_of(c)).filter(
            |e: EntryView|
                spec_keep(
                    e,
                    should_include_org_members,
                    parsed_excludes.deep_view(),
                    org_members.deep_view(),
                ),
        ),
{
    let ghost to_entry = |c: CommitView| spec_entry_of(c);
    let ghost pred = |e: EntryView|
        spec_keep(
            e,
            should_include_org_members,
            parsed_excludes.deep_view(),
            org_members.deep_view(),
        );
    let mut r: Vec<Entry> = Vec::new();
    let mut idx: usize = 0;
    proof {
        assert(commits.deep_view().take(0) =~= Seq::<CommitView>::empty());
        assert(r.deep_view() =~= Seq::<CommitView>::empty().map_values(to_entry).filter(pred));
    }
    while idx < commits.len()
        invariant
            idx <= commits.len(),
            r.deep_view() == commits.deep_view().take(idx as int).map_values(to_entry).filter(
                pred,
            ),
            to_entry == (|c: CommitView| spec_entry_of(c)),
            pred == (|e: EntryView|
                spec_keep(
                    e,
                    should_include_org_members,
                    parsed_excludes.deep_view(),
                    org_members.deep_view(),
                )),
        decreases commits.len() - idx,
    {
        let e = build_entry(&commits[idx]);
        let ghost prefix = commits.deep_view().take(idx as int);
        proof {
            assert(commits.deep_view()[idx as int] == commits[idx as int]@);
            assert(commits.deep_view().take(idx + 1) =~= prefix.push(commits[idx as int]@));
            prefix.lemma_push_map_commute(to_entry, commits[idx as int]@);
            prefix.map_values(to_entry).lemma_filter_push(e@, pred);
        }
        if keep(&e, should_include_org_members, &parsed_excludes, &org_members) {
            let ghost old_r = r.deep_view();
            r.push(e);
            proof {
                assert(r.deep_view() =~= old_r.push(
                    commits.deep_view().take(idx + 1).map_values(to_entry).last(),
                ));
            }
        }
        idx = idx + 1;
    }
    proof {
        assert(commits.deep_view().take(commits.len() as int) =~= commits.deep_view());
    }
    r
}

} // verus!
