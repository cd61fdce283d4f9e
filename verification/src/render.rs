//! The renderer: turns the grouped mapping into the final markdown
//! document. Authors come out in ascending alphabetical order; an author
//! with a single entry gets one line, an author with several gets a heading
//! line and one indented sub-line per entry that has a summary.

use vstd::prelude::*;
use vstd::string::StringExecFns;

use crate::data::{Entry, EntryView};
use crate::grouping::{grouped_wf, Group, GroupView};

verus! {

/// The markdown link for a pull-request number, or the empty text when
/// there is none.
pub open spec fn spec_pr_link(pr: Option<Seq<char>>, owner: Seq<char>, repo: Seq<char>) -> Seq<
    char,
> {
    match pr {
        Some(n) => "[PR #"@ + n + "](https://github.com/"@ + owner + "/"@ + repo + "/pull/"@ + n
            + ")"@,
        None => Seq::<char>::empty(),
    }
}

/// The author heading: a markdown link to the profile when there is one,
/// the bare name otherwise.
pub open spec fn spec_heading(author: Seq<char>, url: Option<Seq<char>>) -> Seq<char> {
    match url {
        Some(u) => "["@ + author + "]("@ + u + ")"@,
        None => author,
    }
}

/// A line body followed by its pull-request link: one separating space when
/// the link is there, no trailing space when it is not.
pub open spec fn spec_with_link(
    body: Seq<char>,
    pr: Option<Seq<char>>,
    owner: Seq<char>,
    repo: Seq<char>,
) -> Seq<char> {
    match pr {
        Some(_) => body + " "@ + spec_pr_link(pr, owner, repo),
        None => body,
    }
}

/// The indented sub-line one entry contributes under a multi-entry author:
/// nothing at all when the entry has no summary.
pub open spec fn spec_sub_line(e: EntryView, owner: Seq<char>, repo: Seq<char>) -> Seq<char> {
    match e.message {
        Some(m) => "  - "@ + spec_with_link(m, e.pr_number, owner, repo) + "\n"@,
        None => Seq::<char>::empty(),
    }
}

/// The block one author's group renders to. A single-entry author gets one
/// line, with a fixed notice when the entry has no summary; a multi-entry
/// author gets a heading line plus the entries' sub-lines.
pub open spec fn spec_group_block(g: GroupView, owner: Seq<char>, repo: Seq<char>) -> Seq<char>
    recommends
        g.entries.len() > 0,
{
    let heading = spec_heading(g.author, g.entries[0].author_url);
    if g.entries.len() > 1 {
        "- "@ + heading + "\n"@ + g.entries.map_values(
            |e: EntryView| spec_sub_line(e, owner, repo),
        ).flatten()
    } else {
        let e = g.entries[0];
        let body = match e.message {
            Some(m) => m,
            None => "No message could be generated"@,
        };
        "- "@ + heading + ": "@ + spec_with_link(body, e.pr_number, owner, repo) + "\n"@
    }
}

/// The whole document: the groups' blocks, concatenated in order.
pub open spec fn spec_render(groups: Seq<GroupView>, owner: Seq<char>, repo: Seq<char>) -> Seq<
    char,
> {
    groups.map_values(|g: GroupView| spec_group_block(g, owner, repo)).flatten()
}

/// Renders the markdown link for an entry's pull-request number, or the
/// empty string when the entry has none.
pub fn get_pr_link(entry: &Entry, owner: &str, repo: &str) -> (r: String)
    ensures
        r@ == spec_pr_link(entry.pr_number.deep_view(), owner@, repo@),
{
    match &entry.pr_number {
        None => String::new(),
        Some(n) => {
            let mut s = String::from_str("[PR #");
            s.append(n.as_str());
            s.append("](https://github.com/");
            s.append(owner);
            s.append("/");
            s.append(repo);
            s.append("/pull/");
            s.append(n.as_str());
            s.append(")");
            proof {
                assert(s@ =~= spec_pr_link(entry.pr_number.deep_view(), owner@, repo@));
            }
            s
        },
    }
}

/// Renders the heading for one group.
fn render_heading(g: &Group) -> (r: String)
    requires
        g@.entries.len() > 0,
    ensures
        r@ == spec_heading(g@.author, g@.entries[0].author_url),
{
    proof {
        assert(g@.entries[0] == g.entries@[0]@);
    }
    let e0 = &g.entries[0];
    match &e0.author_url {
        Some(url) => {
            let mut h = String::from_str("[");
            h.append(g.author.as_str());
            h.append("](");
            h.append(url.as_str());
            h.append(")");
            proof {
                assert(h@ =~= spec_heading(g@.author, g@.entries[0].author_url));
            }
            h
        },
        None => g.author.clone(),
    }
}

/// Appends `spec_with_link(body-of-entry, ...)`'s link part: one space and
/// the pull-request link when the entry has a number, nothing otherwise.
fn append_link(output: &mut String, entry: &Entry, owner: &str, repo: &str)
    ensures
        final(output)@ == old(output)@ + match entry.pr_number.deep_view() {
            Some(_) => " "@ + spec_pr_link(entry.pr_number.deep_view(), owner@, repo@),
            None => Seq::<char>::empty(),
        },
{
    match &entry.pr_number {
        Some(_) => {
            output.append(" ");
            let link = get_pr_link(entry, owner, repo);
            output.append(link.as_str());
        },
        None => {
            proof {
                assert(old(output)@ + Seq::<char>::empty() =~= old(output)@);
            }
        },
    }
}

/// Renders the grouped mapping as the final markdown document, group blocks
/// concatenated in key order. Expects the mapping's representation
/// invariant: ascending author keys, no empty group.
pub fn create_output(groups: Vec<Group>, owner: &str, repo: &str) -> (r: String)
    requires
        grouped_wf(groups.deep_view()),
    ensures
        r@ == spec_render(groups.deep_view(), owner@, repo@),
{
    let ghost gs = groups.deep_view();
    let ghost block = |g: GroupView| spec_group_block(g, owner@, repo@);
    let mut output = String::new();
    proof {
        assert(gs.take(0) =~= Seq::<GroupView>::empty());
        assert(gs.take(0).map_values(block) =~= Seq::<Seq<char>>::empty());
        assert(output@ =~= gs.take(0).map_values(block).flatten());
    }
    let mut gi: usize = 0;
    while gi < groups.len()
        invariant
            gi <= groups.len(),
            gs == groups.deep_view(),
            grouped_wf(gs),
            output@ == gs.take(gi as int).map_values(block).flatten(),
            block == (|g: GroupView| spec_group_block(g, owner@, repo@)),
        decreases groups.len() - gi,
    {
        let g = &groups[gi];
        proof {
            assert(gs[gi as int] == groups@[gi as int]@);
            assert(gs[gi as int].entries.len() > 0);
        }
        let ghost output0 = output@;
        let heading = render_heading(g);
        if g.entries.len() > 1 {
            output.append("- ");
            output.append(heading.as_str());
            output.append("\n");
            let ghost sub_line = |e: EntryView| spec_sub_line(e, owner@, repo@);
            let ghost head_part = output@;
            proof {
                assert(g@.entries.take(0) =~= Seq::<EntryView>::empty());
                assert(g@.entries.take(0).map_values(sub_line) =~= Seq::<Seq<char>>::empty());
                assert(output@ =~= head_part + g@.entries.take(0).map_values(sub_line).flatten());
            }
            let mut ei: usize = 0;
            while ei < g.entries.len()
                invariant
                    ei <= g.entries.len(),
                    output@ == head_part + g@.entries.take(ei as int).map_values(sub_line).flatten(),
                    sub_line == (|e: EntryView| spec_sub_line(e, owner@, repo@)),
                decreases g.entries.len() - ei,
            {
                let e = &g.entries[ei];
                proof {
                    assert(g@.entries[ei as int] == g.entries@[ei as int]@);
                    assert(g@.entries.take(ei + 1) =~= g@.entries.take(ei as int).push(
                        g@.entries[ei as int],
                    ));
                    g@.entries.take(ei as int).lemma_push_map_commute(sub_line, g@.entries[ei as int]);
                    g@.entries.take(ei as int).map_values(sub_line).lemma_flatten_push(
                        sub_line(g@.entries[ei as int]),
                    );
                }
                match &e.message {
                    Some(m) => {
                        output.append("  - ");
                        output.append(m.as_str());
                        append_link(&mut output, e, owner, repo);
                        output.append("\n");
                        proof {
                            assert(output@ =~= head_part + g@.entries.take(ei + 1).map_values(
                                sub_line,
                            ).flatten());
                        }
                    },
                    None => {
                        proof {
                            assert(output@ =~= head_part + g@.entries.take(ei + 1).map_values(
                                sub_line,
                            ).flatten());
                        }
                    },
                }
                ei = ei + 1;
            }
            proof {
                assert(g@.entries.take(g@.entries.len() as int) =~= g@.entries);
                assert(output@ =~= output0 + block(gs[gi as int]));
            }
        } else {
            proof {
                assert(g@.entries[0] == g.entries@[0]@);
            }
            let e0 = &g.entries[0];
            output.append("- ");
            output.append(heading.as_str());
            output.append(": ");
            match &e0.message {
                Some(m) => output.append(m.as_str()),
                None => output.append("No message could be generated"),
            }
            append_link(&mut output, e0, owner, repo);
            output.append("\n");
            proof {
                assert(output@ =~= output0 + block(gs[gi as int]));
            }
        }
        proof {
            assert(gs.take(gi + 1) =~= gs.take(gi as int).push(gs[gi as int]));
            gs.take(gi as int).lemma_push_map_commute(block, gs[gi as int]);
            gs.take(gi as int).map_values(block).lemma_flatten_push(block(gs[gi as int]));
            assert(output@ =~= gs.take(gi + 1).map_values(block).flatten());
        }
        gi = gi + 1;
    }
    proof {
        assert(gs.take(gs.len() as int) =~= gs);
    }
    output
}

} // verus!

