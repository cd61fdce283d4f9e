//! The data model: raw commit records as the hosting platform reports them,
//! and the normalized entries derived from them.
//!
//! Each executable type has a ghost counterpart (its view) whose fields are
//! `Seq<char>` values; all contracts in this crate are stated over the views.

use vstd::prelude::*;

verus! {

/// Verified account identity attached to a commit by the hosting platform.
#[derive(Debug, Clone, PartialEq, Eq)]
pub struct CommitAuthor {
    pub login: String,
    pub html_url: String,
}

/// Ghost counterpart of [`CommitAuthor`].
pub struct CommitAuthorView {
    pub login: Seq<char>,
    pub html_url: Seq<char>,
}

impl View for CommitAuthor {
    type V = CommitAuthorView;

    open spec fn view(&self) -> CommitAuthorView {
        CommitAuthorView { login: self.login@, html_url: self.html_url@ }
    }
}

impl DeepView for CommitAuthor {
    type V = CommitAuthorView;

    open spec fn deep_view(&self) -> CommitAuthorView {
        self@
    }
}

/// Author name recorded in the commit metadata itself.
#[derive(Debug, Clone, PartialEq, Eq)]
pub struct CommitMetaAuthor {
    pub name: String,
}

/// Ghost counterpart of [`CommitMetaAuthor`].
pub struct CommitMetaAuthorView {
    pub name: Seq<char>,
}

impl View for CommitMetaAuthor {
    type V = CommitMetaAuthorView;

    open spec fn view(&self) -> CommitMetaAuthorView {
        CommitMetaAuthorView { name: self.name@ }
    }
}

impl DeepView for CommitMetaAuthor {
    type V = CommitMetaAuthorView;

    open spec fn deep_view(&self) -> CommitMetaAuthorView {
        self@
    }
}

/// The metadata block of a fetched commit: its message and recorded author.
#[derive(Debug, Clone, PartialEq, Eq)]
pub struct CommitMeta {
    pub url: String,
    pub message: String,
    pub author: CommitMetaAuthor,
}

/// Ghost counterpart of [`CommitMeta`].
pub struct CommitMetaView {
    pub url: Seq<char>,
    pub message: Seq<char>,
    pub author: CommitMetaAuthorView,
}

impl View for CommitMeta {
    type V = CommitMetaView;

    open spec fn view(&self) -> CommitMetaView {
        CommitMetaView { url: self.url@, message: self.message@, author: self.author@ }
    }
}

impl DeepView for CommitMeta {
    type V = CommitMetaView;

    open spec fn deep_view(&self) -> CommitMetaView {
        self@
    }
}

/// One fetched commit: metadata plus the platform account it resolved to, if
/// any.
#[derive(Debug, Clone, PartialEq, Eq)]
pub struct Commit {
    pub url: String,
    pub commit: CommitMeta,
    pub author: Option<CommitAuthor>,
}

/// Ghost counterpart of [`Commit`].
pub struct CommitView {
    pub url: Seq<char>,
    pub commit: CommitMetaView,
    pub author: Option<CommitAuthorView>,
}

impl View for Commit {
    type V = CommitView;

    open spec fn view(&self) -> CommitView {
        CommitView { url: self.url@, commit: self.commit@, author: self.author.deep_view() }
    }
}

impl DeepView for Commit {
    type V = CommitView;

    open spec fn deep_view(&self) -> CommitView {
        self@
    }
}

/// The commit-range answer of the hosting platform: the commits between two
/// references.
#[derive(Debug, Clone, PartialEq, Eq)]
pub struct CompareCommitsResponse {
    pub commits: Vec<Commit>,
}

impl View for CompareCommitsResponse {
    type V = Seq<CommitView>;

    open spec fn view(&self) -> Seq<CommitView> {
        self.commits.deep_view()
    }
}

impl DeepView for CompareCommitsResponse {
    type V = Seq<CommitView>;

    open spec fn deep_view(&self) -> Seq<CommitView> {
        self@
    }
}

/// One member of the organization, as the membership listing reports it.
#[derive(Debug, Clone, PartialEq, Eq)]
pub struct Member {
    pub login: String,
}

impl View for Member {
    type V = Seq<char>;

    open spec fn view(&self) -> Seq<char> {
        self.login@
    }
}

impl DeepView for Member {
    type V = Seq<char>;

    open spec fn deep_view(&self) -> Seq<char> {
        self@
    }
}

/// What the message parser extracts from the first line of a commit message:
/// the cleaned summary and the pull-request number, both present or both
/// absent.
#[derive(Debug, PartialEq, Eq)]
pub struct MsgAndPr {
    pub message: Option<String>,
    pub pr_number: Option<String>,
}

/// Ghost counterpart of [`MsgAndPr`].
pub struct MsgAndPrView {
    pub message: Option<Seq<char>>,
    pub pr_number: Option<Seq<char>>,
}

impl View for MsgAndPr {
    type V = MsgAndPrView;

    open spec fn view(&self) -> MsgAndPrView {
        MsgAndPrView { message: self.message.deep_view(), pr_number: self.pr_number.deep_view() }
    }
}

impl DeepView for MsgAndPr {
    type V = MsgAndPrView;

    open spec fn deep_view(&self) -> MsgAndPrView {
        self@
    }
}

/// A normalized changelog entry derived from one commit: display name,
/// optional profile link, optional cleaned summary and pull-request number.
#[derive(Debug, Clone, PartialEq, Eq)]
pub struct Entry {
    pub author: String,
    pub author_url: Option<String>,
    pub message: Option<String>,
    pub pr_number: Option<String>,
}

impl Entry {
    /// An exact copy of the entry. (The derived `Clone` serves unverified
    /// callers; this copy carries a contract.)
    pub fn duplicate(&self) -> (r: Entry)
        ensures
            r@ == self@,
    {
        Entry {
            author: self.author.clone(),
            author_url: match &self.author_url {
                Some(u) => Some(u.clone()),
                None => None,
            },
            message: match &self.message {
                Some(m) => Some(m.clone()),
                None => None,
            },
            pr_number: match &self.pr_number {
                Some(n) => Some(n.clone()),
                None => None,
            },
        }
    }
}

/// Ghost counterpart of [`Entry`].
pub struct EntryView {
    pub author: Seq<char>,
    pub author_url: Option<Seq<char>>,
    pub message: Option<Seq<char>>,
    pub pr_number: Option<Seq<char>>,
}

impl View for Entry {
    type V = EntryView;

    open spec fn view(&self) -> EntryView {
        EntryView {
            author: self.author@,
            author_url: self.author_url.deep_view(),
            message: self.message.deep_view(),
            pr_number: self.pr_number.deep_view(),
        }
    }
}

impl DeepView for Entry {
    type V = EntryView;

    open spec fn deep_view(&self) -> EntryView {
        self@
    }
}

} // verus!
