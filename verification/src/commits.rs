use vstd::prelude::*;

verus! {

/// A symbolic reference (branch, remote-tracking branch, tag, or HEAD)
/// shown on the commit it points at.
#[derive(Debug, PartialEq, Eq)]
pub struct RefInfo {
    pub name: String,
    pub kind: String,
}

/// One commit of the loaded window: its id, the ids of its parents (the
/// first parent is the mainline parent), author identity, timestamp,
/// message, and the references pointing at it.
#[derive(Debug, PartialEq, Eq)]
pub struct CommitInfo {
    pub oid: String,
    pub parents: Vec<String>,
    pub author: String,
    pub email: String,
    pub date: i64,
    pub message: String,
    pub refs: Vec<RefInfo>,
}

/// One changed path of a diff between two commit snapshots.
#[derive(Debug, PartialEq, Eq)]
pub struct FileChange {
    pub path: String,
    pub status: String,
}

/// The mathematical value of a `RefInfo`.
pub ghost struct RefView {
    pub name: Seq<char>,
    pub kind: Seq<char>,
}

/// The mathematical value of a `CommitInfo`.
pub ghost struct CommitView {
    pub oid: Seq<char>,
    pub parents: Seq<Seq<char>>,
    pub author: Seq<char>,
    pub email: Seq<char>,
    pub date: int,
    pub message: Seq<char>,
    pub refs: Seq<RefView>,
}

/// The mathematical value of a `FileChange`.
pub ghost struct FileChangeView {
    pub path: Seq<char>,
    pub status: Seq<char>,
}

impl View for RefInfo {
    type V = RefView;

    open spec fn view(&self) -> RefView {
        RefView { name: self.name@, kind: self.kind@ }
    }
}

impl DeepView for RefInfo {
    type V = RefView;

    open spec fn deep_view(&self) -> RefView {
        self.view()
    }
}

impl View for CommitInfo {
    type V = CommitView;

    open spec fn view(&self) -> CommitView {
        CommitView {
            oid: self.oid@,
            parents: self.parents.deep_view(),
            author: self.author@,
            email: self.email@,
            date: self.date as int,
            message: self.message@,
            refs: self.refs.deep_view(),
        }
    }
}

impl DeepView for CommitInfo {
    type V = CommitView;

    open spec fn deep_view(&self) -> CommitView {
        self.view()
    }
}

impl View for FileChange {
    type V = FileChangeView;

    open spec fn view(&self) -> FileChangeView {
        FileChangeView { path: self.path@, status: self.status@ }
    }
}

impl DeepView for FileChange {
    type V = FileChangeView;

    open spec fn deep_view(&self) -> FileChangeView {
        self.view()
    }
}

impl Clone for RefInfo {
    fn clone(&self) -> (r: Self)
        ensures
            r@ == self@,
    {
        RefInfo { name: self.name.clone(), kind: self.kind.clone() }
    }
}

impl Clone for FileChange {
    fn clone(&self) -> (r: Self)
        ensures
            r@ == self@,
    {
        FileChange { path: self.path.clone(), status: self.status.clone() }
    }
}

/// A commit is interesting — and is retained by the simplifier — exactly
/// when a reference points at it, or it is a merge, or it is a root.
pub open spec fn interesting(c: CommitView) -> bool {
    c.refs.len() > 0 || c.parents.len() > 1 || c.parents.len() == 0
}

/// Runtime check of `interesting`.
pub fn is_interesting(c: &CommitInfo) -> (r: bool)
    ensures
        r == interesting(c@),
{
    c.refs.len() > 0 || c.parents.len() > 1 || c.parents.len() == 0
}

pub(crate) fn clone_strings(v: &Vec<String>) -> (r: Vec<String>)
    ensures
        r.deep_view() == v.deep_view(),
{
    let mut out: Vec<String> = Vec::new();
    let mut i: usize = 0;
    while i < v.len()
        invariant
            0 <= i <= v.len(),
            out.deep_view() =~= v.deep_view().take(i as int),
        decreases v.len() - i,
    {
        let ghost prev = out.deep_view();
        out.push(v[i].clone());
        proof {
            assert(out.deep_view() =~= prev.push(v.deep_view()[i as int]));
            assert(out.deep_view() =~= v.deep_view().take(i + 1));
        }
        i = i + 1;
    }
    proof {
        assert(out.deep_view() =~= v.deep_view());
    }
    out
}

pub(crate) fn clone_refs(v: &Vec<RefInfo>) -> (r: Vec<RefInfo>)
    ensures
        r.deep_view() == v.deep_view(),
{
    let mut out: Vec<RefInfo> = Vec::new();
    let mut i: usize = 0;
    while i < v.len()
        invariant
            0 <= i <= v.len(),
            out.deep_view() =~= v.deep_view().take(i as int),
        decreases v.len() - i,
    {
        let ghost prev = out.deep_view();
        out.push(v[i].clone());
        proof {
            assert(out.deep_view() =~= prev.push(v.deep_view()[i as int]));
            assert(out.deep_view() =~= v.deep_view().take(i + 1));
        }
        i = i + 1;
    }
    proof {
        assert(out.deep_view() =~= v.deep_view());
    }
    out
}

impl Clone for CommitInfo {
    fn clone(&self) -> (r: Self)
        ensures
            r@ == self@,
    {
        let r = CommitInfo {
            oid: self.oid.clone(),
            parents: clone_strings(&self.parents),
            author: self.author.clone(),
            email: self.email.clone(),
            date: self.date,
            message: self.message.clone(),
            refs: clone_refs(&self.refs),
        };
        proof {
            assert(r@ == self@);
        }
        r
    }
}

/// The first (mainline) parent of a commit, the base a commit's changes
/// are diffed against; a root commit has none and is diffed against the
/// empty tree.
pub fn first_parent(parents: &Vec<String>) -> (r: Option<String>)
    ensures
        parents@.len() > 0 ==> (r matches Some(p) && p@ == parents.deep_view()[0]),
        parents@.len() == 0 ==> r is None,
{
    if parents.len() > 0 {
        Some(parents[0].clone())
    } else {
        None
    }
}

} // verus!
