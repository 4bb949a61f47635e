use vstd::prelude::*;
use crate::commits::{CommitInfo, CommitView, RefInfo, RefView, clone_strings};

verus! {

/// One raw reference record, as the repository access layer reports it:
/// the full name and display shorthand (absent for malformed refs), the
/// commit id it resolves to (absent when the reference does not point at
/// a direct commit), and its classification flags.
pub struct RefEntry {
    pub name: Option<String>,
    pub shorthand: Option<String>,
    pub target: Option<String>,
    pub is_remote: bool,
    pub is_tag: bool,
    pub is_branch: bool,
}

/// The mathematical value of a `RefEntry`.
pub ghost struct RefEntryView {
    pub name: Option<Seq<char>>,
    pub shorthand: Option<Seq<char>>,
    pub target: Option<Seq<char>>,
    pub is_remote: bool,
    pub is_tag: bool,
    pub is_branch: bool,
}

impl View for RefEntry {
    type V = RefEntryView;

    open spec fn view(&self) -> RefEntryView {
        RefEntryView {
            name: self.name.deep_view(),
            shorthand: self.shorthand.deep_view(),
            target: self.target.deep_view(),
            is_remote: self.is_remote,
            is_tag: self.is_tag,
            is_branch: self.is_branch,
        }
    }
}

impl DeepView for RefEntry {
    type V = RefEntryView;

    open spec fn deep_view(&self) -> RefEntryView {
        self.view()
    }
}

/// One row of the reference index: the id of the commit a reference
/// points at, and the annotation shown for it.
pub struct RefAnnotation {
    pub target: String,
    pub info: RefInfo,
}

/// The mathematical value of a `RefAnnotation`.
pub ghost struct RefAnnotationView {
    pub target: Seq<char>,
    pub info: RefView,
}

impl View for RefAnnotation {
    type V = RefAnnotationView;

    open spec fn view(&self) -> RefAnnotationView {
        RefAnnotationView { target: self.target@, info: self.info@ }
    }
}

impl DeepView for RefAnnotation {
    type V = RefAnnotationView;

    open spec fn deep_view(&self) -> RefAnnotationView {
        self.view()
    }
}

/// The mapping from commit id to the references pointing at it, kept as
/// rows in discovery order; a commit with no row has no annotations.
pub struct RefIndex {
    pub anns: Vec<RefAnnotation>,
}

/// Classification of a reference, in this precedence: remote-tracking,
/// then tag, then branch, anything else "other".
pub open spec fn spec_ref_kind(is_remote: bool, is_tag: bool, is_branch: bool) -> Seq<char> {
    if is_remote {
        "remote"@
    } else if is_tag {
        "tag"@
    } else if is_branch {
        "branch"@
    } else {
        "other"@
    }
}

/// An entry is indexed only when it has a name and resolves to a direct
/// commit id; anything else is silently skipped.
pub open spec fn usable(e: RefEntryView) -> bool {
    e.name is Some && e.target is Some
}

/// The name an entry is displayed under: its shorthand, or its full name
/// where no shorthand exists.
pub open spec fn display_name(e: RefEntryView) -> Seq<char> {
    match e.shorthand {
        Some(s) => s,
        None => match e.name {
            Some(n) => n,
            None => Seq::empty(),
        },
    }
}

/// The commit id an entry points at.
pub open spec fn target_id(e: RefEntryView) -> Seq<char> {
    match e.target {
        Some(t) => t,
        None => Seq::empty(),
    }
}

/// The index row an entry gives rise to.
pub open spec fn ann_from(a: RefAnnotationView, e: RefEntryView) -> bool {
    a.target == target_id(e) && a.info.name == display_name(e) && a.info.kind == spec_ref_kind(
        e.is_remote,
        e.is_tag,
        e.is_branch,
    )
}

/// The entries that are indexed, in discovery order.
pub open spec fn usable_entries(es: Seq<RefEntryView>) -> Seq<RefEntryView> {
    es.filter(|e: RefEntryView| usable(e))
}

/// Runtime classification of a reference.
pub fn ref_kind(is_remote: bool, is_tag: bool, is_branch: bool) -> (r: String)
    ensures
        r@ == spec_ref_kind(is_remote, is_tag, is_branch),
{
    if is_remote {
        "remote".to_owned()
    } else if is_tag {
        "tag".to_owned()
    } else if is_branch {
        "branch".to_owned()
    } else {
        "other".to_owned()
    }
}

/// Build the reference index: one row per usable entry in discovery
/// order, and — when HEAD resolves to a commit — one final "HEAD" row on
/// that commit, in addition to whatever rows its branch or tag gave it.
pub fn index_refs(entries: &Vec<RefEntry>, head_target: &Option<String>) -> (r: RefIndex)
    ensures
        ({
            let kept = usable_entries(entries.deep_view());
            let extra: int = if head_target is Some {
                1int
            } else {
                0int
            };
            &&& r.anns.deep_view().len() == kept.len() + extra
            &&& (forall|i: int|
                0 <= i < kept.len() ==> ann_from(#[trigger] r.anns.deep_view()[i], kept[i]))
            &&& (head_target.deep_view() matches Some(t) ==> {
                let a = r.anns.deep_view().last();
                a.target == t && a.info.name == "HEAD"@ && a.info.kind == "HEAD"@
            })
        }),
{
    let ghost des = entries.deep_view();
    let mut anns: Vec<RefAnnotation> = Vec::new();
    let mut i: usize = 0;
    proof {
        assert(des.take(0).len() == 0);
        reveal(Seq::filter);
    }
    while i < entries.len()
        invariant
            des == entries.deep_view(),
            i <= entries.len(),
            entries.len() == des.len(),
            anns.deep_view().len() == usable_entries(des.take(i as int)).len(),
            forall|j: int|
                0 <= j < anns.deep_view().len() ==> ann_from(
                    #[trigger] anns.deep_view()[j],
                    usable_entries(des.take(i as int))[j],
                ),
        decreases entries.len() - i,
    {
        let ghost kprev = usable_entries(des.take(i as int));
        let ghost aprev = anns.deep_view();
        let e = &entries[i];
        match (&e.name, &e.target) {
            (Some(name), Some(target)) => {
                let display = match &e.shorthand {
                    Some(s) => s.clone(),
                    None => name.clone(),
                };
                let info = RefInfo { name: display, kind: ref_kind(e.is_remote, e.is_tag, e.is_branch) };
                let a = RefAnnotation { target: target.clone(), info };
                proof {
                    assert(e@ == des[i as int]);
                    assert(usable(des[i as int]));
                    assert(ann_from(a@, des[i as int]));
                }
                anns.push(a);
            },
            _ => {
                proof {
                    assert(e@ == des[i as int]);
                    assert(!usable(des[i as int]));
                }
            },
        }
        proof {
            reveal(Seq::filter);
            assert(des.take(i + 1).drop_last() =~= des.take(i as int));
            assert(des.take(i + 1).last() == des[i as int]);
            let knew = usable_entries(des.take(i + 1));
            if usable(des[i as int]) {
                assert(knew == kprev.push(des[i as int]));
                assert(anns.deep_view() =~= aprev.push(anns.deep_view().last()));
            } else {
                assert(knew == kprev);
                assert(anns.deep_view() == aprev);
            }
            assert forall|j: int|
                0 <= j < anns.deep_view().len() implies ann_from(
                #[trigger] anns.deep_view()[j],
                knew[j],
            ) by {
                if j < aprev.len() {
                    assert(knew[j] == kprev[j]);
                    assert(anns.deep_view()[j] == aprev[j]);
                }
            }
        }
        i = i + 1;
    }
    proof {
        assert(des.take(des.len() as int) =~= des);
    }
    match head_target {
        Some(t) => {
            let ghost aprev = anns.deep_view();
            let info = RefInfo { name: "HEAD".to_owned(), kind: "HEAD".to_owned() };
            let a = RefAnnotation { target: t.clone(), info };
            anns.push(a);
            proof {
                assert(anns.deep_view() =~= aprev.push(a@));
                assert(anns.deep_view().last() == a@);
                assert forall|j: int|
                    0 <= j < aprev.len() implies ann_from(
                    #[trigger] anns.deep_view()[j],
                    usable_entries(des)[j],
                ) by {
                    assert(anns.deep_view()[j] == aprev[j]);
                }
            }
            RefIndex { anns }
        },
        None => RefIndex { anns },
    }
}

/// The annotations of one commit: the rows pointing at its id, in index
/// order.
pub open spec fn refs_of(anns: Seq<RefAnnotationView>, id: Seq<char>) -> Seq<RefView> {
    anns.filter(|a: RefAnnotationView| a.target == id).map_values(
        |a: RefAnnotationView| a.info,
    )
}

/// Collect the annotations of the commit with this id.
pub fn refs_for(index: &RefIndex, id: &String) -> (r: Vec<RefInfo>)
    ensures
        r.deep_view() == refs_of(index.anns.deep_view(), id@),
{
    let ghost danns = index.anns.deep_view();
    let mut out: Vec<RefInfo> = Vec::new();
    let mut i: usize = 0;
    proof {
        assert(danns.take(0).len() == 0);
        reveal(Seq::filter);
        assert(out.deep_view() =~= refs_of(danns.take(0), id@));
    }
    while i < index.anns.len()
        invariant
            danns == index.anns.deep_view(),
            i <= index.anns.len(),
            index.anns.len() == danns.len(),
            out.deep_view() == refs_of(danns.take(i as int), id@),
        decreases index.anns.len() - i,
    {
        let ghost oprev = out.deep_view();
        let a = &index.anns[i];
        if a.target == *id {
            out.push(a.info.clone());
        }
        proof {
            reveal(Seq::filter);
            let p = |x: RefAnnotationView| x.target == id@;
            assert(danns.take(i + 1).drop_last() =~= danns.take(i as int));
            assert(danns.take(i + 1).last() == danns[i as int]);
            assert(a@ == danns[i as int]);
            if p(danns[i as int]) {
                assert(danns.take(i + 1).filter(p) == danns.take(i as int).filter(p).push(
                    danns[i as int],
                ));
                assert(out.deep_view() =~= oprev.push(danns[i as int].info));
                assert(out.deep_view() =~= refs_of(danns.take(i + 1), id@));
            } else {
                assert(danns.take(i + 1).filter(p) == danns.take(i as int).filter(p));
                assert(out.deep_view() =~= refs_of(danns.take(i + 1), id@));
            }
        }
        i = i + 1;
    }
    proof {
        assert(danns.take(danns.len() as int) =~= danns);
    }
    out
}

/// `rc` is `c` with its annotations filled in from the index.
pub open spec fn annotated(rc: CommitView, c: CommitView, anns: Seq<RefAnnotationView>) -> bool {
    rc.oid == c.oid && rc.parents == c.parents && rc.author == c.author && rc.email == c.email
        && rc.date == c.date && rc.message == c.message && rc.refs == refs_of(anns, c.oid)
}

/// Attach to every commit of the window the references pointing at it.
pub fn annotate_commits(window: &Vec<CommitInfo>, index: &RefIndex) -> (r: Vec<CommitInfo>)
    ensures
        r.deep_view().len() == window.deep_view().len(),
        forall|i: int|
            0 <= i < window.deep_view().len() ==> annotated(
                #[trigger] r.deep_view()[i],
                window.deep_view()[i],
                index.anns.deep_view(),
            ),
{
    let ghost dw = window.deep_view();
    let ghost danns = index.anns.deep_view();
    let mut out: Vec<CommitInfo> = Vec::new();
    let mut i: usize = 0;
    while i < window.len()
        invariant
            dw == window.deep_view(),
            danns == index.anns.deep_view(),
            i <= window.len(),
            window.len() == dw.len(),
            out.deep_view().len() == i,
            forall|j: int|
                0 <= j < i ==> annotated(#[trigger] out.deep_view()[j], dw[j], danns),
        decreases window.len() - i,
    {
        let ghost oprev = out.deep_view();
        let c = &window[i];
        let refs = refs_for(index, &c.oid);
        let rc = CommitInfo {
            oid: c.oid.clone(),
            parents: clone_strings(&c.parents),
            author: c.author.clone(),
            email: c.email.clone(),
            date: c.date,
            message: c.message.clone(),
            refs,
        };
        proof {
            assert(c@ == dw[i as int]);
            assert(annotated(rc@, dw[i as int], danns));
        }
        out.push(rc);
        proof {
            assert(out.deep_view() =~= oprev.push(rc@));
        }
        i = i + 1;
    }
    out
}

} // verus!
