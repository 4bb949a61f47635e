use vstd::prelude::*;
use vstd::string::StringExecFns;

verus! {

/// The reference a checkout argument named, when it named one: its full
/// name (absent only for malformed references) and whether it is a local
/// branch.
pub struct RefTarget {
    pub full_name: Option<String>,
    pub is_branch: bool,
}

/// What revision lookup found for the argument of a checkout: the id of
/// the commit it denotes, and the reference it named, if any.
pub struct ResolvedRev {
    pub object_id: String,
    pub reference: Option<RefTarget>,
}

/// How HEAD is updated once the working tree is checked out: point the
/// symbolic HEAD at a branch, or detach it at a commit id.
#[derive(Debug, PartialEq, Eq)]
pub enum HeadAction {
    Symbolic(String),
    Detach(String),
}

/// The HEAD update owed for a resolved checkout argument: a branch keeps
/// HEAD symbolic on the branch's full name; a tag, any other reference,
/// or a bare commit id detaches HEAD at the resolved commit.
pub open spec fn planned_head(reference: Option<RefTarget>, object_id: Seq<char>, r: HeadAction) -> bool {
    match reference {
        Some(t) => {
            if t.is_branch {
                r matches HeadAction::Symbolic(n) && n@ == (match t.full_name {
                    Some(x) => x@,
                    None => Seq::<char>::empty(),
                })
            } else {
                r matches HeadAction::Detach(d) && d@ == object_id
            }
        },
        None => r matches HeadAction::Detach(d) && d@ == object_id,
    }
}

/// Decide the HEAD update for a resolved checkout argument.
pub fn plan_head_update(rev: &ResolvedRev) -> (r: HeadAction)
    requires
        rev.reference matches Some(t) ==> (t.is_branch ==> t.full_name is Some),
    ensures
        planned_head(rev.reference, rev.object_id@, r),
{
    match &rev.reference {
        Some(t) => {
            if t.is_branch {
                match &t.full_name {
                    Some(name) => HeadAction::Symbolic(name.clone()),
                    None => {
                        proof {
                            assert(false);
                        }
                        HeadAction::Detach(rev.object_id.clone())
                    },
                }
            } else {
                HeadAction::Detach(rev.object_id.clone())
            }
        },
        None => HeadAction::Detach(rev.object_id.clone()),
    }
}

/// The message surfaced when a checkout argument matches neither a
/// reference nor a commit id.
pub fn reference_not_found_message(reference: &String) -> (r: String)
    ensures
        r@ == "Reference not found: "@ + reference@,
{
    let mut m: String = "Reference not found: ".to_owned();
    m.append(reference.as_str());
    m
}

} // verus!
