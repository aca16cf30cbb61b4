//! Smart permission deciding who may create proposals.

use vstd::prelude::*;

verus! {

/// Whether one of `roles` is `proposal_creation`.
pub open spec fn may_create_proposal(roles: Seq<Seq<char>>) -> bool {
    exists|i: int| 0 <= i < roles.len() && #[trigger] roles[i] == "proposal_creation"@
}

/// Uses agent role to decide in a proposal can be created.
pub fn has_permission(roles: &Vec<String>) -> (allowed: bool)
    ensures
        allowed == may_create_proposal(crate::routes::transactions::string_views(roles@)),
        allowed <==> exists|i: int|
            0 <= i < roles@.len() && (#[trigger] roles@[i])@ == "proposal_creation"@,
{
    let wanted = String::from_str("proposal_creation");
    let mut i: usize = 0;
    while i < roles.len()
        invariant
            i <= roles.len(),
            wanted@ == "proposal_creation"@,
            forall|j: int| 0 <= j < i ==> #[trigger] roles@[j]@ != "proposal_creation"@,
        decreases roles.len() - i,
    {
        if roles[i] == wanted {
            assert(crate::routes::transactions::string_views(roles@)[i as int]
                == "proposal_creation"@);
            assert(roles@[i as int]@ == "proposal_creation"@);
            return true;
        }
        i = i + 1;
    }
    assert forall|j: int|
        0 <= j < crate::routes::transactions::string_views(roles@).len() implies #[trigger] crate::routes::transactions::string_views(
        roles@,
    )[j] != "proposal_creation"@ by {
        assert(roles@[j]@ != "proposal_creation"@);
    }
    false
}

/// The permission is membership: it is granted exactly when the role list
/// contains `proposal_creation`, wherever it stands; adding a role in front or
/// at the back grants it exactly when that role is `proposal_creation` or it
/// was granted already, and reversing the list changes nothing.
pub proof fn lemma_permission_is_membership(roles: Seq<Seq<char>>, role: Seq<char>)
    ensures
        may_create_proposal(roles) <==> roles.contains("proposal_creation"@),
        may_create_proposal(seq![role] + roles) <==> (role == "proposal_creation"@
            || may_create_proposal(roles)),
        may_create_proposal(roles.push(role)) <==> (role == "proposal_creation"@
            || may_create_proposal(roles)),
        may_create_proposal(roles.reverse()) == may_create_proposal(roles),
        !may_create_proposal(Seq::empty()),
{
    let front = seq![role] + roles;
    let back = roles.push(role);
    let rev = roles.reverse();
    if may_create_proposal(roles) {
        let i = choose|i: int| 0 <= i < roles.len() && #[trigger] roles[i] == "proposal_creation"@;
        assert(front[i + 1] == roles[i]);
        assert(back[i] == roles[i]);
        assert(rev[roles.len() - 1 - i] == roles[i]);
    }
    if role == "proposal_creation"@ {
        assert(front[0] == role);
        assert(back[roles.len() as int] == role);
    }
    if may_create_proposal(front) {
        let i = choose|i: int| 0 <= i < front.len() && #[trigger] front[i] == "proposal_creation"@;
        if i > 0 {
            assert(roles[i - 1] == front[i]);
        }
    }
    if may_create_proposal(back) {
        let i = choose|i: int| 0 <= i < back.len() && #[trigger] back[i] == "proposal_creation"@;
        if i < roles.len() {
            assert(roles[i] == back[i]);
        }
    }
    if may_create_proposal(rev) {
        let i = choose|i: int| 0 <= i < rev.len() && #[trigger] rev[i] == "proposal_creation"@;
        assert(roles[roles.len() - 1 - i] == rev[i]);
    }
}

} // verus!
