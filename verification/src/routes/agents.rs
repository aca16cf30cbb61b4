//! Agent registration and login requests.

use crate::errors::{Errors, FieldValidator};
use validator::ValidationErrors;
use vstd::prelude::*;

verus! {

pub struct NewAgent {
    pub agent: NewAgentData,
}

pub struct NewAgentData {
    pub private_key: Option<String>,
    pub org_id: Option<String>,
    pub roles: Option<String>,
    pub metadata: Option<String>,
}

/// The fields of a new agent once each of them was given.
pub struct AgentFields {
    pub org_id: String,
    pub roles: String,
    pub metadata: String,
    pub private_key: String,
}

/// Field codes before extraction: those of a failed validation, or none.
pub open spec fn outcome_codes(outcome: Result<(), ValidationErrors>) -> Map<
    Seq<char>,
    Seq<Seq<char>>,
> {
    match outcome {
        Ok(()) => crate::errors::no_codes(),
        Err(e) => crate::errors::field_error_codes(e),
    }
}

/// Nested-error fields of a validation outcome.
pub open spec fn outcome_nested(outcome: Result<(), ValidationErrors>) -> Set<Seq<char>> {
    match outcome {
        Ok(()) => Set::empty(),
        Err(e) => crate::errors::nested_error_fields(e),
    }
}

/// Names of the fields extracted from a new-agent request, in order.
pub open spec fn new_agent_field_names() -> Seq<Seq<char>> {
    seq!["org_id"@, "roles"@, "metadata"@, "private_key"@]
}

/// Which of those fields the request gave.
pub open spec fn new_agent_given(data: NewAgentData) -> Seq<bool> {
    seq![data.org_id is Some, data.roles is Some, data.metadata is Some, data.private_key is Some]
}

/// Field codes after extracting `org_id`, `roles`, `metadata` and
/// `private_key`, in that order, starting from `codes`.
pub open spec fn new_agent_codes(
    codes: Map<Seq<char>, Seq<Seq<char>>>,
    data: NewAgentData,
) -> Map<Seq<char>, Seq<Seq<char>>> {
    crate::errors::codes_after_extracts(codes, new_agent_field_names(), new_agent_given(data))
}

/// Recording a code gives the field an entry and keeps all others.
proof fn lemma_with_code_dom(
    codes: Map<Seq<char>, Seq<Seq<char>>>,
    field: Seq<char>,
    code: Seq<char>,
)
    ensures
        codes.dom().subset_of(crate::errors::with_code(codes, field, code).dom()),
        crate::errors::with_code(codes, field, code).dom().contains(field),
{
}

impl NewAgent {
    /// Takes the four required fields out of a new-agent request, after its
    /// validation `outcome`. Fails with every validation error and one error
    /// "can't be blank" per missing field.
    pub fn extract_fields(self, outcome: Result<(), ValidationErrors>) -> (res: Result<
        AgentFields,
        Errors,
    >)
        requires
            self.agent.org_id is None ==> !outcome_nested(outcome).contains("org_id"@),
            self.agent.roles is None ==> !outcome_nested(outcome).contains("roles"@),
            self.agent.metadata is None ==> !outcome_nested(outcome).contains("metadata"@),
            self.agent.private_key is None ==> !outcome_nested(outcome).contains("private_key"@),
        ensures
            res is Ok <==> {
                &&& self.agent.org_id is Some
                &&& self.agent.roles is Some
                &&& self.agent.metadata is Some
                &&& self.agent.private_key is Some
                &&& crate::errors::no_entries(outcome_codes(outcome), outcome_nested(outcome))
            },
            res matches Ok(f) ==> {
                &&& self.agent.org_id == Some(f.org_id)
                &&& self.agent.roles == Some(f.roles)
                &&& self.agent.metadata == Some(f.metadata)
                &&& self.agent.private_key == Some(f.private_key)
            },
            res matches Err(e) ==> e.field_codes() == new_agent_codes(
                outcome_codes(outcome),
                self.agent,
            ) && e.nested_fields() == outcome_nested(outcome),
    {
        let data = self.agent;
        let ghost start = outcome_codes(outcome);
        let mut extractor = FieldValidator::validate(outcome);
        let ghost c0 = extractor.field_codes();
        let org_id = extractor.extract("org_id", data.org_id);
        let ghost c1 = extractor.field_codes();
        let roles = extractor.extract("roles", data.roles);
        let ghost c2 = extractor.field_codes();
        let metadata = extractor.extract("metadata", data.metadata);
        let ghost c3 = extractor.field_codes();
        let private_key = extractor.extract("private_key", data.private_key);
        proof {
            let g = new_agent_given(data);
            let n = new_agent_field_names();
            let e = Seq::<Seq<char>>::empty();
            let eg = Seq::<bool>::empty();
            crate::errors::lemma_extracts_push(start, e, eg, n[0], g[0]);
            crate::errors::lemma_extracts_push(start, e.push(n[0]), eg.push(g[0]), n[1], g[1]);
            crate::errors::lemma_extracts_push(start, e.push(n[0]).push(n[1]), eg.push(g[0]).push(g[1]), n[2], g[2]);
            crate::errors::lemma_extracts_push(
                start,
                e.push(n[0]).push(n[1]).push(n[2]),
                eg.push(g[0]).push(g[1]).push(g[2]),
                n[3],
                g[3],
            );
            assert(e.push(n[0]).push(n[1]).push(n[2]).push(n[3]) =~= n);
            assert(eg.push(g[0]).push(g[1]).push(g[2]).push(g[3]) =~= g);
            lemma_with_code_dom(c0, n[0], crate::errors::blank_code());
            lemma_with_code_dom(c1, n[1], crate::errors::blank_code());
            lemma_with_code_dom(c2, n[2], crate::errors::blank_code());
            lemma_with_code_dom(c3, n[3], crate::errors::blank_code());
        }
        match extractor.check() {
            Ok(()) => Ok(AgentFields { org_id, roles, metadata, private_key }),
            Err(e) => Err(e),
        }
    }
}

pub struct LoginAgent {
    pub agent: LoginAgentData,
}

pub struct LoginAgentData {
    pub email: Option<String>,
    pub password: Option<String>,
}

/// Field codes after extracting `email` then `password` from a login request.
pub open spec fn login_codes(data: LoginAgentData) -> Map<Seq<char>, Seq<Seq<char>>> {
    crate::errors::codes_after_extracts(
        crate::errors::no_codes(),
        seq!["email"@, "password"@],
        seq![data.email is Some, data.password is Some],
    )
}

impl LoginAgent {
    /// Takes the email and the password out of a login request; fails with
    /// one error "can't be blank" per missing field.
    pub fn extract_credentials(self) -> (res: Result<(String, String), Errors>)
        ensures
            res is Ok <==> self.agent.email is Some && self.agent.password is Some,
            res matches Ok(c) ==> self.agent.email == Some(c.0) && self.agent.password == Some(
                c.1,
            ),
            res matches Err(e) ==> e.field_codes() == login_codes(self.agent)
                && e.nested_fields() == Set::<Seq<char>>::empty(),
    {
        let data = self.agent;
        let mut extractor = FieldValidator::default();
        let ghost c0 = extractor.field_codes();
        let email = extractor.extract("email", data.email);
        let ghost c1 = extractor.field_codes();
        let password = extractor.extract("password", data.password);
        proof {
            let n = seq!["email"@, "password"@];
            let g = seq![data.email is Some, data.password is Some];
            let e = Seq::<Seq<char>>::empty();
            let eg = Seq::<bool>::empty();
            crate::errors::lemma_extracts_push(c0, e, eg, n[0], g[0]);
            crate::errors::lemma_extracts_push(c0, e.push(n[0]), eg.push(g[0]), n[1], g[1]);
            assert(e.push(n[0]).push(n[1]) =~= n);
            assert(eg.push(g[0]).push(g[1]) =~= g);
            lemma_with_code_dom(c0, n[0], crate::errors::blank_code());
            lemma_with_code_dom(c1, n[1], crate::errors::blank_code());
        }
        match extractor.check() {
            Ok(()) => Ok((email, password)),
            Err(e) => Err(e),
        }
    }
}

} // verus!
