//! Field-level request validation errors.

use validator::{ValidationError, ValidationErrors};
use vstd::prelude::*;

verus! {

#[verifier::external_type_specification]
#[verifier::external_body]
pub struct ExValidationErrors(ValidationErrors);

/// Field-level entries of a `ValidationErrors`: for each field that has field
/// errors, the codes of those errors in the order they were added.
pub uninterp spec fn field_error_codes(errors: ValidationErrors) -> Map<Seq<char>, Seq<Seq<char>>>;

/// The fields whose entry in a `ValidationErrors` holds nested (struct or
/// list) errors instead of field errors.
pub uninterp spec fn nested_error_fields(errors: ValidationErrors) -> Set<Seq<char>>;

/// No field error codes at all.
pub open spec fn no_codes() -> Map<Seq<char>, Seq<Seq<char>>> {
    Map::empty()
}

/// `codes` with one more error `code` recorded for `field`, after the ones it
/// already has.
pub open spec fn with_code(
    codes: Map<Seq<char>, Seq<Seq<char>>>,
    field: Seq<char>,
    code: Seq<char>,
) -> Map<Seq<char>, Seq<Seq<char>>> {
    if codes.dom().contains(field) {
        codes.insert(field, codes[field].push(code))
    } else {
        codes.insert(field, seq![code])
    }
}

/// The field codes recorded by adding each `(field, code)` pair in order to an
/// empty set of errors.
pub open spec fn codes_of_pairs(pairs: Seq<(Seq<char>, Seq<char>)>) -> Map<
    Seq<char>,
    Seq<Seq<char>>,
>
    decreases pairs.len(),
{
    if pairs.len() == 0 {
        Map::empty()
    } else {
        with_code(codes_of_pairs(pairs.drop_last()), pairs.last().0, pairs.last().1)
    }
}

/// validator `ValidationErrors::new`: no entries at all.
#[verifier::external_body]
fn new_validation_errors() -> (errors: ValidationErrors)
    ensures
        field_error_codes(errors) == no_codes(),
        nested_error_fields(errors) == Set::<Seq<char>>::empty(),
{
    ValidationErrors::new()
}

/// validator `ValidationErrors::add` with `ValidationError::new(code)`: appends
/// an error with `code` to the field entry of `field`, creating the entry if
/// there is none. (`add` panics where the entry of `field` holds nested errors.)
#[verifier::external_body]
fn add_field_error(errors: &mut ValidationErrors, field: &'static str, code: &'static str)
    requires
        !nested_error_fields(*old(errors)).contains(field@),
    ensures
        field_error_codes(*final(errors)) == with_code(
            field_error_codes(*old(errors)),
            field@,
            code@,
        ),
        nested_error_fields(*final(errors)) == nested_error_fields(*old(errors)),
{
    errors.add(field, ValidationError::new(code));
}

/// validator `ValidationErrors::is_empty`: whether there is no entry, of
/// either kind.
#[verifier::external_body]
fn validation_errors_is_empty(errors: &ValidationErrors) -> (empty: bool)
    ensures
        empty == (field_error_codes(*errors).dom() == Set::<Seq<char>>::empty()
            && nested_error_fields(*errors) == Set::<Seq<char>>::empty()),
{
    errors.is_empty()
}

/// Whether a set of validation errors has no entry.
pub open spec fn no_entries(
    codes: Map<Seq<char>, Seq<Seq<char>>>,
    nested: Set<Seq<char>>,
) -> bool {
    codes.dom() == Set::<Seq<char>>::empty() && nested == Set::<Seq<char>>::empty()
}

pub type FieldName = &'static str;

pub type FieldErrorCode = &'static str;

/// Views of the `(field, code)` pairs of a list of errors.
pub open spec fn pair_views(errs: Seq<(FieldName, FieldErrorCode)>) -> Seq<(Seq<char>, Seq<char>)> {
    errs.map_values(|p: (FieldName, FieldErrorCode)| (p.0@, p.1@))
}

#[derive(Debug)]
pub struct Errors {
    errors: ValidationErrors,
}

impl Errors {
    /// Field error codes of these errors.
    pub closed spec fn field_codes(&self) -> Map<Seq<char>, Seq<Seq<char>>> {
        field_error_codes(self.errors)
    }

    /// Fields of these errors that hold nested errors.
    pub closed spec fn nested_fields(&self) -> Set<Seq<char>> {
        nested_error_fields(self.errors)
    }

    pub fn new(errs: &[(FieldName, FieldErrorCode)]) -> (res: Self)
        ensures
            res.field_codes() == codes_of_pairs(pair_views(errs@)),
            res.nested_fields() == Set::<Seq<char>>::empty(),
    {
        let mut errors = new_validation_errors();
        let mut i: usize = 0;
        while i < errs.len()
            invariant
                i <= errs.len(),
                field_error_codes(errors) == codes_of_pairs(pair_views(errs@.take(i as int))),
                nested_error_fields(errors) == Set::<Seq<char>>::empty(),
            decreases errs.len() - i,
        {
            let (field, code) = errs[i];
            add_field_error(&mut errors, field, code);
            assert(pair_views(errs@.take(i + 1)).drop_last() =~= pair_views(errs@.take(i as int)));
            i = i + 1;
        }
        assert(errs@.take(errs.len() as int) =~= errs@);
        Self { errors }
    }

    /// The underlying validation errors, for rendering.
    pub fn into_validation_errors(self) -> (errors: ValidationErrors)
        ensures
            field_error_codes(errors) == self.field_codes(),
            nested_error_fields(errors) == self.nested_fields(),
    {
        self.errors
    }
}

/// The code recorded for a required field that was not given.
pub open spec fn blank_code() -> Seq<char> {
    "can't be blank"@
}

/// Collects field errors while the fields of a request are taken out of it.
pub struct FieldValidator {
    errors: ValidationErrors,
}

impl Default for FieldValidator {
    fn default() -> (validator: Self)
        ensures
            validator.field_codes() == no_codes(),
            validator.nested_fields() == Set::<Seq<char>>::empty(),
    {
        Self { errors: new_validation_errors() }
    }
}

impl FieldValidator {
    /// Field error codes collected so far.
    pub closed spec fn field_codes(&self) -> Map<Seq<char>, Seq<Seq<char>>> {
        field_error_codes(self.errors)
    }

    /// Fields collected so far whose errors are nested.
    pub closed spec fn nested_fields(&self) -> Set<Seq<char>> {
        nested_error_fields(self.errors)
    }

    /// Starts from the outcome of validating a request model: its errors, or
    /// none when it validated.
    pub fn validate(outcome: Result<(), ValidationErrors>) -> (validator: Self)
        ensures
            match outcome {
                Ok(()) => validator.field_codes() == no_codes() && validator.nested_fields()
                    == Set::<Seq<char>>::empty(),
                Err(errors) => validator.field_codes() == field_error_codes(errors)
                    && validator.nested_fields() == nested_error_fields(errors),
            },
    {
        let errors = match outcome {
            Ok(()) => new_validation_errors(),
            Err(errors) => errors,
        };
        Self { errors }
    }

    /// Convenience method to trigger early returns with ? operator.
    pub fn check(self) -> (res: Result<(), Errors>)
        ensures
            res is Ok <==> no_entries(self.field_codes(), self.nested_fields()),
            res matches Err(e) ==> e.field_codes() == self.field_codes() && e.nested_fields()
                == self.nested_fields(),
    {
        if validation_errors_is_empty(&self.errors) {
            Ok(())
        } else {
            Err(Errors { errors: self.errors })
        }
    }

    /// Takes a required field's value; a missing one is recorded as an error
    /// "can't be blank" for `field_name`, and `T::default()` stands in for it.
    pub fn extract<T>(&mut self, field_name: &'static str, field: Option<T>) -> (value: T) where
        T: Default,

        requires
            field is None ==> !old(self).nested_fields().contains(field_name@),
        ensures
            final(self).nested_fields() == old(self).nested_fields(),
            match field {
                Some(v) => value == v && final(self).field_codes() == old(self).field_codes(),
                None => final(self).field_codes() == with_code(
                    old(self).field_codes(),
                    field_name@,
                    blank_code(),
                ) && call_ensures(T::default, (), value),
            },
    {
        match field {
            Some(v) => v,
            None => {
                add_field_error(&mut self.errors, field_name, "can't be blank");
                T::default()
            },
        }
    }
}

/// Recording a code keeps what was recorded before: the field's earlier codes
/// stay first and the new code comes last, other fields keep theirs, and the
/// field then has at least one code.
pub proof fn lemma_with_code_keeps_earlier_codes(
    codes: Map<Seq<char>, Seq<Seq<char>>>,
    field: Seq<char>,
    code: Seq<char>,
)
    ensures
        with_code(codes, field, code).dom() == codes.dom().insert(field),
        with_code(codes, field, code)[field].last() == code,
        with_code(codes, field, code)[field].drop_last() == (if codes.dom().contains(field) {
            codes[field]
        } else {
            Seq::empty()
        }),
        forall|other: Seq<char>|
            other != field && #[trigger] codes.dom().contains(other) ==> with_code(
                codes,
                field,
                code,
            )[other] == codes[other],
{
    let updated = with_code(codes, field, code);
    assert(updated.dom() =~= codes.dom().insert(field));
    if codes.dom().contains(field) {
        assert(updated[field].drop_last() =~= codes[field]);
    } else {
        assert(updated[field].drop_last() =~= Seq::<Seq<char>>::empty());
    }
}

/// Field codes after extracting, in order, fields named `names` of which
/// those with `given[i]` had a value, starting from `codes`.
pub open spec fn codes_after_extracts(
    codes: Map<Seq<char>, Seq<Seq<char>>>,
    names: Seq<Seq<char>>,
    given: Seq<bool>,
) -> Map<Seq<char>, Seq<Seq<char>>>
    decreases names.len(),
{
    if names.len() == 0 || given.len() != names.len() {
        codes
    } else {
        let before = codes_after_extracts(codes, names.drop_last(), given.drop_last());
        if given.last() {
            before
        } else {
            with_code(before, names.last(), blank_code())
        }
    }
}

/// One more extraction adds one step to the fold.
pub proof fn lemma_extracts_push(
    codes: Map<Seq<char>, Seq<Seq<char>>>,
    names: Seq<Seq<char>>,
    given: Seq<bool>,
    name: Seq<char>,
    present: bool,
)
    requires
        names.len() == given.len(),
    ensures
        codes_after_extracts(codes, names.push(name), given.push(present)) == (if present {
            codes_after_extracts(codes, names, given)
        } else {
            with_code(codes_after_extracts(codes, names, given), name, blank_code())
        }),
{
    assert(names.push(name).drop_last() =~= names);
    assert(given.push(present).drop_last() =~= given);
}

/// Whether no name occurs twice.
pub open spec fn distinct_names(names: Seq<Seq<char>>) -> bool {
    forall|i: int, j: int| 0 <= i < j < names.len() ==> names[i] != names[j]
}

/// A validator that starts empty and extracts fields with distinct names
/// records exactly the missing ones, each with the single code
/// "can't be blank"; so its check passes if and only if every field was given.
pub proof fn lemma_default_then_extracts(names: Seq<Seq<char>>, given: Seq<bool>)
    requires
        names.len() == given.len(),
        distinct_names(names),
    ensures
        forall|n: Seq<char>|
            #[trigger] codes_after_extracts(no_codes(), names, given).dom().contains(n) <==> exists|
                i: int,
            |
                0 <= i < names.len() && names[i] == n && !given[i],
        forall|n: Seq<char>|
            #[trigger] codes_after_extracts(no_codes(), names, given).dom().contains(n)
                ==> codes_after_extracts(no_codes(), names, given)[n] == seq![blank_code()],
        no_entries(codes_after_extracts(no_codes(), names, given), Set::<Seq<char>>::empty())
            <==> (forall|i: int| 0 <= i < given.len() ==> #[trigger] given[i]),
    decreases names.len(),
{
    let codes = codes_after_extracts(no_codes(), names, given);
    if names.len() == 0 {
        assert(codes.dom() =~= Set::<Seq<char>>::empty());
    } else {
        let pn = names.drop_last();
        let pg = given.drop_last();
        let last = (names.len() - 1) as int;
        assert(distinct_names(pn)) by {
            assert forall|i: int, j: int| 0 <= i < j < pn.len() implies pn[i] != pn[j] by {
                assert(pn[i] == names[i] && pn[j] == names[j]);
            }
        }
        lemma_default_then_extracts(pn, pg);
        let before = codes_after_extracts(no_codes(), pn, pg);
        assert(!before.dom().contains(names.last())) by {
            if before.dom().contains(names.last()) {
                let i = choose|i: int| 0 <= i < pn.len() && pn[i] == names.last() && !pg[i];
                assert(names[i] == names[last]);
            }
        }
        assert forall|n: Seq<char>| #[trigger] codes.dom().contains(n) <==> exists|i: int|
            0 <= i < names.len() && names[i] == n && !given[i] by {
            if codes.dom().contains(n) {
                if n == names.last() && !given.last() {
                    assert(names[last] == n && !given[last]);
                } else {
                    assert(before.dom().contains(n));
                    let i = choose|i: int| 0 <= i < pn.len() && pn[i] == n && !pg[i];
                    assert(names[i] == n && !given[i]);
                }
            }
            if exists|i: int| 0 <= i < names.len() && names[i] == n && !given[i] {
                let i = choose|i: int| 0 <= i < names.len() && names[i] == n && !given[i];
                if i < last {
                    assert(pn[i] == n && !pg[i]);
                    assert(before.dom().contains(n));
                } else {
                    assert(n == names.last() && !given.last());
                }
            }
        }
        assert forall|n: Seq<char>| #[trigger] codes.dom().contains(n) implies codes[n] == seq![
            blank_code(),
        ] by {
            if n == names.last() && !given.last() {
                assert(codes[n] =~= seq![blank_code()]);
            } else {
                assert(before.dom().contains(n));
            }
        }
        if forall|i: int| 0 <= i < given.len() ==> #[trigger] given[i] {
            assert forall|i: int| 0 <= i < pg.len() implies #[trigger] pg[i] by {
                assert(pg[i] == given[i]);
            }
            assert(given[last]);
        } else {
            let i = choose|i: int| 0 <= i < given.len() && !#[trigger] given[i];
            assert(codes.dom().contains(names[i]));
        }
    }
}

/// Errors built from a list of pairs have an entry for exactly the fields
/// that occur in the list, and each field's last code is that of the last
/// pair naming it.
pub proof fn lemma_codes_of_pairs_fields(pairs: Seq<(Seq<char>, Seq<char>)>)
    ensures
        forall|f: Seq<char>|
            #[trigger] codes_of_pairs(pairs).dom().contains(f) <==> exists|i: int|
                0 <= i < pairs.len() && pairs[i].0 == f,
        forall|f: Seq<char>|
            #[trigger] codes_of_pairs(pairs).dom().contains(f) ==> exists|i: int|
                0 <= i < pairs.len() && pairs[i].0 == f && codes_of_pairs(pairs)[f].last()
                    == pairs[i].1 && forall|j: int| i < j < pairs.len() ==> pairs[j].0 != f,
    decreases pairs.len(),
{
    if pairs.len() > 0 {
        let prev = pairs.drop_last();
        let last = (pairs.len() - 1) as int;
        lemma_codes_of_pairs_fields(prev);
        let before = codes_of_pairs(prev);
        let codes = codes_of_pairs(pairs);
        lemma_with_code_keeps_earlier_codes(before, pairs.last().0, pairs.last().1);
        assert forall|f: Seq<char>| #[trigger] codes.dom().contains(f) <==> exists|i: int|
            0 <= i < pairs.len() && pairs[i].0 == f by {
            if codes.dom().contains(f) && f != pairs.last().0 {
                assert(before.dom().contains(f));
                let i = choose|i: int| 0 <= i < prev.len() && prev[i].0 == f;
                assert(pairs[i] == prev[i]);
            }
            if f == pairs.last().0 {
                assert(pairs[last].0 == f);
            }
            if exists|i: int| 0 <= i < pairs.len() && pairs[i].0 == f {
                let i = choose|i: int| 0 <= i < pairs.len() && pairs[i].0 == f;
                if i < last {
                    assert(prev[i] == pairs[i]);
                }
            }
        }
        assert forall|f: Seq<char>| #[trigger] codes.dom().contains(f) implies exists|i: int|
            0 <= i < pairs.len() && pairs[i].0 == f && codes[f].last() == pairs[i].1 && forall|
                j: int,
            |
                i < j < pairs.len() ==> pairs[j].0 != f by {
            if f == pairs.last().0 {
                assert(pairs[last].0 == f && codes[f].last() == pairs[last].1);
            } else {
                assert(before.dom().contains(f));
                let i = choose|i: int|
                    0 <= i < prev.len() && prev[i].0 == f && before[f].last() == prev[i].1
                        && forall|j: int| i < j < prev.len() ==> prev[j].0 != f;
                assert(pairs[i] == prev[i]);
                assert forall|j: int| i < j < pairs.len() implies pairs[j].0 != f by {
                    if j < last {
                        assert(pairs[j] == prev[j]);
                    }
                }
            }
        }
    }
}

} // verus!
