//! Batch submission and batch status queries.

use vstd::prelude::*;

verus! {

pub struct TxnQuery {
    pub wait: u32,
}

pub struct StatusQuery {
    pub wait: Option<u32>,
    pub ids: String,
}

/// The pieces of `s` between occurrences of `sep`, as `str::split` yields
/// them: empty pieces included, and one empty piece for an empty `s`.
pub open spec fn split_on(s: Seq<char>, sep: char) -> Seq<Seq<char>>
    decreases s.len(),
{
    if s.len() == 0 {
        seq![Seq::empty()]
    } else {
        let rest = split_on(s.drop_last(), sep);
        if s.last() == sep {
            rest.push(Seq::empty())
        } else {
            rest.update(rest.len() - 1, rest.last().push(s.last()))
        }
    }
}

/// The pieces joined back with `sep` between each two of them.
pub open spec fn join_with(pieces: Seq<Seq<char>>, sep: char) -> Seq<char>
    decreases pieces.len(),
{
    if pieces.len() <= 1 {
        if pieces.len() == 0 {
            Seq::empty()
        } else {
            pieces[0]
        }
    } else {
        join_with(pieces.drop_last(), sep).push(sep) + pieces.last()
    }
}

/// Views of a list of strings.
pub open spec fn string_views(v: Seq<String>) -> Seq<Seq<char>> {
    v.map_values(|s: String| s@)
}

/// Splitting never yields an empty list.
pub proof fn lemma_split_nonempty(s: Seq<char>, sep: char)
    ensures
        split_on(s, sep).len() >= 1,
    decreases s.len(),
{
    if s.len() > 0 {
        lemma_split_nonempty(s.drop_last(), sep);
    }
}

/// Splitting on `sep` and joining back with `sep` gives the string back, and
/// no piece holds `sep`.
pub proof fn lemma_split_join(s: Seq<char>, sep: char)
    ensures
        join_with(split_on(s, sep), sep) == s,
        forall|i: int|
            0 <= i < split_on(s, sep).len() ==> !(#[trigger] split_on(s, sep)[i]).contains(sep),
    decreases s.len(),
{
    lemma_split_nonempty(s, sep);
    if s.len() > 0 {
        let prefix = s.drop_last();
        let rest = split_on(prefix, sep);
        lemma_split_join(prefix, sep);
        lemma_split_nonempty(prefix, sep);
        let pieces = split_on(s, sep);
        if s.last() == sep {
            assert(pieces.drop_last() =~= rest);
            if rest.len() >= 1 {
                assert(join_with(pieces, sep) =~= join_with(rest, sep).push(sep) + Seq::empty());
            }
            assert(s =~= prefix.push(sep));
            assert forall|i: int| 0 <= i < pieces.len() implies !(#[trigger] pieces[i]).contains(
                sep,
            ) by {
                if i < rest.len() {
                    assert(pieces[i] == rest[i]);
                } else {
                    assert(pieces[i] =~= Seq::<char>::empty());
                }
            }
        } else {
            let last = rest.last().push(s.last());
            assert(pieces =~= rest.drop_last().push(last));
            if rest.len() == 1 {
                assert(join_with(pieces, sep) == last);
                assert(rest[0] == prefix);
                assert(s =~= prefix.push(s.last()));
            } else {
                assert(pieces.drop_last() =~= rest.drop_last());
                assert(join_with(rest, sep) == join_with(rest.drop_last(), sep).push(sep)
                    + rest.last());
                assert(join_with(pieces, sep) == join_with(rest.drop_last(), sep).push(sep)
                    + last);
                assert(s =~= prefix.push(s.last()));
                assert(join_with(pieces, sep) =~= s);
            }
            assert forall|i: int| 0 <= i < pieces.len() implies !(#[trigger] pieces[i]).contains(
                sep,
            ) by {
                if i < rest.len() - 1 {
                    assert(pieces[i] == rest[i]);
                } else {
                    assert(pieces[i] == last);
                    if last.contains(sep) {
                        let k = choose|k: int| 0 <= k < last.len() && last[k] == sep;
                        if k < rest.last().len() {
                            assert(rest.last()[k] == sep);
                            assert(rest.last().contains(sep));
                        }
                    }
                }
            }
        }
    }
}

impl StatusQuery {
    /// How long to wait for the batches: the query's `wait`, or 0 without one.
    pub fn wait_or_default(&self) -> (wait: u32)
        ensures
            wait == match self.wait {
                Some(w) => w,
                None => 0,
            },
    {
        match self.wait {
            Some(w) => w,
            None => 0,
        }
    }

    /// The batch ids of the query: its `ids` split at each comma.
    pub fn batch_ids(&self) -> (ids: Vec<String>)
        ensures
            string_views(ids@) == split_on(self.ids@, ','),
    {
        let s = self.ids.as_str();
        let n = s.unicode_len();
        let mut pieces: Vec<String> = Vec::new();
        let mut current = String::new();
        let mut i: usize = 0;
        while i < n
            invariant
                n == s@.len(),
                s@ == self.ids@,
                i <= n,
                string_views(pieces@).push(current@) == split_on(s@.take(i as int), ','),
            decreases n - i,
        {
            let c = s.get_char(i);
            let ghost before = string_views(pieces@).push(current@);
            assert(s@.take(i + 1).drop_last() =~= s@.take(i as int));
            if c == ',' {
                let piece = current;
                pieces.push(piece);
                current = String::new();
                assert(string_views(pieces@).push(current@) =~= before.push(Seq::empty()));
            } else {
                crate::text::push_char(&mut current, c);
                assert(string_views(pieces@).push(current@) =~= before.update(
                    before.len() - 1,
                    before.last().push(c),
                ));
            }
            i = i + 1;
        }
        assert(s@.take(n as int) =~= s@);
        pieces.push(current);
        assert(string_views(pieces@) =~= split_on(s@, ','));
        pieces
    }
}

/// The HTTP status of a batch submission: 201 (Created) when every batch is
/// committed, 202 (Accepted) otherwise.
pub open spec fn submission_status(statuses: Seq<Seq<char>>) -> u16 {
    if forall|i: int| 0 <= i < statuses.len() ==> #[trigger] statuses[i] == "COMMITTED"@ {
        201
    } else {
        202
    }
}

/// The HTTP status answering a batch submission, from the statuses of its
/// batches.
pub fn batch_response_status(statuses: &Vec<String>) -> (code: u16)
    ensures
        code == submission_status(string_views(statuses@)),
        code == 201 || code == 202,
        code == 201 <==> forall|i: int|
            0 <= i < statuses@.len() ==> (#[trigger] statuses@[i])@ == "COMMITTED"@,
{
    let committed = String::from_str("COMMITTED");
    let mut i: usize = 0;
    while i < statuses.len()
        invariant
            i <= statuses.len(),
            committed@ == "COMMITTED"@,
            forall|j: int| 0 <= j < i ==> #[trigger] statuses@[j]@ == "COMMITTED"@,
        decreases statuses.len() - i,
    {
        if statuses[i] != committed {
            assert(string_views(statuses@)[i as int] != "COMMITTED"@);
            assert(statuses@[i as int]@ != "COMMITTED"@);
            return 202;
        }
        i = i + 1;
    }
    assert forall|j: int| 0 <= j < string_views(statuses@).len() implies #[trigger] string_views(
        statuses@,
    )[j] == "COMMITTED"@ by {
        assert(statuses@[j]@ == "COMMITTED"@);
    }
    201
}

/// A submission is answered 201 exactly when each of its parts would be:
/// the status of a concatenation is 201 if and only if both halves get 201,
/// no batch gives 201, and one batch gives 201 exactly when it is committed.
pub proof fn lemma_submission_status_composes(
    first: Seq<Seq<char>>,
    second: Seq<Seq<char>>,
    status: Seq<char>,
)
    ensures
        submission_status(first + second) == (if submission_status(first) == 201
            && submission_status(second) == 201 {
            201u16
        } else {
            202u16
        }),
        submission_status(Seq::empty()) == 201,
        submission_status(seq![status]) == (if status == "COMMITTED"@ {
            201u16
        } else {
            202u16
        }),
{
    let all = first + second;
    if submission_status(first) == 201 && submission_status(second) == 201 {
        assert forall|i: int| 0 <= i < all.len() implies #[trigger] all[i] == "COMMITTED"@ by {
            if i < first.len() {
                assert(all[i] == first[i]);
            } else {
                assert(all[i] == second[i - first.len()]);
            }
        }
    } else if submission_status(first) != 201 {
        let i = choose|i: int| 0 <= i < first.len() && #[trigger] first[i] != "COMMITTED"@;
        assert(all[i] == first[i]);
    } else {
        let i = choose|i: int| 0 <= i < second.len() && #[trigger] second[i] != "COMMITTED"@;
        assert(all[first.len() + i] == second[i]);
    }
    if status != "COMMITTED"@ {
        assert(seq![status][0] == status);
    }
}

} // verus!
