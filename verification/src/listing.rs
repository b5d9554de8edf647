//! Building a sorted directory listing from a raw enumeration outcome.

use vstd::multiset::Multiset;
use vstd::prelude::*;
use vstd::seq_lib::group_to_multiset_ensures;

use crate::entry::DirEntry;
use crate::entry::EntryModel;
use crate::entry::distinct_names;
use crate::entry::entries_sorted;
use crate::entry::models;
use crate::entry::name_set;
use crate::error::ErrorKind;
use crate::error::ErrorModel;
use crate::order::lemma_lex_le_antisym;
use crate::order::lemma_lex_le_refl;
use crate::order::lemma_lex_le_total;
use crate::order::lemma_lex_le_trans;
use crate::order::lex_le;
use crate::order::str_le;

verus! {

/// Every entry of the enumeration was read successfully.
pub open spec fn all_ok(items: Seq<Result<DirEntry, String>>) -> bool {
    forall|i: int| 0 <= i < items.len() ==> #[trigger] items[i] is Ok
}

/// The models of the successfully read entries, element by element. Only
/// meaningful when `all_ok` holds of the sequence.
pub open spec fn ok_models(items: Seq<Result<DirEntry, String>>) -> Seq<EntryModel> {
    items.map_values(|it: Result<DirEntry, String>| it->Ok_0@)
}

/// Position `j` holds the first failed entry read of the enumeration.
pub open spec fn first_err_at(items: Seq<Result<DirEntry, String>>, j: int) -> bool {
    &&& 0 <= j < items.len()
    &&& items[j] is Err
    &&& forall|k: int| 0 <= k < j ==> #[trigger] items[k] is Ok
}

/// Two listings with the same multiset of entries expose the same set of
/// names: reordering an enumeration loses no child and invents none.
pub proof fn lemma_name_set_from_multiset(a: Seq<EntryModel>, b: Seq<EntryModel>)
    requires
        a.to_multiset() == b.to_multiset(),
    ensures
        name_set(a) == name_set(b),
{
    broadcast use group_to_multiset_ensures;

    assert forall|n: Seq<char>| name_set(a).contains(n) implies name_set(b).contains(n) by {
        let i = choose|i: int| 0 <= i < a.len() && #[trigger] a[i].name == n;
        assert(a.contains(a[i]));
        assert(b.to_multiset().count(a[i]) > 0);
        assert(b.contains(a[i]));
        let j = choose|j: int| 0 <= j < b.len() && #[trigger] b[j] == a[i];
        assert(b[j].name == n);
    }
    assert forall|n: Seq<char>| name_set(b).contains(n) implies name_set(a).contains(n) by {
        let i = choose|i: int| 0 <= i < b.len() && #[trigger] b[i].name == n;
        assert(b.contains(b[i]));
        assert(a.to_multiset().count(b[i]) > 0);
        assert(a.contains(b[i]));
        let j = choose|j: int| 0 <= j < a.len() && #[trigger] a[j] == b[i];
        assert(a[j].name == n);
    }
    assert(name_set(a) =~= name_set(b));
}

/// A sorted listing of entries with pairwise distinct names is unique: any
/// two sorted arrangements of the same entries are the same sequence. So
/// the listing a successful call returns is deterministic, whatever order
/// the platform enumerated the directory in.
pub proof fn lemma_sorted_listing_unique(a: Seq<EntryModel>, b: Seq<EntryModel>)
    requires
        entries_sorted(a),
        entries_sorted(b),
        distinct_names(a),
        a.to_multiset() == b.to_multiset(),
    ensures
        a == b,
    decreases a.len(),
{
    broadcast use group_to_multiset_ensures, vstd::multiset::group_multiset_axioms;

    vstd::seq_lib::to_multiset_len(a);
    vstd::seq_lib::to_multiset_len(b);
    if a.len() == 0 {
        assert(a =~= b);
    } else {
        assert(a.contains(a[0]));
        assert(b.to_multiset().count(a[0]) > 0);
        assert(b.contains(a[0]));
        assert(b.contains(b[0]));
        assert(a.to_multiset().count(b[0]) > 0);
        assert(a.contains(b[0]));
        let i = choose|i: int| 0 <= i < b.len() && #[trigger] b[i] == a[0];
        let j = choose|j: int| 0 <= j < a.len() && #[trigger] a[j] == b[0];
        assert(lex_le(b[0].name, b[i].name)) by {
            if i == 0 {
                lemma_lex_le_refl(b[0].name);
            }
        }
        assert(lex_le(a[0].name, a[j].name)) by {
            if j == 0 {
                lemma_lex_le_refl(a[0].name);
            }
        }
        lemma_lex_le_antisym(a[0].name, b[0].name);
        assert(j == 0) by {
            if j > 0 {
                assert(a[0].name != a[j].name);
            }
        }
        assert(a[0] == b[0]);
        assert(a.drop_first().to_multiset() =~= a.to_multiset().remove(a[0])) by {
            assert(a.remove(0) =~= a.drop_first());
            vstd::seq_lib::to_multiset_remove(a, 0);
        }
        assert(b.drop_first().to_multiset() =~= b.to_multiset().remove(b[0])) by {
            assert(b.remove(0) =~= b.drop_first());
            vstd::seq_lib::to_multiset_remove(b, 0);
        }
        assert(entries_sorted(a.drop_first()) && distinct_names(a.drop_first())) by {
            assert forall|p: int, q: int| 0 <= p < q < a.drop_first().len() implies lex_le(
                a.drop_first()[p].name,
                a.drop_first()[q].name,
            ) && a.drop_first()[p].name != a.drop_first()[q].name by {
                assert(a.drop_first()[p] == a[p + 1]);
                assert(a.drop_first()[q] == a[q + 1]);
                assert(lex_le(a[p + 1].name, a[q + 1].name));
                assert(a[p + 1].name != a[q + 1].name);
            }
        }
        assert(entries_sorted(b.drop_first())) by {
            assert forall|p: int, q: int| 0 <= p < q < b.drop_first().len() implies lex_le(
                b.drop_first()[p].name,
                b.drop_first()[q].name,
            ) by {
                assert(b.drop_first()[p] == b[p + 1]);
                assert(b.drop_first()[q] == b[q + 1]);
                assert(lex_le(b[p + 1].name, b[q + 1].name));
            }
        }
        lemma_sorted_listing_unique(a.drop_first(), b.drop_first());
        assert forall|k: int| 0 <= k < a.len() implies a[k] == b[k] by {
            if k > 0 {
                assert(a.drop_first()[k - 1] == b.drop_first()[k - 1]);
            }
        }
        assert(a =~= b);
    }
}

/// Keeps the entries of a fully successful enumeration and aborts on the
/// first failed entry read, returning that failure's description.
fn collect_entries(items: Vec<Result<DirEntry, String>>) -> (r: Result<Vec<DirEntry>, String>)
    ensures
        r is Ok ==> all_ok(items@) && models(r->Ok_0@) == ok_models(items@),
        all_ok(items@) ==> r is Ok,
        r is Err ==> exists|j: int|
            #[trigger] first_err_at(items@, j) && r->Err_0@ == items@[j]->Err_0@,
{
    let ghost orig: Seq<Result<DirEntry, String>> = items@;
    let mut work = items;
    let mut out: Vec<DirEntry> = Vec::new();
    while work.len() > 0
        invariant
            orig == items@,
            out@.len() + work@.len() == orig.len(),
            work@ == orig.skip(out@.len() as int),
            forall|k: int| 0 <= k < out@.len() ==> #[trigger] orig[k] is Ok,
            models(out@) == ok_models(orig.take(out@.len() as int)),
        decreases work.len(),
    {
        let ghost n: int = out@.len() as int;
        let it = work.remove(0);
        proof {
            assert(it == orig[n]);
            assert(work@ =~= orig.skip(n + 1));
        }
        match it {
            Result::Ok(e) => {
                let ghost prev_out: Seq<DirEntry> = out@;
                out.push(e);
                proof {
                    assert(e@ == orig[n]->Ok_0@);
                    assert forall|i: int| 0 <= i < n + 1 implies models(out@)[i] == ok_models(
                        orig.take(n + 1),
                    )[i] by {
                        if i < n {
                            assert(out@[i] == prev_out[i]);
                            assert(models(prev_out)[i] == ok_models(orig.take(n))[i]);
                            assert(orig.take(n)[i] == orig[i]);
                            assert(orig.take(n + 1)[i] == orig[i]);
                        } else {
                            assert(out@[i] == e);
                            assert(orig.take(n + 1)[i] == orig[n]);
                        }
                    }
                    assert(models(out@) =~= ok_models(orig.take(n + 1)));
                }
            },
            Result::Err(m) => {
                proof {
                    assert(first_err_at(items@, n));
                }
                return Result::Err(m);
            },
        }
    }
    proof {
        assert(orig.take(orig.len() as int) =~= orig);
    }
    Result::Ok(out)
}

/// Turns the raw outcome of enumerating one directory into a listing.
///
/// `outcome` is what the host's enumeration produced: `Err` with the open
/// failure's description when the directory could not be opened, otherwise
/// the per-entry read results in whatever order the platform yielded them.
///
/// An open failure is reported as [`ErrorKind::DirectoryOpenFailed`] with
/// the same description. A failed entry read aborts the whole call with
/// [`ErrorKind::EntryReadFailed`] carrying the first such failure's
/// description; no partial listing is returned. When every entry was read,
/// the call succeeds with exactly those entries, sorted by name in
/// ascending codepoint order, so the listing is deterministic whatever
/// order the platform enumerated in. An empty enumeration yields an empty
/// listing, not an error.
pub fn list_dir(outcome: Result<Vec<Result<DirEntry, String>>, String>) -> (r: Result<
    Vec<DirEntry>,
    ErrorKind,
>)
    ensures
        outcome is Err ==> r is Err && r->Err_0@ == ErrorModel::DirectoryOpenFailed(
            outcome->Err_0@,
        ),
        outcome is Ok && all_ok(outcome->Ok_0@) ==> {
            &&& r is Ok
            &&& entries_sorted(models(r->Ok_0@))
            &&& models(r->Ok_0@).to_multiset() == ok_models(outcome->Ok_0@).to_multiset()
            &&& name_set(models(r->Ok_0@)) == name_set(ok_models(outcome->Ok_0@))
            &&& r->Ok_0@.len() == outcome->Ok_0@.len()
        },
        outcome is Ok && !all_ok(outcome->Ok_0@) ==> r is Err && exists|j: int|
            #[trigger] first_err_at(outcome->Ok_0@, j) && r->Err_0@ == ErrorModel::EntryReadFailed(
                outcome->Ok_0@[j]->Err_0@,
            ),
{
    match outcome {
        Result::Err(m) => Result::Err(ErrorKind::DirectoryOpenFailed(m)),
        Result::Ok(items) => {
            let ghost gitems: Seq<Result<DirEntry, String>> = items@;
            match collect_entries(items) {
                Result::Err(m) => {
                    proof {
                        let j = choose|j: int|
                            #[trigger] first_err_at(gitems, j) && m@ == gitems[j]->Err_0@;
                        assert(first_err_at(gitems, j));
                    }
                    Result::Err(ErrorKind::EntryReadFailed(m))
                },
                Result::Ok(es) => {
                    let sorted = sort_entries(es);
                    proof {
                        lemma_name_set_from_multiset(models(sorted@), ok_models(gitems));
                        vstd::seq_lib::to_multiset_len(models(sorted@));
                        vstd::seq_lib::to_multiset_len(ok_models(gitems));
                    }
                    Result::Ok(sorted)
                },
            }
        },
    }
}

/// Sorts entries by name in ascending codepoint order. The result holds
/// exactly the entries that were handed in, each with its classification
/// flag unchanged.
pub fn sort_entries(entries: Vec<DirEntry>) -> (r: Vec<DirEntry>)
    ensures
        entries_sorted(models(r@)),
        models(r@).to_multiset() == models(entries@).to_multiset(),
{
    broadcast use group_to_multiset_ensures, vstd::multiset::group_multiset_axioms;

    let ghost orig: Seq<EntryModel> = models(entries@);
    let mut work = entries;
    let mut out: Vec<DirEntry> = Vec::new();
    while work.len() > 0
        invariant
            entries_sorted(models(out@)),
            models(out@).to_multiset().add(models(work@).to_multiset()) == orig.to_multiset(),
        decreases work.len(),
    {
        let ghost prev_work: Seq<DirEntry> = work@;
        let e = work.pop().unwrap();
        proof {
            assert(models(prev_work) =~= models(work@).push(e@));
        }
        let mut pos: usize = 0;
        while pos < out.len() && str_le(out[pos].name.as_str(), e.name.as_str())
            invariant
                pos <= out.len(),
                forall|k: int| 0 <= k < pos ==> lex_le(#[trigger] models(out@)[k].name, e@.name),
            decreases out.len() - pos,
        {
            pos += 1;
        }
        let ghost prev_out: Seq<DirEntry> = out@;
        out.insert(pos, e);
        proof {
            let m = models(out@);
            let p = models(prev_out);
            assert(m =~= p.insert(pos as int, e@));
            assert(pos < p.len() ==> lex_le(e@.name, p[pos as int].name)) by {
                if pos < p.len() {
                    lemma_lex_le_total(p[pos as int].name, e@.name);
                }
            }
            assert forall|i: int, j: int| 0 <= i < j < m.len() implies lex_le(
                m[i].name,
                m[j].name,
            ) by {
                if j == pos {
                    assert(lex_le(m[i].name, e@.name));
                } else if i == pos && j > pos {
                    if j - 1 > pos {
                        lemma_lex_le_trans(e@.name, p[pos as int].name, p[j - 1].name);
                    }
                } else if i < pos && j > pos {
                    assert(lex_le(p[i].name, p[j - 1].name));
                }
            }
            vstd::seq_lib::to_multiset_build(models(work@), e@);
            vstd::seq_lib::to_multiset_insert(p, pos as int, e@);
            assert(m.to_multiset().add(models(work@).to_multiset()) =~= orig.to_multiset());
        }
    }
    proof {
        assert(models(work@).to_multiset() =~= Multiset::<EntryModel>::empty());
        assert(models(out@).to_multiset() =~= orig.to_multiset());
    }
    out
}

} // verus!
