//! Proposals stored under their keys, in key order: finding, saving and
//! removing them, as a key-value store does.
use vstd::prelude::*;
use crate::keys::{key_lt, key_index, lemma_key_index, lemma_key_index_prefix, keys_sorted, insert_position,
    lemma_sorted_insert, lemma_sorted_remove, lemma_key_order, label_lt};
use crate::governance::state::{Proposal, ProposalView, entries_view, entry_keys};

verus! {

/// The index of the entry under `key`.
pub open spec fn entry_index(v: Seq<(Seq<char>, ProposalView)>, key: Seq<char>) -> Option<int> {
    key_index(entry_keys(v), key)
}

pub proof fn lemma_entry_index(v: Seq<(Seq<char>, ProposalView)>, key: Seq<char>)
    ensures
        entry_index(v, key) matches Some(i) ==> 0 <= i < v.len() && v[i].0 == key,
        entry_index(v, key) is None ==> forall|j: int| 0 <= j < v.len() ==> v[j].0 != key,
{
    lemma_key_index(entry_keys(v), key);
    if entry_index(v, key) is None {
        assert forall|j: int| 0 <= j < v.len() implies v[j].0 != key by {
            assert(entry_keys(v)[j] == v[j].0);
        }
    }
}

/// `new` is `old` with `(key, p)` in place of the entry under `key`, or
/// inserted where there is none.
pub open spec fn upserted(old: Seq<(Seq<char>, ProposalView)>, new: Seq<(Seq<char>, ProposalView)>, key: Seq<char>, p: ProposalView) -> bool {
    match entry_index(old, key) {
        Some(i) => new == old.update(i, (key, p)),
        None => exists|pos: int| 0 <= pos <= old.len() && new == old.insert(pos, (key, p)),
    }
}

/// `new` is `old` without the entry under `key`, if there is one.
pub open spec fn removed(old: Seq<(Seq<char>, ProposalView)>, new: Seq<(Seq<char>, ProposalView)>, key: Seq<char>) -> bool {
    match entry_index(old, key) {
        Some(i) => new == old.remove(i),
        None => new == old,
    }
}

/// The index of the entry under `key`.
pub fn find_entry(v: &Vec<(String, Proposal)>, key: &String) -> (r: Option<usize>)
    ensures
        match r {
            Some(i) => entry_index(entries_view(v@), key@) == Some(i as int),
            None => entry_index(entries_view(v@), key@) is None,
        },
{
    let ghost ks = entry_keys(entries_view(v@));
    let mut i: usize = 0;
    while i < v.len()
        invariant
            i <= v.len(),
            ks == entry_keys(entries_view(v@)),
            key_index(ks.take(i as int), key@) is None,
        decreases v.len() - i,
    {
        assert(ks.take(i + 1).drop_last() =~= ks.take(i as int));
        assert(ks.take(i + 1).last() == v@[i as int].0@);
        if v[i].0 == *key {
            proof { lemma_key_index_prefix(ks, key@, i as int); }
            return Some(i);
        }
        i = i + 1;
    }
    assert(ks.take(v.len() as int) =~= ks);
    None
}

/// Save `p` under `key`, in place of what was there.
pub fn save_entry(v: &mut Vec<(String, Proposal)>, key: String, p: Proposal)
    requires
        keys_sorted(entry_keys(entries_view(old(v)@))),
    ensures
        keys_sorted(entry_keys(entries_view(final(v)@))),
        upserted(entries_view(old(v)@), entries_view(final(v)@), key@, p@),
{
    let ghost before = entries_view(v@);
    let ghost pv = p@;
    let ghost k = key@;
    match find_entry(v, &key) {
        Some(i) => {
            proof { lemma_entry_index(before, k); }
            v.set(i, (key, p));
            proof {
                assert(entries_view(v@) =~= before.update(i as int, (k, pv)));
                assert(entry_keys(entries_view(v@)) =~= entry_keys(before));
            }
        },
        None => {
            let ghost ks = entry_keys(before);
            proof { lemma_entry_index(before, k); }
            let mut pos: usize = 0;
            while pos < v.len()
                invariant
                    pos <= v.len(),
                    ks == entry_keys(entries_view(v@)),
                    keys_sorted(ks),
                    forall|j: int| 0 <= j < ks.len() ==> ks[j] != key@,
                    forall|j: int| 0 <= j < pos ==> key_lt(#[trigger] ks[j], key@),
                ensures
                    pos <= v.len(),
                    ks == entry_keys(entries_view(v@)),
                    forall|j: int| 0 <= j < pos ==> key_lt(#[trigger] ks[j], key@),
                    pos < v.len() ==> key_lt(key@, ks[pos as int]),
                decreases v.len() - pos,
            {
                assert(ks[pos as int] == v@[pos as int].0@);
                proof { lemma_key_order(ks[pos as int], key@, key@); }
                if label_lt(&key, &v[pos].0) {
                    break;
                }
                pos = pos + 1;
            }
            proof {
                assert forall|j: int| pos <= j < ks.len() implies key_lt(key@, #[trigger] ks[j]) by {
                    if j > pos {
                        lemma_key_order(key@, ks[pos as int], ks[j]);
                    }
                }
                assert(insert_position(ks, key@, pos as int));
                lemma_sorted_insert(ks, key@, pos as int);
            }
            v.insert(pos, (key, p));
            proof {
                assert(entries_view(v@) =~= before.insert(pos as int, (k, pv)));
                assert(entry_keys(entries_view(v@)) =~= ks.insert(pos as int, k));
            }
        },
    }
}

/// Remove the entry under `key`, if any; answers it.
pub fn remove_entry(v: &mut Vec<(String, Proposal)>, key: &String) -> (r: Option<Proposal>)
    requires
        keys_sorted(entry_keys(entries_view(old(v)@))),
    ensures
        keys_sorted(entry_keys(entries_view(final(v)@))),
        removed(entries_view(old(v)@), entries_view(final(v)@), key@),
{
    let ghost before = entries_view(v@);
    match find_entry(v, key) {
        Some(i) => {
            proof { lemma_entry_index(before, key@); }
            let (_, p) = v.remove(i);
            proof {
                assert(entries_view(v@) =~= before.remove(i as int));
                assert(entry_keys(entries_view(v@)) =~= entry_keys(before).remove(i as int));
                lemma_sorted_remove(entry_keys(before), i as int);
            }
            Some(p)
        },
        None => None,
    }
}

} // verus!
