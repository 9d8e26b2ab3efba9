//! What holds of the vault's deposits across deposits and withdrawals.
use vstd::prelude::*;
use crate::liq_queue::types::AssetInfo;
use crate::discount_vault::state::{VaultedLP, Coin};
use crate::discount_vault::vault::{take_from, as_deposits};
use crate::discount_vault::queries::eligible;

verus! {

/// The amount of asset `info` held over the deposits.
pub open spec fn held(ds: Seq<VaultedLP>, info: AssetInfo) -> nat
    decreases ds.len(),
{
    if ds.len() == 0 {
        0
    } else {
        held(ds.drop_last(), info) + (if ds.last().gamm.same(&info) { ds.last().amount as nat } else { 0nat })
    }
}

/// A withdrawal takes what is asked and no more: what remains of the asset
/// is what was held less what was taken; it falls short exactly by what was
/// asked beyond what was held; deposits of other assets are untouched.
pub proof fn law_withdrawal_takes_what_is_asked(ds: Seq<VaultedLP>, info: AssetInfo, want: nat)
    ensures
        ({
            let (d2, rem) = take_from(ds, info, want);
            &&& d2.len() == ds.len()
            &&& rem <= want
            &&& held(d2, info) + (want - rem) == held(ds, info)
            &&& rem == (if want >= held(ds, info) { (want - held(ds, info)) as nat } else { 0nat })
            &&& forall|k: int| 0 <= k < ds.len() && !(#[trigger] ds[k]).gamm.same(&info) ==> d2[k] == ds[k]
        }),
    decreases ds.len(),
{
    if ds.len() > 0 {
        let prev = ds.drop_last();
        law_withdrawal_takes_what_is_asked(prev, info, want);
        let (p, r0) = take_from(prev, info, want);
        let (d2, rem) = take_from(ds, info, want);
        let d = ds.last();
        let x = d2.last();
        assert(d2 =~= p.push(x));
        assert(d2.drop_last() =~= p);
        assert forall|k: int| 0 <= k < ds.len() && !(#[trigger] ds[k]).gamm.same(&info) implies d2[k] == ds[k] by {
            if k < ds.len() - 1 {
                assert(ds[k] == prev[k]);
                assert(d2[k] == p[k]);
            }
        }
    }
}

/// What was just deposited can be withdrawn in full.
pub proof fn law_deposit_can_be_withdrawn(ds: Seq<VaultedLP>, c: Coin, now: u64)
    ensures
        take_from(ds + as_deposits(seq![c], now), AssetInfo::NativeToken { denom: c.denom }, c.amount as nat).1 == 0,
{
    let info = AssetInfo::NativeToken { denom: c.denom };
    let all = ds + as_deposits(seq![c], now);
    assert(all.drop_last() =~= ds);
    assert(all.last() == VaultedLP { gamm: info, amount: c.amount, deposit_time: now });
    assert(all.last().gamm.same(&info));
    assert(held(all, info) >= c.amount);
    law_withdrawal_takes_what_is_asked(all, info, c.amount as nat);
}

/// The eligible deposits are those old enough: every deposit kept was made
/// at least `days` days before `now` and is one of the user's, and each of
/// the user's deposits is kept exactly when it is that old.
pub proof fn law_eligible_by_age(ds: Seq<VaultedLP>, days: nat, now: u64)
    ensures
        forall|k: int| 0 <= k < eligible(ds, days * 86_400, now).len() ==>
            now - (#[trigger] eligible(ds, days * 86_400, now)[k]).deposit_time >= days * 86_400
                && ds.contains(eligible(ds, days * 86_400, now)[k]),
        forall|k: int| 0 <= k < ds.len() ==>
            (now - (#[trigger] ds[k]).deposit_time >= days * 86_400 <==> eligible(ds, days * 86_400, now).contains(ds[k])),
{
    broadcast use vstd::seq_lib::group_filter_ensures;
    let min = days * 86_400;
    let pred = |d: VaultedLP| now - d.deposit_time >= min;
    let e = eligible(ds, min, now);
    assert(e == ds.filter(pred));
    assert forall|k: int| 0 <= k < e.len() implies now - (#[trigger] e[k]).deposit_time >= min && ds.contains(e[k]) by {
        assert(pred(e[k]));
        assert(e.contains(e[k]));
        ds.lemma_filter_contains_rev(pred, e[k]);
    }
    assert forall|k: int| 0 <= k < ds.len() implies (now - (#[trigger] ds[k]).deposit_time >= min <==> e.contains(ds[k])) by {
        if e.contains(ds[k]) {
            let j = choose|j: int| 0 <= j < e.len() && e[j] == ds[k];
            assert(pred(e[j]));
        }
        if now - ds[k].deposit_time >= min {
            ds.lemma_filter_contains(pred, k);
        }
    }
}

} // verus!
