//! Transaction filters: address and policy matches, and their logical
//! composition.
use vstd::prelude::*;

use crate::model::{bytes_eq, PolicyAssets, Tx, TxOutput};

verus! {

/// A predicate over a transaction.
#[derive(Debug)]
pub enum Predicate {
    /// Some produced output goes to one of these addresses (by text form).
    AnyAddress(Vec<String>),
    /// Some produced output bears, or some mint entry mints, an asset of this policy.
    PolicyId(Vec<u8>),
    Not(Box<Predicate>),
    AllOf(Vec<Predicate>),
    AnyOf(Vec<Predicate>),
}

pub open spec fn output_at(o: TxOutput, addrs: Seq<String>) -> bool {
    match o.address {
        Some(a) => exists|k: int| 0 <= k < addrs.len() && addrs[k]@ == a.text@,
        None => false,
    }
}

pub open spec fn groups_have(gs: Seq<PolicyAssets>, policy: Seq<u8>) -> bool {
    exists|k: int| 0 <= k < gs.len() && gs[k].policy@ == policy
}

pub open spec fn tx_has_policy(tx: &Tx, policy: Seq<u8>) -> bool {
    groups_have(tx.mints@, policy) || exists|j: int|
        0 <= j < tx.produces@.len() && groups_have(#[trigger] tx.produces@[j].assets@, policy)
}

/// Whether a transaction satisfies a predicate.
pub open spec fn satisfies(p: &Predicate, tx: &Tx) -> bool
    decreases p,
{
    match p {
        Predicate::AnyAddress(addrs) => exists|j: int|
            0 <= j < tx.produces@.len() && output_at(#[trigger] tx.produces@[j], addrs@),
        Predicate::PolicyId(policy) => tx_has_policy(tx, policy@),
        Predicate::Not(q) => !satisfies(q, tx),
        Predicate::AllOf(v) => forall|i: int| 0 <= i < v.len() ==> satisfies(&v[i], tx),
        Predicate::AnyOf(v) => exists|i: int| 0 <= i < v.len() && satisfies(&v[i], tx),
    }
}

fn output_at_exec(o: &TxOutput, addrs: &Vec<String>) -> (r: bool)
    ensures
        r == output_at(*o, addrs@),
{
    match &o.address {
        Some(a) => {
            let mut k: usize = 0;
            while k < addrs.len()
                invariant
                    k <= addrs@.len(),
                    o.address == Some(*a),
                    forall|m: int| 0 <= m < k ==> addrs@[m]@ != a.text@,
                decreases addrs@.len() - k,
            {
                if addrs[k] == a.text {
                    return true;
                }
                k = k + 1;
            }
            false
        },
        None => false,
    }
}

fn groups_have_exec(gs: &Vec<PolicyAssets>, policy: &Vec<u8>) -> (r: bool)
    ensures
        r == groups_have(gs@, policy@),
{
    let mut k: usize = 0;
    while k < gs.len()
        invariant
            k <= gs@.len(),
            forall|m: int| 0 <= m < k ==> gs@[m].policy@ != policy@,
        decreases gs@.len() - k,
    {
        if bytes_eq(&gs[k].policy, policy) {
            return true;
        }
        k = k + 1;
    }
    false
}

/// Evaluates a predicate on a transaction.
pub fn eval(p: &Predicate, tx: &Tx) -> (r: bool)
    ensures
        r == satisfies(p, tx),
    decreases p,
{
    match p {
        Predicate::AnyAddress(addrs) => {
            let mut j: usize = 0;
            while j < tx.produces.len()
                invariant
                    j <= tx.produces@.len(),
                    *p == Predicate::AnyAddress(*addrs),
                    forall|m: int| 0 <= m < j ==> !output_at(#[trigger] tx.produces@[m], addrs@),
                decreases tx.produces@.len() - j,
            {
                if output_at_exec(&tx.produces[j], addrs) {
                    return true;
                }
                j = j + 1;
            }
            false
        },
        Predicate::PolicyId(policy) => {
            if groups_have_exec(&tx.mints, policy) {
                return true;
            }
            let mut j: usize = 0;
            while j < tx.produces.len()
                invariant
                    j <= tx.produces@.len(),
                    *p == Predicate::PolicyId(*policy),
                    !groups_have(tx.mints@, policy@),
                    forall|m: int| 0 <= m < j ==> !groups_have(#[trigger] tx.produces@[m].assets@, policy@),
                decreases tx.produces@.len() - j,
            {
                if groups_have_exec(&tx.produces[j].assets, policy) {
                    return true;
                }
                j = j + 1;
            }
            false
        },
        Predicate::Not(q) => !eval(q, tx),
        Predicate::AllOf(v) => {
            let mut i: usize = 0;
            while i < v.len()
                invariant
                    i <= v@.len(),
                    *p == Predicate::AllOf(*v),
                    forall|m: int| 0 <= m < i ==> satisfies(&v[m], tx),
                decreases v@.len() - i,
            {
                proof {
                    assert(decreases_to!(*p => p->AllOf_0));
                    assert(decreases_to!(*v => v@));
                    assert(decreases_to!(v@ => v@[i as int]));
                }
                if !eval(&v[i], tx) {
                    assert(!satisfies(&v[i as int], tx));
                    return false;
                }
                i = i + 1;
            }
            true
        },
        Predicate::AnyOf(v) => {
            let mut i: usize = 0;
            while i < v.len()
                invariant
                    i <= v@.len(),
                    *p == Predicate::AnyOf(*v),
                    forall|m: int| 0 <= m < i ==> !satisfies(&v[m], tx),
                decreases v@.len() - i,
            {
                proof {
                    assert(decreases_to!(*p => p->AnyOf_0));
                    assert(decreases_to!(*v => v@));
                    assert(decreases_to!(v@ => v@[i as int]));
                }
                if eval(&v[i], tx) {
                    assert(satisfies(&v[i as int], tx));
                    return true;
                }
                i = i + 1;
            }
            false
        },
    }
}

} // verus!
