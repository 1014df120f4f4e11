//! Legacy bundles: an ordered, non-empty group of value transactions that
//! share one bundle hash, with the tail first and the head last.

use vstd::prelude::*;
use crate::ids::TransactionId;

verus! {

/// One transaction of a legacy bundle.
pub struct BundledTransaction {
    pub address: Vec<u8>,
    pub value: i64,
    pub trunk: TransactionId,
    pub branch: TransactionId,
    pub bundle: TransactionId,
}

/// A non-empty group of bundled transactions, tail first.
pub struct Bundle(pub Vec<BundledTransaction>);

/// Adds two balances, stopping at the extremes instead of wrapping.
pub fn saturating_add_i64(a: i64, b: i64) -> (r: i64)
    ensures
        i64::MIN <= a + b <= i64::MAX ==> r == a + b,
        a + b > i64::MAX ==> r == i64::MAX,
        a + b < i64::MIN ==> r == i64::MIN,
{
    if b >= 0 {
        if a <= i64::MAX - b {
            a + b
        } else {
            i64::MAX
        }
    } else {
        if a >= i64::MIN - b {
            a + b
        } else {
            i64::MIN
        }
    }
}

impl Bundle {
    /// A bundle is never empty.
    pub open spec fn wf(&self) -> bool {
        self.0@.len() > 0
    }

    /// Some member with a nonzero value carries this address.
    pub open spec fn has_nonzero_address(&self, addr: Seq<u8>) -> bool {
        exists|t: int|
            0 <= t < self.0@.len() && (#[trigger] self.0@[t]).address@ == addr && self.0@[t].value
                != 0
    }

    /// Builds a bundle from its transactions; an empty list is refused.
    pub fn new(transactions: Vec<BundledTransaction>) -> (r: Option<Bundle>)
        ensures
            transactions@.len() > 0 <==> r is Some,
            r is Some ==> r->Some_0.wf() && r->Some_0.0@ == transactions@,
    {
        if transactions.len() == 0 {
            None
        } else {
            Some(Bundle(transactions))
        }
    }

    /// The transaction at one position, front to back.
    pub fn get(&self, index: usize) -> (r: Option<&BundledTransaction>)
        ensures
            index < self.0@.len() <==> r is Some,
            index < self.0@.len() ==> r == Some(&self.0@[index as int]),
    {
        if index < self.0.len() {
            Some(&self.0[index])
        } else {
            None
        }
    }

    /// The number of transactions.
    pub fn len(&self) -> (r: usize)
        ensures
            r == self.0@.len(),
    {
        self.0.len()
    }

    /// The bundle hash all members share, read from the tail.
    pub fn hash(&self) -> (r: &TransactionId)
        requires
            self.wf(),
        ensures
            r == &self.0@[0].bundle,
    {
        &self.0[0].bundle
    }

    /// The tail transaction: the first of the bundle.
    pub fn tail(&self) -> (r: &BundledTransaction)
        requires
            self.wf(),
        ensures
            r == &self.0@[0],
    {
        &self.0[0]
    }

    /// The head transaction: the last of the bundle.
    pub fn head(&self) -> (r: &BundledTransaction)
        requires
            self.wf(),
        ensures
            r == &self.0@[self.0@.len() - 1],
    {
        &self.0[self.0.len() - 1]
    }

    /// The head's trunk reference.
    pub fn trunk(&self) -> (r: &TransactionId)
        requires
            self.wf(),
        ensures
            r == &self.0@[self.0@.len() - 1].trunk,
    {
        &self.head().trunk
    }

    /// The head's branch reference.
    pub fn branch(&self) -> (r: &TransactionId)
        requires
            self.wf(),
        ensures
            r == &self.0@[self.0@.len() - 1].branch,
    {
        &self.head().branch
    }

    /// The balance change per address over the whole bundle, zero-value
    /// transactions skipped; each address appears at most once, and every
    /// returned address belongs to some member with a nonzero value.
    pub fn ledger_diff(&self) -> (r: Vec<(Vec<u8>, i64)>)
        ensures
            forall|a: int, b: int|
                0 <= a < b < r@.len() ==> (#[trigger] r@[a]).0@ != (#[trigger] r@[b]).0@,
            forall|a: int| 0 <= a < r@.len() ==> self.has_nonzero_address((#[trigger] r@[a]).0@),
    {
        let mut diff: Vec<(Vec<u8>, i64)> = Vec::new();
        let mut i: usize = 0;
        while i < self.0.len()
            invariant
                i <= self.0@.len(),
                forall|a: int, b: int|
                    0 <= a < b < diff@.len() ==> (#[trigger] diff@[a]).0@ != (
                    #[trigger] diff@[b]).0@,
                forall|a: int|
                    0 <= a < diff@.len() ==> self.has_nonzero_address((#[trigger] diff@[a]).0@),
            decreases self.0@.len() - i,
        {
            let tx = &self.0[i];
            if tx.value != 0 {
                proof {
                    assert(*tx == self.0@[i as int]);
                    assert(self.0@[i as int].value != 0);
                }
                let found = find_address(&diff, tx.address.as_slice());
                match found {
                    Some(k) => {
                        let ghost diff0 = diff@;
                        let updated = saturating_add_i64(diff[k].1, tx.value);
                        let entry = diff.remove(k);
                        diff.insert(k, (entry.0, updated));
                        proof {
                            assert(diff@ =~= diff0.update(k as int, (diff0[k as int].0, updated)));
                            assert(forall|a: int|
                                0 <= a < diff@.len() ==> (#[trigger] diff@[a]).0
                                    == diff0[a].0);
                            assert forall|a: int, b: int|
                                0 <= a < b < diff@.len() implies (#[trigger] diff@[a]).0@ != (
                            #[trigger] diff@[b]).0@ by {
                                assert((diff0[a]).0@ != (diff0[b]).0@);
                            }
                            assert forall|a: int|
                                0 <= a < diff@.len() implies self.has_nonzero_address(
                                (#[trigger] diff@[a]).0@,
                            ) by {
                                assert(self.has_nonzero_address((diff0[a]).0@));
                            }
                        }
                    },
                    None => {
                        let mut addr: Vec<u8> = Vec::new();
                        crate::codec::push_slice(&mut addr, tx.address.as_slice());
                        proof {
                            assert(addr@ =~= tx.address@);
                        }
                        let ghost before = diff@;
                        diff.push((addr, tx.value));
                        proof {
                            assert((diff@[diff@.len() - 1]).0@ == self.0@[i as int].address@);
                            assert forall|a: int, b: int|
                                0 <= a < b < diff@.len() implies (#[trigger] diff@[a]).0@ != (
                            #[trigger] diff@[b]).0@ by {
                                if b == diff@.len() - 1 {
                                    assert(diff@[a] == before[a]);
                                    assert(before[a].0@ != tx.address@);
                                } else {
                                    assert(diff@[a] == before[a] && diff@[b] == before[b]);
                                }
                            }
                            assert forall|a: int|
                                0 <= a < diff@.len() implies self.has_nonzero_address(
                                (#[trigger] diff@[a]).0@,
                            ) by {
                                if a < diff@.len() - 1 {
                                    assert(diff@[a] == before[a]);
                                    assert(self.has_nonzero_address((before[a]).0@));
                                } else {
                                    assert((diff@[a]).0@ == self.0@[i as int].address@);
                                    assert(self.has_nonzero_address(self.0@[i as int].address@));
                                }
                            }
                        }
                    },
                }
            }
            i += 1;
        }
        diff
    }
}

/// The position of an address in the running balance list, if present.
fn find_address(diff: &Vec<(Vec<u8>, i64)>, addr: &[u8]) -> (r: Option<usize>)
    ensures
        match r {
            Some(k) => k < diff@.len() && (diff@[k as int]).0@ == addr@,
            None => forall|a: int| 0 <= a < diff@.len() ==> (#[trigger] diff@[a]).0@ != addr@,
        },
{
    let mut k: usize = 0;
    while k < diff.len()
        invariant
            k <= diff@.len(),
            forall|a: int| 0 <= a < k ==> (#[trigger] diff@[a]).0@ != addr@,
        decreases diff@.len() - k,
    {
        if bytes_eq(diff[k].0.as_slice(), addr) {
            return Some(k);
        }
        k += 1;
    }
    None
}

/// Compares two byte slices for equality.
pub fn bytes_eq(a: &[u8], b: &[u8]) -> (r: bool)
    ensures
        r <==> a@ == b@,
{
    if a.len() != b.len() {
        proof {
            assert(a@.len() != b@.len());
        }
        return false;
    }
    let mut i: usize = 0;
    while i < a.len()
        invariant
            a@.len() == b@.len(),
            i <= a@.len(),
            forall|j: int| 0 <= j < i ==> a@[j] == b@[j],
        decreases a@.len() - i,
    {
        if a[i] != b[i] {
            return false;
        }
        i += 1;
    }
    proof {
        assert(a@ =~= b@);
    }
    true
}

} // verus!
