//! Deployment classification: a transaction is deployment-related iff the
//! fixed identifier of the upgradeable-loader system program appears among
//! its account keys. A necessary-but-not-sufficient heuristic, applied
//! uniformly; classification is total and never fails.
use vstd::prelude::*;

verus! {

use crate::model::{TransactionRecord, TransactionRecordModel};

/// The fixed base58 identifier of the upgradeable-loader system program.
pub open spec fn spec_loader_id() -> Seq<char> {
    "BPFLoaderUpgradeab1e11111111111111111111111"@
}

/// The fixed identifier of the upgradeable-loader system program.
pub fn upgradeable_loader_id() -> (r: &'static str)
    ensures
        r@ == spec_loader_id(),
{
    "BPFLoaderUpgradeab1e11111111111111111111111"
}

/// A record is deployment-related iff the loader identifier is among its
/// account keys. A record without keys (including one whose message shape
/// could not be parsed) is not.
pub open spec fn spec_is_deployment(r: TransactionRecordModel) -> bool {
    r.account_keys.contains(spec_loader_id())
}

/// Classify one fetched record.
pub fn is_deployment(record: &TransactionRecord) -> (b: bool)
    ensures
        b == spec_is_deployment(record@),
{
    let loader: String = upgradeable_loader_id().to_owned();
    let n = record.account_keys.len();
    let mut i: usize = 0;
    while i < n
        invariant
            n == record.account_keys.len(),
            i <= n,
            loader@ == spec_loader_id(),
            forall|j: int| 0 <= j < i as int ==> record.account_keys@[j]@ != spec_loader_id(),
        decreases n - i,
    {
        if record.account_keys[i] == loader {
            assert(record@.account_keys[i as int] == spec_loader_id());
            return true;
        }
        i += 1;
    }
    proof {
        assert forall|k: int| 0 <= k < record@.account_keys.len() implies record@.account_keys[k]
            != spec_loader_id() by {
            assert(record@.account_keys[k] == record.account_keys@[k]@);
        }
    }
    false
}

/// Keep exactly the deployment-related records, in order.
pub fn classify_deployments(records: Vec<TransactionRecord>) -> (kept: Vec<TransactionRecord>)
    ensures
        kept@.map_values(|t: TransactionRecord| t@) == records@.map_values(
            |t: TransactionRecord| t@,
        ).filter(|m: TransactionRecordModel| spec_is_deployment(m)),
{
    let ghost all = records@.map_values(|t: TransactionRecord| t@);
    let mut kept: Vec<TransactionRecord> = Vec::new();
    let mut i: usize = 0;
    proof {
        reveal(Seq::<_>::filter);
        assert(all.take(0) =~= Seq::<TransactionRecordModel>::empty());
        assert(kept@.map_values(|t: TransactionRecord| t@) =~= all.take(0).filter(
            |m: TransactionRecordModel| spec_is_deployment(m),
        ));
    }
    while i < records.len()
        invariant
            i <= records.len(),
            all == records@.map_values(|t: TransactionRecord| t@),
            kept@.map_values(|t: TransactionRecord| t@) == all.take(i as int).filter(
                |m: TransactionRecordModel| spec_is_deployment(m),
            ),
        decreases records.len() - i,
    {
        let ghost kept_pre = kept@;
        let deployment = is_deployment(&records[i]);
        if deployment {
            let r = records[i].duplicate();
            let ghost rm = r@;
            kept.push(r);
            proof {
                assert(rm == all[i as int]);
                assert(kept@.map_values(|t: TransactionRecord| t@) =~= kept_pre.map_values(
                    |t: TransactionRecord| t@,
                ).push(rm));
            }
        }
        proof {
            reveal(Seq::<_>::filter);
            assert(all.take(i as int + 1).drop_last() =~= all.take(i as int));
            assert(all.take(i as int + 1).last() == all[i as int]);
            assert(all[i as int] == records@[i as int]@);
        }
        i += 1;
    }
    proof {
        assert(all.take(records@.len() as int) =~= all);
    }
    kept
}

} // verus!
