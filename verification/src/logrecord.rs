//! Typed clustered-log records and their grouping by cluster number.

use vstd::prelude::*;
use std::collections::HashMap;
use vstd::std_specs::hash::{
    axiom_random_state_builds_valid_hashers, axiom_u8_obeys_hash_table_key_model,
};

verus! {

/// One classified log row.
#[derive(Debug)]
pub struct ClusteredLog {
    pub ip: String,
    pub time: String,
    pub method: String,
    pub url: String,
    pub protocol: String,
    pub status: u16,
    pub size: u64,
    pub referrer: String,
    pub user_agent: String,
    pub cluster: u8,
}

impl Clone for ClusteredLog {
    /// A field-for-field copy.
    fn clone(&self) -> (r: Self)
        ensures
            r == *self,
    {
        ClusteredLog {
            ip: self.ip.clone(),
            time: self.time.clone(),
            method: self.method.clone(),
            url: self.url.clone(),
            protocol: self.protocol.clone(),
            status: self.status,
            size: self.size,
            referrer: self.referrer.clone(),
            user_agent: self.user_agent.clone(),
            cluster: self.cluster,
        }
    }
}

/// The records with this cluster number, in input order.
pub open spec fn logs_with(data: Seq<ClusteredLog>, k: u8) -> Seq<ClusteredLog>
    decreases data.len(),
{
    if data.len() == 0 {
        Seq::empty()
    } else {
        let p = logs_with(data.drop_last(), k);
        if data.last().cluster == k {
            p.push(data.last())
        } else {
            p
        }
    }
}

/// Group the records by their cluster number: the map holds exactly the
/// numbers that occur, each with its records in input order.
pub fn group_by_cluster(data: &Vec<ClusteredLog>) -> (r: HashMap<u8, Vec<ClusteredLog>>)
    ensures
        forall|k: u8| r@.contains_key(k) <==> logs_with(data@, k).len() > 0,
        forall|k: u8| #[trigger] r@.contains_key(k) ==> r@[k]@ == logs_with(data@, k),
{
    broadcast use axiom_random_state_builds_valid_hashers, axiom_u8_obeys_hash_table_key_model;

    let mut grouped: HashMap<u8, Vec<ClusteredLog>> = HashMap::new();
    let mut i: usize = 0;
    while i < data.len()
        invariant
            vstd::std_specs::hash::obeys_key_model::<u8>(),
            vstd::std_specs::hash::builds_valid_hashers::<std::hash::RandomState>(),
            i <= data@.len(),
            forall|k: u8|
                grouped@.contains_key(k) <==> logs_with(data@.subrange(0, i as int), k).len() > 0,
            forall|k: u8| #[trigger]
                grouped@.contains_key(k) ==> grouped@[k]@ == logs_with(
                    data@.subrange(0, i as int),
                    k,
                ),
        decreases data.len() - i,
    {
        let log = &data[i];
        let k = log.cluster;
        let mut bucket: Vec<ClusteredLog> = match grouped.remove(&k) {
            Some(v) => v,
            None => Vec::new(),
        };
        proof {
            if logs_with(data@.subrange(0, i as int), k).len() > 0 {
                assert(bucket@ == logs_with(data@.subrange(0, i as int), k));
            } else {
                assert(bucket@ =~= logs_with(data@.subrange(0, i as int), k));
            }
        }
        bucket.push(log.clone());
        grouped.insert(k, bucket);
        proof {
            let pre = data@.subrange(0, i as int);
            let cur = data@.subrange(0, i + 1);
            assert(cur.drop_last() =~= pre);
            assert(cur.last() == data@[i as int]);
            assert forall|k2: u8|
                grouped@.contains_key(k2) <==> logs_with(cur, k2).len() > 0 by {
                if k2 != k {
                    assert(logs_with(cur, k2) == logs_with(pre, k2));
                } else {
                    assert(logs_with(cur, k) == logs_with(pre, k).push(data@[i as int]));
                }
            }
            assert forall|k2: u8| #[trigger]
                grouped@.contains_key(k2) implies grouped@[k2]@ == logs_with(cur, k2) by {
                if k2 != k {
                    assert(logs_with(cur, k2) == logs_with(pre, k2));
                } else {
                    assert(logs_with(cur, k) == logs_with(pre, k).push(data@[i as int]));
                    assert(grouped@[k]@ =~= logs_with(pre, k).push(data@[i as int]));
                }
            }
        }
        i = i + 1;
    }
    proof {
        assert(data@.subrange(0, data@.len() as int) =~= data@);
    }
    grouped
}

} // verus!
