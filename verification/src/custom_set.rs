//! A named, administrator-controlled set of subnets for both families,
//! validated strictly: one malformed entry fails the whole set.

use vstd::prelude::*;

use crate::error::AppError;
use crate::network::{Ipv4Net, Ipv6Net};
use crate::nftables::builder::SetElements;
use crate::subnet::{
    elements_outcome_v, entry_ok, strict_elements_ipv4, strict_elements_ipv6, strict_set_outcome,
};

verus! {

/// A named set with its validated, deduplicated elements per family;
/// `None` where that family was not configured or had no valid entry.
#[derive(Debug)]
pub struct CustomSet {
    pub set_name: String,
    pub ipv4_elements: Option<SetElements>,
    pub ipv6_elements: Option<SetElements>,
}

/// Whether a family's raw entries hold one that the strict pipeline
/// rejects.
pub open spec fn has_bad_entry<T: crate::network::ListNetwork>(data: Option<Vec<String>>) -> bool {
    match data {
        Option::Some(v) => exists|i: int|
            0 <= i < v.deep_view().len() && !entry_ok::<T>(#[trigger] v.deep_view()[i]),
        Option::None => false,
    }
}

impl CustomSet {
    /// Builds a named set from raw entries per family, strictly: the first
    /// invalid IPv4 entry fails the whole set with its own message, then
    /// the first invalid IPv6 entry; an unconfigured family yields no
    /// elements.
    pub fn new(set_name: String, ipv4_data: Option<Vec<String>>, ipv6_data: Option<Vec<String>>) -> (r:
        Result<Self, AppError>)
        ensures
            r is Ok ==> {
                let cs = r->Ok_0;
                &&& cs.set_name@ == set_name@
                &&& (match ipv4_data {
                    Option::Some(v) => strict_set_outcome::<Ipv4Net>(
                        v.deep_view(),
                        elements_outcome_v(Result::Ok(cs.ipv4_elements)),
                    ),
                    Option::None => cs.ipv4_elements is None,
                })
                &&& (match ipv6_data {
                    Option::Some(v) => strict_set_outcome::<Ipv6Net>(
                        v.deep_view(),
                        elements_outcome_v(Result::Ok(cs.ipv6_elements)),
                    ),
                    Option::None => cs.ipv6_elements is None,
                })
            },
            r is Err <==> (has_bad_entry::<Ipv4Net>(ipv4_data) || has_bad_entry::<Ipv6Net>(
                ipv6_data,
            )),
            r is Err ==> (if has_bad_entry::<Ipv4Net>(ipv4_data) {
                match ipv4_data {
                    Option::Some(v) => strict_set_outcome::<Ipv4Net>(
                        v.deep_view(),
                        Result::Err(r->Err_0),
                    ),
                    Option::None => false,
                }
            } else {
                match ipv6_data {
                    Option::Some(v) => strict_set_outcome::<Ipv6Net>(
                        v.deep_view(),
                        Result::Err(r->Err_0),
                    ),
                    Option::None => false,
                }
            }),
    {
        let ipv4_elements = match ipv4_data {
            None => None,
            Some(ips) => match strict_elements_ipv4(ips) {
                Ok(e) => e,
                Err(e) => {
                    return Err(e);
                },
            },
        };
        let ipv6_elements = match ipv6_data {
            None => None,
            Some(ips) => match strict_elements_ipv6(ips) {
                Ok(e) => e,
                Err(e) => {
                    return Err(e);
                },
            },
        };
        Ok(Self { set_name, ipv4_elements, ipv6_elements })
    }
}

} // verus!
