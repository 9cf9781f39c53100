//! The anti-lockout set: administrator-designated subnets that must never
//! be blocked.  Its entries are safety-critical, so validation is strict
//! and an empty result is itself an error — a silently dropped entry could
//! lock the operator out.

use vstd::prelude::*;

use crate::error::{AppError, AppErrorKind};
use crate::network::{Ipv4Net, Ipv6Net, ListNetwork, NetView};
use crate::nftables::builder::{elements_v, prefix_v_of, PrefixV, SetElements};
use crate::subnet::{
    entry_err_msg, entry_ok, parse_from_string, strict_elements_ipv4,
    strict_elements_ipv6, valid_views,
};
use crate::iptrie::minimal_cover_v;
use crate::text::ws_tokens;

verus! {

/// The space-separated anti-lockout entries of one address family.
pub enum AntiLockoutSet {
    IPv4(String),
    IPv6(String),
}

/// What building the anti-lockout set from one family's raw text yields,
/// with `r` abstracted to the views of the produced set elements: the first
/// invalid whitespace-separated entry fails with its own message, a text
/// with no valid entry at all fails as empty, and otherwise the elements
/// are a minimal cover of the valid entries.
pub open spec fn anti_lockout_outcome<T: ListNetwork>(
    s: Seq<char>,
    r: Result<Seq<PrefixV>, AppError>,
) -> bool {
    let ss = ws_tokens(s);
    if s.len() == 0 {
        &&& r is Err
        &&& (r->Err_0).error_kind == AppErrorKind::NoAddressesParsedError
        &&& (r->Err_0).message@ == "the blocklist is empty after parsing"@
    } else if exists|i: int| 0 <= i < ss.len() && !entry_ok::<T>(#[trigger] ss[i]) {
        &&& r is Err
        &&& (r->Err_0).error_kind == AppErrorKind::ParseError
        &&& exists|i: int|
            {
                &&& 0 <= i < ss.len()
                &&& !entry_ok::<T>(#[trigger] ss[i])
                &&& (forall|k: int| 0 <= k < i ==> entry_ok::<T>(#[trigger] ss[k]))
                &&& (r->Err_0).message@ == entry_err_msg::<T>(ss[i])
            }
    } else if valid_views::<T>(ss).len() == 0 {
        &&& r is Err
        &&& (r->Err_0).error_kind == AppErrorKind::NoAddressesParsedError
        &&& (r->Err_0).message@ == "the blocklist is empty after parsing"@
    } else {
        &&& r is Ok
        &&& exists|d: Seq<NetView>|
            {
                &&& #[trigger] minimal_cover_v(valid_views::<T>(ss), d)
                &&& r->Ok_0 == d.map_values(|v: NetView| prefix_v_of(v))
            }
    }
}

impl AntiLockoutSet {
    /// Parses, validates strictly, deduplicates and renders the family's
    /// anti-lockout entries as set elements.
    pub fn build_anti_lockout(self) -> (r: Result<SetElements, AppError>)
        ensures
            match self {
                AntiLockoutSet::IPv4(endpoint) => anti_lockout_outcome::<Ipv4Net>(
                    endpoint@,
                    match r {
                        Result::Ok(e) => Result::Ok(elements_v(e@)),
                        Result::Err(e) => Result::Err(e),
                    },
                ),
                AntiLockoutSet::IPv6(endpoint) => anti_lockout_outcome::<Ipv6Net>(
                    endpoint@,
                    match r {
                        Result::Ok(e) => Result::Ok(elements_v(e@)),
                        Result::Err(e) => Result::Err(e),
                    },
                ),
            },
    {
        match self {
            AntiLockoutSet::IPv4(endpoint) => {
                let ips = match parse_from_string(Some(endpoint.as_str()), None) {
                    Some(ips) => ips,
                    None => {
                        return Err(
                            AppError::new(
                                AppErrorKind::NoAddressesParsedError,
                                "the blocklist is empty after parsing",
                            ),
                        );
                    },
                };
                match strict_elements_ipv4(ips) {
                    Ok(Some(elems)) => Ok(elems),
                    Ok(None) => Err(
                        AppError::new(
                            AppErrorKind::NoAddressesParsedError,
                            "the blocklist is empty after parsing",
                        ),
                    ),
                    Err(e) => Err(e),
                }
            },
            AntiLockoutSet::IPv6(endpoint) => {
                let ips = match parse_from_string(Some(endpoint.as_str()), None) {
                    Some(ips) => ips,
                    None => {
                        return Err(
                            AppError::new(
                                AppErrorKind::NoAddressesParsedError,
                                "the blocklist is empty after parsing",
                            ),
                        );
                    },
                };
                match strict_elements_ipv6(ips) {
                    Ok(Some(elems)) => Ok(elems),
                    Ok(None) => Err(
                        AppError::new(
                            AppErrorKind::NoAddressesParsedError,
                            "the blocklist is empty after parsing",
                        ),
                    ),
                    Err(e) => Err(e),
                }
            },
        }
    }
}

} // verus!
