//! The subnet validator: turns raw blocklist text into validated,
//! deduplicated subnets and finally into set elements, one stage per type.
//!
//! Strictness policy: anti-lockout and custom sets are administrator-
//! controlled and safety-critical, so a malformed or non-aligned entry
//! aborts the whole batch; ordinary fetched blocklists are noisy, so a bad
//! entry is dropped and the rest continues.

use vstd::prelude::*;

use crate::error::{AppError, AppErrorKind};
use crate::iptrie::{
    deduplicate, lemma_minimal_cover_views, minimal_cover, minimal_cover_v,
};
use crate::network::{aligned, net_wf, Ipv4Net, Ipv6Net, ListNetwork, NetView};
use crate::nftables::builder::{elements_v, get_nft_expressions, prefix_v_of, PrefixV, SetElements};
use crate::text::{
    delim_tokens, dec_str, split_delim_tokens, split_ws_tokens, trim_s, trim_str, ws_tokens,
};

verus! {

/// Whether one raw entry is valid for family `T`: it parses, and its
/// address is aligned to its prefix.
pub open spec fn entry_ok<T: ListNetwork>(s: Seq<char>) -> bool {
    T::parse_ok(s) && aligned(T::parse_view(s))
}

/// The CIDR text of a subnet as parsed: address, slash, prefix length.
pub open spec fn cidr_text_v(v: NetView) -> Seq<char> {
    v.addr_text + seq!['/'] + dec_str(v.prefix)
}

/// The message rejecting an entry whose address has host bits set.
pub open spec fn not_network_msg(v: NetView) -> Seq<char> {
    "invalid ip: "@ + cidr_text_v(v) + "; not a network"@
}

/// The message with which family `T` rejects one raw entry.
pub open spec fn entry_err_msg<T: ListNetwork>(s: Seq<char>) -> Seq<char> {
    if !T::parse_ok(s) {
        T::parse_err(s)
    } else {
        not_network_msg(T::parse_view(s))
    }
}

/// The views of the valid entries of a batch, in input order.
pub open spec fn valid_views<T: ListNetwork>(ss: Seq<Seq<char>>) -> Seq<NetView>
    decreases ss.len(),
{
    if ss.len() == 0 {
        Seq::empty()
    } else {
        valid_views::<T>(ss.drop_last()) + (if entry_ok::<T>(ss.last()) {
            seq![T::parse_view(ss.last())]
        } else {
            Seq::empty()
        })
    }
}

/// What validating a batch of raw entries yields, with `r` abstracted to
/// the views of the surviving subnets: in strict mode the first invalid
/// entry fails the whole batch with its own message; otherwise the valid
/// entries survive in order, `None` standing for none at all.
pub open spec fn validate_outcome<T: ListNetwork>(
    ss: Seq<Seq<char>>,
    strict: bool,
    r: Result<Option<Seq<NetView>>, AppError>,
) -> bool {
    &&& (r is Err <==> (strict && exists|i: int| 0 <= i < ss.len() && !entry_ok::<T>(
        #[trigger] ss[i],
    )))
    &&& (r is Err ==> (r->Err_0).error_kind == AppErrorKind::ParseError && exists|i: int|
        {
            &&& 0 <= i < ss.len()
            &&& !entry_ok::<T>(#[trigger] ss[i])
            &&& (forall|k: int| 0 <= k < i ==> entry_ok::<T>(#[trigger] ss[k]))
            &&& (r->Err_0).message@ == entry_err_msg::<T>(ss[i])
        })
    &&& (r is Ok ==> match r->Ok_0 {
        Option::Some(views) => views == valid_views::<T>(ss) && views.len() > 0,
        Option::None => valid_views::<T>(ss).len() == 0,
    })
}

/// Validates a batch of raw subnet strings for family `T`.  In strict mode
/// the first entry that does not parse, or whose address has host bits set,
/// fails the batch; in lenient mode such entries are dropped.  Survivors
/// are well-formed, network-aligned, and in input order; a batch with no
/// survivors yields `None`.
pub fn validate_subnets<T: ListNetwork>(ips: &Vec<String>, strict: bool) -> (r: Result<
    Option<Vec<T>>,
    AppError,
>)
    ensures
        validate_outcome::<T>(
            ips.deep_view(),
            strict,
            match r {
                Result::Ok(Option::Some(vs)) => Result::Ok(
                    Option::Some(vs@.map_values(|x: T| x@)),
                ),
                Result::Ok(Option::None) => Result::Ok(Option::None),
                Result::Err(e) => Result::Err(e),
            },
        ),
        r is Ok ==> match r->Ok_0 {
            Option::Some(vs) => forall|j: int|
                0 <= j < vs@.len() ==> net_wf(#[trigger] vs@[j]@) && aligned(vs@[j]@),
            Option::None => true,
        },
{
    let ghost ss = ips.deep_view();
    let mut parsed: Vec<T> = Vec::new();
    let mut i: usize = 0;
    proof {
        assert(parsed@.map_values(|x: T| x@) =~= valid_views::<T>(ss.take(0)));
    }
    while i < ips.len()
        invariant
            ss == ips.deep_view(),
            i <= ips@.len(),
            ss.len() == ips@.len(),
            parsed@.map_values(|x: T| x@) == valid_views::<T>(ss.take(i as int)),
            strict ==> forall|k: int| 0 <= k < i ==> entry_ok::<T>(#[trigger] ss[k]),
            forall|j: int| 0 <= j < parsed@.len() ==> net_wf(#[trigger] parsed@[j]@) && aligned(
                parsed@[j]@,
            ),
        decreases ips@.len() - i,
    {
        let ghost prev = parsed@.map_values(|x: T| x@);
        proof {
            assert(ss.take(i + 1).drop_last() =~= ss.take(i as int));
            assert(ss.take(i + 1).last() == ss[i as int]);
        }
        let entry: &String = &ips[i];
        proof {
            assert(entry@ == ss[i as int]);
        }
        match T::parse(entry.as_str()) {
            Ok(net) => {
                if net.is_network() {
                    parsed.push(net);
                    proof {
                        assert(parsed@.map_values(|x: T| x@) =~= prev.push(net@));
                        assert(prev.push(net@) =~= valid_views::<T>(ss.take(i + 1)));
                    }
                } else if strict {
                    let cidr = net.cidr_string();
                    let msg = String::from_str("invalid ip: ").concat(cidr.as_str()).concat(
                        "; not a network",
                    );
                    let e = AppError { error_kind: AppErrorKind::ParseError, message: msg };
                    proof {
                        assert(!entry_ok::<T>(ss[i as int]));
                        assert(e.message@ == entry_err_msg::<T>(ss[i as int]));
                    }
                    return Err(e);
                } else {
                    proof {
                        assert(parsed@.map_values(|x: T| x@) =~= valid_views::<T>(
                            ss.take(i + 1),
                        ));
                    }
                }
            },
            Err(m) => {
                if strict {
                    let e = AppError { error_kind: AppErrorKind::ParseError, message: m };
                    proof {
                        assert(!entry_ok::<T>(ss[i as int]));
                    }
                    return Err(e);
                }
                proof {
                    assert(parsed@.map_values(|x: T| x@) =~= valid_views::<T>(ss.take(i + 1)));
                }
            },
        }
        i = i + 1;
    }
    proof {
        assert(ss.take(ss.len() as int) =~= ss);
    }
    if parsed.len() == 0 {
        Ok(None)
    } else {
        Ok(Some(parsed))
    }
}

/// What the strict pipeline (validate, deduplicate, transform) yields on a
/// batch of raw entries, with `r` abstracted to the views of the produced
/// set elements: the first invalid entry fails the batch with its own
/// message; otherwise the elements are a minimal cover of the valid
/// entries, `None` standing for no valid entry at all.
pub open spec fn strict_set_outcome<T: ListNetwork>(
    ss: Seq<Seq<char>>,
    r: Result<Option<Seq<PrefixV>>, AppError>,
) -> bool {
    &&& (r is Err <==> exists|i: int| 0 <= i < ss.len() && !entry_ok::<T>(#[trigger] ss[i]))
    &&& (r is Err ==> (r->Err_0).error_kind == AppErrorKind::ParseError && exists|i: int|
        {
            &&& 0 <= i < ss.len()
            &&& !entry_ok::<T>(#[trigger] ss[i])
            &&& (forall|k: int| 0 <= k < i ==> entry_ok::<T>(#[trigger] ss[k]))
            &&& (r->Err_0).message@ == entry_err_msg::<T>(ss[i])
        })
    &&& (r is Ok ==> match r->Ok_0 {
        Option::None => valid_views::<T>(ss).len() == 0,
        Option::Some(elems) => valid_views::<T>(ss).len() > 0 && exists|d: Seq<NetView>|
            {
                &&& #[trigger] minimal_cover_v(valid_views::<T>(ss), d)
                &&& elems == d.map_values(|v: NetView| prefix_v_of(v))
            },
    })
}

/// The views of the set elements a pipeline stage produced.
pub open spec fn elements_outcome_v(r: Result<Option<SetElements>, AppError>) -> Result<
    Option<Seq<PrefixV>>,
    AppError,
> {
    match r {
        Result::Ok(Option::Some(e)) => Result::Ok(Option::Some(elements_v(e@))),
        Result::Ok(Option::None) => Result::Ok(Option::None),
        Result::Err(e) => Result::Err(e),
    }
}

/// Runs the strict pipeline on raw IPv4 entries: validate every entry,
/// deduplicate the survivors, render them as set elements.
pub(crate) fn strict_elements_ipv4(ips: Vec<String>) -> (r: Result<Option<SetElements>, AppError>)
    ensures
        strict_set_outcome::<Ipv4Net>(ips.deep_view(), elements_outcome_v(r)),
{
    let ghost ss = ips.deep_view();
    let list = SubnetList::IPv4(ips);
    let validated = match list.validate_blocklist(true) {
        Ok(v) => v,
        Err(e) => {
            return Err(e);
        },
    };
    let ghost gval = validated;
    let deduped = match validated.deduplicate() {
        Ok(d) => d,
        Err(e) => {
            return Err(e);
        },
    };
    let ghost gded = deduped;
    let exprs = deduped.transform_to_nft_expressions();
    let ghost gexp = exprs;
    let elems = exprs.get_elements();
    proof {
        match gval {
            ValidatedSubnetList::IPv4(Option::Some(vs)) => {
                match gded {
                    DeduplicatedSubnetList::IPv4(Option::Some(d)) => {
                        lemma_minimal_cover_views(vs@, d@);
                        let dv = d@.map_values(|x: Ipv4Net| x@);
                        match gexp {
                            NftExpressionSubnetList::IPv4(Option::Some(e)) => {
                                assert(elements_v(e@) =~= dv.map_values(
                                    |v: NetView| prefix_v_of(v),
                                ));
                                assert(minimal_cover_v(valid_views::<Ipv4Net>(ss), dv));
                            },
                            _ => {
                                assert(false);
                            },
                        }
                    },
                    _ => {
                        assert(false);
                    },
                }
            },
            ValidatedSubnetList::IPv4(Option::None) => {},
            _ => {
                assert(false);
            },
        }
    }
    Ok(elems)
}

/// Runs the strict pipeline on raw IPv6 entries: validate every entry,
/// deduplicate the survivors, render them as set elements.
pub(crate) fn strict_elements_ipv6(ips: Vec<String>) -> (r: Result<Option<SetElements>, AppError>)
    ensures
        strict_set_outcome::<Ipv6Net>(ips.deep_view(), elements_outcome_v(r)),
{
    let ghost ss = ips.deep_view();
    let list = SubnetList::IPv6(ips);
    let validated = match list.validate_blocklist(true) {
        Ok(v) => v,
        Err(e) => {
            return Err(e);
        },
    };
    let ghost gval = validated;
    let deduped = match validated.deduplicate() {
        Ok(d) => d,
        Err(e) => {
            return Err(e);
        },
    };
    let ghost gded = deduped;
    let exprs = deduped.transform_to_nft_expressions();
    let ghost gexp = exprs;
    let elems = exprs.get_elements();
    proof {
        match gval {
            ValidatedSubnetList::IPv6(Option::Some(vs)) => {
                match gded {
                    DeduplicatedSubnetList::IPv6(Option::Some(d)) => {
                        lemma_minimal_cover_views(vs@, d@);
                        let dv = d@.map_values(|x: Ipv6Net| x@);
                        match gexp {
                            NftExpressionSubnetList::IPv6(Option::Some(e)) => {
                                assert(elements_v(e@) =~= dv.map_values(
                                    |v: NetView| prefix_v_of(v),
                                ));
                                assert(minimal_cover_v(valid_views::<Ipv6Net>(ss), dv));
                            },
                            _ => {
                                assert(false);
                            },
                        }
                    },
                    _ => {
                        assert(false);
                    },
                }
            },
            ValidatedSubnetList::IPv6(Option::None) => {},
            _ => {
                assert(false);
            },
        }
    }
    Ok(elems)
}

/// A collection of raw subnet strings of one address family.
pub enum SubnetList {
    /// Raw IPv4 entries.
    IPv4(Vec<String>),
    /// Raw IPv6 entries.
    IPv6(Vec<String>),
}

/// A batch of validated subnets of one family; `None` when no entry
/// survived validation.
pub enum ValidatedSubnetList {
    IPv4(Option<Vec<Ipv4Net>>),
    IPv6(Option<Vec<Ipv6Net>>),
}

/// A batch of deduplicated subnets of one family.
pub enum DeduplicatedSubnetList {
    IPv4(Option<Vec<Ipv4Net>>),
    IPv6(Option<Vec<Ipv6Net>>),
}

/// Set elements of one family, ready for a ruleset document.
pub enum NftExpressionSubnetList {
    IPv4(Option<SetElements>),
    IPv6(Option<SetElements>),
}

impl SubnetList {
    /// Validates the raw entries under the given strictness, keeping the
    /// address family.
    pub fn validate_blocklist(self, strict: bool) -> (r: Result<ValidatedSubnetList, AppError>)
        ensures
            match self {
                SubnetList::IPv4(raw) => {
                    &&& (r is Ok ==> r->Ok_0 is IPv4)
                    &&& validate_outcome::<Ipv4Net>(
                        raw.deep_view(),
                        strict,
                        match r {
                            Result::Ok(ValidatedSubnetList::IPv4(Option::Some(vs))) => Result::Ok(
                                Option::Some(vs@.map_values(|x: Ipv4Net| x@)),
                            ),
                            Result::Ok(_) => Result::Ok(Option::None),
                            Result::Err(e) => Result::Err(e),
                        },
                    )
                },
                SubnetList::IPv6(raw) => {
                    &&& (r is Ok ==> r->Ok_0 is IPv6)
                    &&& validate_outcome::<Ipv6Net>(
                        raw.deep_view(),
                        strict,
                        match r {
                            Result::Ok(ValidatedSubnetList::IPv6(Option::Some(vs))) => Result::Ok(
                                Option::Some(vs@.map_values(|x: Ipv6Net| x@)),
                            ),
                            Result::Ok(_) => Result::Ok(Option::None),
                            Result::Err(e) => Result::Err(e),
                        },
                    )
                },
            },
            r is Ok ==> r->Ok_0.wf(),
    {
        match self {
            SubnetList::IPv4(parsed_ips) => {
                let vs = validate_subnets::<Ipv4Net>(&parsed_ips, strict)?;
                Ok(ValidatedSubnetList::IPv4(vs))
            },
            SubnetList::IPv6(parsed_ips) => {
                let vs = validate_subnets::<Ipv6Net>(&parsed_ips, strict)?;
                Ok(ValidatedSubnetList::IPv6(vs))
            },
        }
    }

    /// Hands back the raw entries.
    pub fn get_strings(self) -> (r: Vec<String>)
        ensures
            match self {
                SubnetList::IPv4(ips) => r == ips,
                SubnetList::IPv6(ips) => r == ips,
            },
    {
        match self {
            SubnetList::IPv4(ips) => ips,
            SubnetList::IPv6(ips) => ips,
        }
    }
}

impl ValidatedSubnetList {
    /// Every held subnet is well-formed.
    pub open spec fn wf(&self) -> bool {
        match self {
            ValidatedSubnetList::IPv4(Option::Some(v)) => forall|i: int|
                0 <= i < v@.len() ==> net_wf(#[trigger] v@[i]@),
            ValidatedSubnetList::IPv6(Option::Some(v)) => forall|i: int|
                0 <= i < v@.len() ==> net_wf(#[trigger] v@[i]@),
            _ => true,
        }
    }

    /// Deduplicates the validated subnets into the minimal covering set.
    /// The address family is kept: IPv4 and IPv6 subnets are never compared
    /// or merged with one another.
    pub fn deduplicate(self) -> (r: Result<DeduplicatedSubnetList, AppError>)
        requires
            self.wf(),
        ensures
            r is Ok,
            match (self, r->Ok_0) {
                (
                    ValidatedSubnetList::IPv4(Option::Some(v)),
                    DeduplicatedSubnetList::IPv4(Option::Some(d)),
                ) => minimal_cover(v@, d@) && forall|i: int|
                    0 <= i < d@.len() ==> net_wf(#[trigger] d@[i]@),
                (
                    ValidatedSubnetList::IPv6(Option::Some(v)),
                    DeduplicatedSubnetList::IPv6(Option::Some(d)),
                ) => minimal_cover(v@, d@) && forall|i: int|
                    0 <= i < d@.len() ==> net_wf(#[trigger] d@[i]@),
                (
                    ValidatedSubnetList::IPv4(Option::None),
                    DeduplicatedSubnetList::IPv4(Option::None),
                ) => true,
                (
                    ValidatedSubnetList::IPv6(Option::None),
                    DeduplicatedSubnetList::IPv6(Option::None),
                ) => true,
                _ => false,
            },
    {
        match self {
            ValidatedSubnetList::IPv4(Some(ips)) => Ok(
                DeduplicatedSubnetList::IPv4(Some(deduplicate(ips))),
            ),
            ValidatedSubnetList::IPv4(None) => Ok(DeduplicatedSubnetList::IPv4(None)),
            ValidatedSubnetList::IPv6(Some(ips)) => Ok(
                DeduplicatedSubnetList::IPv6(Some(deduplicate(ips))),
            ),
            ValidatedSubnetList::IPv6(None) => Ok(DeduplicatedSubnetList::IPv6(None)),
        }
    }
}

impl DeduplicatedSubnetList {
    /// Every held subnet is well-formed.
    pub open spec fn wf(&self) -> bool {
        match self {
            DeduplicatedSubnetList::IPv4(Option::Some(v)) => forall|i: int|
                0 <= i < v@.len() ==> net_wf(#[trigger] v@[i]@),
            DeduplicatedSubnetList::IPv6(Option::Some(v)) => forall|i: int|
                0 <= i < v@.len() ==> net_wf(#[trigger] v@[i]@),
            _ => true,
        }
    }

    /// Turns the deduplicated subnets into set elements, one per subnet, in
    /// order, keeping the address family.
    pub fn transform_to_nft_expressions(self) -> (r: NftExpressionSubnetList)
        requires
            self.wf(),
        ensures
            match (self, r) {
                (
                    DeduplicatedSubnetList::IPv4(Option::Some(v)),
                    NftExpressionSubnetList::IPv4(Option::Some(e)),
                ) => elements_v(e@) == v@.map_values(|x: Ipv4Net| prefix_v_of(x@)),
                (
                    DeduplicatedSubnetList::IPv6(Option::Some(v)),
                    NftExpressionSubnetList::IPv6(Option::Some(e)),
                ) => elements_v(e@) == v@.map_values(|x: Ipv6Net| prefix_v_of(x@)),
                (
                    DeduplicatedSubnetList::IPv4(Option::None),
                    NftExpressionSubnetList::IPv4(Option::None),
                ) => true,
                (
                    DeduplicatedSubnetList::IPv6(Option::None),
                    NftExpressionSubnetList::IPv6(Option::None),
                ) => true,
                _ => false,
            },
    {
        match self {
            DeduplicatedSubnetList::IPv4(ips) => NftExpressionSubnetList::IPv4(
                get_nft_expressions(ips),
            ),
            DeduplicatedSubnetList::IPv6(ips) => NftExpressionSubnetList::IPv6(
                get_nft_expressions(ips),
            ),
        }
    }
}

impl NftExpressionSubnetList {
    /// Hands back the set elements, whichever the family.
    pub fn get_elements(self) -> (r: Option<SetElements>)
        ensures
            match self {
                NftExpressionSubnetList::IPv4(e) => r == e,
                NftExpressionSubnetList::IPv6(e) => r == e,
            },
    {
        match self {
            NftExpressionSubnetList::IPv4(exp) => exp,
            NftExpressionSubnetList::IPv6(exp) => exp,
        }
    }
}

/// Splits one configuration or blocklist string into raw entries: by
/// whitespace when no delimiter is configured, else at each occurrence of
/// the delimiter with every entry trimmed.  Empty or absent input yields
/// `None`.
pub fn parse_from_string(data: Option<&str>, split_string: Option<&str>) -> (r: Option<
    Vec<String>,
>)
    requires
        match split_string {
            Option::Some(d) => d@.len() > 0,
            Option::None => true,
        },
    ensures
        match data {
            Option::None => r is None,
            Option::Some(s) => {
                if s@.len() == 0 {
                    r is None
                } else {
                    r is Some && (r->Some_0).deep_view() == (match split_string {
                        Option::None => ws_tokens(s@),
                        Option::Some(d) => delim_tokens(s@, d@).map_values(
                            |t: Seq<char>| trim_s(t),
                        ),
                    })
                }
            },
        },
{
    match data {
        None => None,
        Some(s) => {
            if s.is_empty() {
                return None;
            }
            match split_string {
                None => Some(split_ws_tokens(s)),
                Some(d) => {
                    let toks = split_delim_tokens(s, d);
                    let ghost raw = toks.deep_view();
                    let mut out: Vec<String> = Vec::new();
                    let mut i: usize = 0;
                    while i < toks.len()
                        invariant
                            raw == toks.deep_view(),
                            i <= toks@.len(),
                            raw.len() == toks@.len(),
                            out@.len() == i,
                            forall|k: int| 0 <= k < i ==> out@[k]@ == trim_s(raw[k]),
                        decreases toks@.len() - i,
                    {
                        let t = trim_str((&toks[i]).as_str());
                        proof {
                            assert(toks@[i as int]@ == raw[i as int]);
                        }
                        out.push(t);
                        i = i + 1;
                    }
                    proof {
                        assert(out.deep_view() =~= raw.map_values(|t: Seq<char>| trim_s(t)));
                    }
                    Some(out)
                },
            }
        },
    }
}

} // verus!
