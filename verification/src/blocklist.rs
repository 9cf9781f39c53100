//! The fetched blocklist configuration and its lenient processing: fetched
//! text is tokenized, validated with bad entries dropped, deduplicated and
//! rendered as set elements.  Fetching itself is the caller's concern; this
//! module computes from the fetched text alone.

use vstd::prelude::*;

use crate::error::{AppError, AppErrorKind};
use crate::iptrie::minimal_cover_v;
use crate::network::{Ipv4Net, Ipv6Net, ListNetwork, NetView};
use crate::nftables::builder::{elements_v, get_nft_expressions, prefix_v_of, PrefixV, SetElements};
use crate::subnet::{valid_views, validate_subnets, parse_from_string};
use crate::text::{delim_tokens, trim_s, ws_tokens};
use crate::iptrie::{deduplicate, lemma_minimal_cover_views};

verus! {

/// What `serde_json::from_str` decides of the given text as a JSON object
/// of string keys and string values: acceptance, or the error's message.
pub uninterp spec fn headers_json(s: Seq<char>) -> Result<(), Seq<char>>;

/// Relies on serde_json::from_str deserializing a JSON object with string
/// keys and string values; the resulting pairs come back in an arbitrary
/// order, so nothing is promised of their content.
#[verifier::external_body]
fn parse_header_map(s: &str) -> (r: Result<Vec<(String, String)>, String>)
    ensures
        r is Ok <==> headers_json(s@) is Ok,
        r is Err ==> (r->Err_0)@ == headers_json(s@)->Err_0,
{
    match serde_json::from_str::<std::collections::HashMap<String, String>>(s) {
        Ok(m) => Ok(m.into_iter().collect()),
        Err(e) => Err(e.to_string()),
    }
}

/// What the lenient pipeline (validate dropping bad entries, deduplicate,
/// transform) yields on a batch of raw entries: the set elements are a
/// minimal cover of the valid entries, `None` standing for no valid entry.
pub open spec fn lenient_set_outcome<T: ListNetwork>(
    ss: Seq<Seq<char>>,
    r: Option<Seq<PrefixV>>,
) -> bool {
    match r {
        Option::None => valid_views::<T>(ss).len() == 0,
        Option::Some(elems) => valid_views::<T>(ss).len() > 0 && exists|d: Seq<NetView>|
            {
                &&& #[trigger] minimal_cover_v(valid_views::<T>(ss), d)
                &&& elems == d.map_values(|v: NetView| prefix_v_of(v))
            },
    }
}

/// Runs the lenient pipeline on raw entries of family `T`: invalid entries
/// are dropped, survivors deduplicated and rendered as set elements.
fn lenient_elements<T: ListNetwork>(ips: Vec<String>) -> (r: Option<SetElements>)
    ensures
        lenient_set_outcome::<T>(
            ips.deep_view(),
            match r {
                Option::Some(e) => Option::Some(elements_v(e@)),
                Option::None => Option::None,
            },
        ),
{
    let validated: Option<Vec<T>> = match validate_subnets::<T>(&ips, false) {
        Ok(v) => v,
        Err(e) => {
            return None;
        },
    };
    match validated {
        None => None,
        Some(vs) => {
            let ghost gvs = vs@;
            let deduped = deduplicate(vs);
            proof {
                lemma_minimal_cover_views(gvs, deduped@);
            }
            let elems = get_nft_expressions(Some(deduped));
            match elems {
                Some(e) => {
                    proof {
                        assert(elements_v(e@) =~= deduped@.map_values(|x: T| x@).map_values(
                            |v: NetView| prefix_v_of(v),
                        ));
                    }
                    Some(e)
                },
                None => None,
            }
        },
    }
}

/// The spec of one fetched body's tokens under the configured delimiter.
pub open spec fn body_tokens(t: Seq<char>, split: Option<String>) -> Seq<Seq<char>> {
    match split {
        Option::None => ws_tokens(t),
        Option::Some(d) => delim_tokens(t, d@).map_values(|x: Seq<char>| trim_s(x)),
    }
}

/// What processing one fetched body yields: an absent or blank body gives
/// no elements, otherwise the body is trimmed, tokenized and run through
/// the lenient pipeline.
pub open spec fn update_outcome<T: ListNetwork>(
    body: Option<String>,
    split: Option<String>,
    r: Option<Seq<PrefixV>>,
) -> bool {
    match body {
        Option::None => r is None,
        Option::Some(text) => {
            let t = trim_s(text@);
            if t.len() == 0 {
                r is None
            } else {
                lenient_set_outcome::<T>(body_tokens(t, split), r)
            }
        },
    }
}

/// The blocklist fetch configuration: HTTP headers, timeout, the two
/// endpoints, and the delimiter that splits fetched text into entries.
#[derive(Debug)]
pub struct BlockList {
    pub headers: Option<Vec<(String, String)>>,
    pub timeout_secs: u64,
    pub ipv4_endpoint: Option<String>,
    pub ipv6_endpoint: Option<String>,
    pub split_string: Option<String>,
}

impl BlockList {
    /// A configured delimiter is never empty.
    pub open spec fn wf(&self) -> bool {
        match self.split_string {
            Option::Some(d) => d@.len() > 0,
            Option::None => true,
        }
    }

    /// Builds the fetch configuration, decoding the optional header JSON.
    pub fn new(
        headers: Option<String>,
        timeout: u64,
        ipv4_endpoint: Option<String>,
        ipv6_endpoint: Option<String>,
        split_string: Option<&str>,
    ) -> (r: Result<BlockList, AppError>)
        requires
            match split_string {
                Option::Some(d) => d@.len() > 0,
                Option::None => true,
            },
        ensures
            (r is Err <==> match headers {
                Option::Some(h) => headers_json(h@) is Err,
                Option::None => false,
            }),
            r is Err ==> (r->Err_0).error_kind == AppErrorKind::DeserializeError && (match headers {
                Option::Some(h) => (r->Err_0).message@ == headers_json(h@)->Err_0,
                Option::None => false,
            }),
            r is Ok ==> {
                let b = r->Ok_0;
                &&& b.wf()
                &&& (b.headers is Some <==> headers is Some)
                &&& b.timeout_secs == timeout
                &&& b.ipv4_endpoint == ipv4_endpoint
                &&& b.ipv6_endpoint == ipv6_endpoint
                &&& (match (split_string, b.split_string) {
                    (Option::Some(d), Option::Some(bd)) => bd@ == d@,
                    (Option::None, Option::None) => true,
                    _ => false,
                })
            },
    {
        let parsed_headers: Option<Vec<(String, String)>> = match headers {
            None => None,
            Some(h) => match parse_header_map(h.as_str()) {
                Ok(m) => Some(m),
                Err(m) => {
                    return Err(AppError { error_kind: AppErrorKind::DeserializeError, message: m });
                },
            },
        };
        let split_owned: Option<String> = match split_string {
            None => None,
            Some(d) => Some(String::from_str(d)),
        };
        Ok(
            BlockList {
                headers: parsed_headers,
                timeout_secs: timeout,
                ipv4_endpoint,
                ipv6_endpoint,
                split_string: split_owned,
            },
        )
    }

    /// Processes a fetched IPv4 blocklist body into set elements: trims it,
    /// splits it into entries, drops the invalid ones and deduplicates the
    /// rest.  An absent or blank body is tolerated and yields no elements.
    pub fn update_ipv4(&self, body: Option<String>) -> (r: Result<Option<SetElements>, AppError>)
        requires
            self.wf(),
        ensures
            r is Ok,
            update_outcome::<Ipv4Net>(
                body,
                self.split_string,
                match r->Ok_0 {
                    Option::Some(e) => Option::Some(elements_v(e@)),
                    Option::None => Option::None,
                },
            ),
    {
        let text = match body {
            None => {
                return Ok(None);
            },
            Some(t) => t,
        };
        let trimmed = crate::text::trim_str(text.as_str());
        let tokens = match &self.split_string {
            None => parse_from_string(Some(trimmed.as_str()), None),
            Some(d) => parse_from_string(Some(trimmed.as_str()), Some(d.as_str())),
        };
        match tokens {
            None => Ok(None),
            Some(ips) => Ok(lenient_elements::<Ipv4Net>(ips)),
        }
    }

    /// Processes a fetched IPv6 blocklist body into set elements, as
    /// `update_ipv4` does for IPv4.
    pub fn update_ipv6(&self, body: Option<String>) -> (r: Result<Option<SetElements>, AppError>)
        requires
            self.wf(),
        ensures
            r is Ok,
            update_outcome::<Ipv6Net>(
                body,
                self.split_string,
                match r->Ok_0 {
                    Option::Some(e) => Option::Some(elements_v(e@)),
                    Option::None => Option::None,
                },
            ),
    {
        let text = match body {
            None => {
                return Ok(None);
            },
            Some(t) => t,
        };
        let trimmed = crate::text::trim_str(text.as_str());
        let tokens = match &self.split_string {
            None => parse_from_string(Some(trimmed.as_str()), None),
            Some(d) => parse_from_string(Some(trimmed.as_str()), Some(d.as_str())),
        };
        match tokens {
            None => Ok(None),
            Some(ips) => Ok(lenient_elements::<Ipv6Net>(ips)),
        }
    }

    /// Processes both fetched bodies of one cycle.  A cycle with one
    /// endpoint unconfigured (its body absent) and the other non-empty
    /// succeeds, yielding elements only for the configured family.
    pub fn update(&self, ipv4_body: Option<String>, ipv6_body: Option<String>) -> (r: Result<
        (Option<SetElements>, Option<SetElements>),
        AppError,
    >)
        requires
            self.wf(),
        ensures
            r is Ok,
            update_outcome::<Ipv4Net>(
                ipv4_body,
                self.split_string,
                match (r->Ok_0).0 {
                    Option::Some(e) => Option::Some(elements_v(e@)),
                    Option::None => Option::None,
                },
            ),
            update_outcome::<Ipv6Net>(
                ipv6_body,
                self.split_string,
                match (r->Ok_0).1 {
                    Option::Some(e) => Option::Some(elements_v(e@)),
                    Option::None => Option::None,
                },
            ),
    {
        let ipv4 = match self.update_ipv4(ipv4_body) {
            Ok(e) => e,
            Err(e) => {
                return Err(e);
            },
        };
        let ipv6 = match self.update_ipv6(ipv6_body) {
            Ok(e) => e,
            Err(e) => {
                return Err(e);
            },
        };
        Ok((ipv4, ipv6))
    }
}

} // verus!
