//! The subnet model: one typed representation per address family, each
//! abstracted as a [`NetView`] (address bits, prefix length and canonical
//! texts), and the [`ListNetwork`] capability that the validator and the
//! deduplication trie are written against.

use vstd::prelude::*;

use crate::iptrie::BitIp;
use crate::text::dec_str;

verus! {

/// The mathematical content of a parsed subnet: the address bits (most
/// significant first, exactly `width` of them), the prefix length, and the
/// canonical texts of the address as written and of the masked network
/// address.
#[verifier::ext_equal]
pub ghost struct NetView {
    pub width: nat,
    pub prefix: nat,
    pub bits: Seq<bool>,
    pub addr_text: Seq<char>,
    pub net_text: Seq<char>,
}

/// Structural validity of a subnet's view.
pub open spec fn net_wf(v: NetView) -> bool {
    &&& (v.width == 32 || v.width == 128)
    &&& v.prefix <= v.width
    &&& v.bits.len() == v.width
}

/// Whether the address is aligned to its prefix: every bit beyond the prefix
/// length is zero, so the address denotes the base of its range.
pub open spec fn aligned(v: NetView) -> bool {
    forall|i: int| v.prefix <= i < v.width ==> !v.bits[i]
}

/// The network prefix of a subnet as a bit path: its first `prefix` address
/// bits.
pub open spec fn path_of(v: NetView) -> Seq<bool> {
    v.bits.take(v.prefix as int)
}

/// Whether subnet `a` covers subnet `b`: same family, and every address of
/// `b` lies inside `a`, i.e. `a`'s bit path is a prefix of `b`'s.
pub open spec fn covers(a: NetView, b: NetView) -> bool {
    a.width == b.width && path_of(a).is_prefix_of(path_of(b))
}

/// Family isolation: a subnet of one address family never covers a subnet
/// of the other, so deduplication never merges or compares across IPv4 and
/// IPv6.
pub proof fn lemma_no_cross_family_cover(a: NetView, b: NetView)
    requires
        a.width != b.width,
    ensures
        !covers(a, b),
        !covers(b, a),
{
}

/// The bits of a 32-bit address, most significant first.
pub open spec fn bits32(a: u32) -> Seq<bool> {
    Seq::new(32, |i: int| ((a >> ((31 - i) as u32)) & 1) == 1)
}

/// The bits of a 128-bit address, most significant first.
pub open spec fn bits128(a: u128) -> Seq<bool> {
    Seq::new(128, |i: int| ((a >> ((127 - i) as u128)) & 1) == 1)
}

/// The capability that validation and deduplication require of a network
/// address family: parsing, the prefix and address bits, and canonical text.
pub trait ListNetwork: View<V = NetView> + Sized {
    /// Whether this family parses the given CIDR text successfully.
    spec fn parse_ok(s: Seq<char>) -> bool;

    /// The view of the subnet this family parses the given text into.
    spec fn parse_view(s: Seq<char>) -> NetView;

    /// The message with which this family rejects the given text.
    spec fn parse_err(s: Seq<char>) -> Seq<char>;

    /// The family's address width, shared by every value of the type.
    spec fn family_width() -> nat;

    /// Every subnet of one family has the family's width.
    proof fn lemma_family_width(&self)
        ensures
            self@.width == Self::family_width(),
    ;

    /// Parses CIDR text (`a.b.c.d/n`, or a bare address implying the full
    /// prefix) into a subnet of this family.
    fn parse(s: &str) -> (r: Result<Self, String>)
        ensures
            r is Ok <==> Self::parse_ok(s@),
            r is Ok ==> (r->Ok_0)@ == Self::parse_view(s@) && net_wf((r->Ok_0)@),
            r is Err ==> (r->Err_0)@ == Self::parse_err(s@),
    ;

    /// The prefix length.
    fn network_prefix(&self) -> (p: u8)
        requires
            net_wf(self@),
        ensures
            p as nat == self@.prefix,
    ;

    /// The maximum prefix length of the family: the address width.
    fn max_prefix(&self) -> (w: u8)
        ensures
            w as nat == self@.width,
    ;

    /// The masked network address: the address with every bit beyond the
    /// prefix cleared.
    fn network_addr(&self) -> (r: BitIp)
        requires
            net_wf(self@),
        ensures
            r.width() == self@.width,
            forall|i: int|
                0 <= i < self@.width ==> r.bit_at(i) == (i < self@.prefix && self@.bits[i]),
    ;

    /// The canonical text of the masked network address.
    fn network_string(&self) -> (t: String)
        ensures
            t@ == self@.net_text,
    ;

    /// The canonical CIDR text of the subnet as parsed: address, slash,
    /// prefix length in decimal.
    fn cidr_string(&self) -> (t: String)
        requires
            net_wf(self@),
        ensures
            t@ == self@.addr_text + seq!['/'] + dec_str(self@.prefix),
    ;

    /// Whether the address is aligned to its prefix.
    fn is_network(&self) -> (b: bool)
        requires
            net_wf(self@),
        ensures
            b == aligned(self@),
    ;
}

/// What `ipnetwork::Ipv4Network::from_str` yields on the given text: the
/// address bits, the prefix length, the canonical text of the address and of
/// the masked network address; or the parse error's message.
pub uninterp spec fn ipv4_net_parse(s: Seq<char>) -> Result<(u32, u8, Seq<char>, Seq<char>), Seq<
    char,
>>;

/// Relies on ipnetwork::Ipv4Network::from_str, its accessors `ip`, `prefix`
/// and `network`, and the `Display` of addresses and of `IpNetworkError`.
/// The parse accepts a prefix length only up to 32.
#[verifier::external_body]
fn ipv4_parse_raw(s: &str) -> (r: Result<(u32, u8, String, String), String>)
    ensures
        r is Ok <==> ipv4_net_parse(s@) is Ok,
        r is Ok ==> {
            &&& (r->Ok_0).0 == (ipv4_net_parse(s@)->Ok_0).0
            &&& (r->Ok_0).1 == (ipv4_net_parse(s@)->Ok_0).1
            &&& (r->Ok_0).1 <= 32
            &&& (r->Ok_0).2@ == (ipv4_net_parse(s@)->Ok_0).2
            &&& (r->Ok_0).3@ == (ipv4_net_parse(s@)->Ok_0).3
        },
        r is Err ==> (r->Err_0)@ == ipv4_net_parse(s@)->Err_0,
{
    match s.parse::<ipnetwork::Ipv4Network>() {
        Ok(n) => Ok((u32::from(n.ip()), n.prefix(), n.ip().to_string(), n.network().to_string())),
        Err(e) => Err(e.to_string()),
    }
}

/// An IPv4 subnet: address bits, prefix length, and the canonical texts of
/// the address and of its masked network address.
#[derive(Debug)]
pub struct Ipv4Net {
    pub addr: u32,
    pub prefix: u8,
    pub addr_text: String,
    pub net_text: String,
}

impl View for Ipv4Net {
    type V = NetView;

    open spec fn view(&self) -> NetView {
        NetView {
            width: 32,
            prefix: self.prefix as nat,
            bits: bits32(self.addr),
            addr_text: self.addr_text@,
            net_text: self.net_text@,
        }
    }
}

impl PartialEq for Ipv4Net {
    fn eq(&self, other: &Self) -> (r: bool) {
        self.addr == other.addr && self.prefix == other.prefix
    }
}

impl Eq for Ipv4Net {

}

impl vstd::std_specs::cmp::PartialEqSpecImpl for Ipv4Net {
    open spec fn obeys_eq_spec() -> bool {
        true
    }

    open spec fn eq_spec(&self, other: &Self) -> bool {
        self.addr == other.addr && self.prefix == other.prefix
    }
}

impl ListNetwork for Ipv4Net {
    open spec fn parse_ok(s: Seq<char>) -> bool {
        ipv4_net_parse(s) is Ok
    }

    open spec fn parse_view(s: Seq<char>) -> NetView {
        NetView {
            width: 32,
            prefix: (ipv4_net_parse(s)->Ok_0).1 as nat,
            bits: bits32((ipv4_net_parse(s)->Ok_0).0),
            addr_text: (ipv4_net_parse(s)->Ok_0).2,
            net_text: (ipv4_net_parse(s)->Ok_0).3,
        }
    }

    open spec fn parse_err(s: Seq<char>) -> Seq<char> {
        ipv4_net_parse(s)->Err_0
    }

    open spec fn family_width() -> nat {
        32
    }

    proof fn lemma_family_width(&self) {
    }

    fn parse(s: &str) -> (r: Result<Self, String>) {
        match ipv4_parse_raw(s) {
            Ok((addr, prefix, addr_text, net_text)) => {
                let net = Ipv4Net { addr, prefix, addr_text, net_text };
                proof {
                    assert(net@ =~= Self::parse_view(s@));
                }
                Ok(net)
            },
            Err(m) => Err(m),
        }
    }

    fn network_prefix(&self) -> u8 {
        self.prefix
    }

    fn max_prefix(&self) -> u8 {
        32
    }

    fn network_addr(&self) -> (r: BitIp) {
        let a = self.addr;
        let p = self.prefix;
        let m: u32 = if p == 0 {
            0
        } else {
            let sh: u32 = (32 - p) as u32;
            a & (u32::MAX << sh)
        };
        proof {
            lemma_mask32(a, p as u32, m);
        }
        BitIp::Ipv4(m)
    }

    fn network_string(&self) -> String {
        self.net_text.clone()
    }

    fn cidr_string(&self) -> (t: String) {
        let dec = crate::text::u8_to_dec(self.prefix);
        let t = self.addr_text.clone().concat("/").concat(dec.as_str());
        proof {
            reveal_strlit("/");
            assert("/"@ =~= seq!['/']);
        }
        t
    }

    fn is_network(&self) -> (b: bool) {
        let a = self.addr;
        let p = self.prefix;
        let mut i: u8 = p;
        while i < 32
            invariant
                p <= i <= 32,
                a == self.addr,
                p == self.prefix,
                net_wf(self@),
                forall|j: int| p <= j < i ==> !self@.bits[j],
            decreases 32 - i,
        {
            let sh: u32 = (31 - i) as u32;
            if (a >> sh) & 1 == 1 {
                proof {
                    assert(self@.bits[i as int]);
                }
                return false;
            }
            i = i + 1;
        }
        true
    }
}

/// What `ipnetwork::Ipv6Network::from_str` yields on the given text: the
/// address bits, the prefix length, the canonical text of the address and of
/// the masked network address; or the parse error's message.
pub uninterp spec fn ipv6_net_parse(s: Seq<char>) -> Result<(u128, u8, Seq<char>, Seq<char>), Seq<
    char,
>>;

/// Relies on ipnetwork::Ipv6Network::from_str, its accessors `ip`, `prefix`
/// and `network`, and the `Display` of addresses and of `IpNetworkError`.
/// The parse accepts a prefix length only up to 128.
#[verifier::external_body]
fn ipv6_parse_raw(s: &str) -> (r: Result<(u128, u8, String, String), String>)
    ensures
        r is Ok <==> ipv6_net_parse(s@) is Ok,
        r is Ok ==> {
            &&& (r->Ok_0).0 == (ipv6_net_parse(s@)->Ok_0).0
            &&& (r->Ok_0).1 == (ipv6_net_parse(s@)->Ok_0).1
            &&& (r->Ok_0).1 <= 128
            &&& (r->Ok_0).2@ == (ipv6_net_parse(s@)->Ok_0).2
            &&& (r->Ok_0).3@ == (ipv6_net_parse(s@)->Ok_0).3
        },
        r is Err ==> (r->Err_0)@ == ipv6_net_parse(s@)->Err_0,
{
    match s.parse::<ipnetwork::Ipv6Network>() {
        Ok(n) => Ok((u128::from(n.ip()), n.prefix(), n.ip().to_string(), n.network().to_string())),
        Err(e) => Err(e.to_string()),
    }
}

/// An IPv6 subnet: address bits, prefix length, and the canonical texts of
/// the address and of its masked network address.
#[derive(Debug)]
pub struct Ipv6Net {
    pub addr: u128,
    pub prefix: u8,
    pub addr_text: String,
    pub net_text: String,
}

impl View for Ipv6Net {
    type V = NetView;

    open spec fn view(&self) -> NetView {
        NetView {
            width: 128,
            prefix: self.prefix as nat,
            bits: bits128(self.addr),
            addr_text: self.addr_text@,
            net_text: self.net_text@,
        }
    }
}

impl PartialEq for Ipv6Net {
    fn eq(&self, other: &Self) -> (r: bool) {
        self.addr == other.addr && self.prefix == other.prefix
    }
}

impl Eq for Ipv6Net {

}

impl vstd::std_specs::cmp::PartialEqSpecImpl for Ipv6Net {
    open spec fn obeys_eq_spec() -> bool {
        true
    }

    open spec fn eq_spec(&self, other: &Self) -> bool {
        self.addr == other.addr && self.prefix == other.prefix
    }
}

impl ListNetwork for Ipv6Net {
    open spec fn parse_ok(s: Seq<char>) -> bool {
        ipv6_net_parse(s) is Ok
    }

    open spec fn parse_view(s: Seq<char>) -> NetView {
        NetView {
            width: 128,
            prefix: (ipv6_net_parse(s)->Ok_0).1 as nat,
            bits: bits128((ipv6_net_parse(s)->Ok_0).0),
            addr_text: (ipv6_net_parse(s)->Ok_0).2,
            net_text: (ipv6_net_parse(s)->Ok_0).3,
        }
    }

    open spec fn parse_err(s: Seq<char>) -> Seq<char> {
        ipv6_net_parse(s)->Err_0
    }

    open spec fn family_width() -> nat {
        128
    }

    proof fn lemma_family_width(&self) {
    }

    fn parse(s: &str) -> (r: Result<Self, String>) {
        match ipv6_parse_raw(s) {
            Ok((addr, prefix, addr_text, net_text)) => {
                let net = Ipv6Net { addr, prefix, addr_text, net_text };
                proof {
                    assert(net@ =~= Self::parse_view(s@));
                }
                Ok(net)
            },
            Err(m) => Err(m),
        }
    }

    fn network_prefix(&self) -> u8 {
        self.prefix
    }

    fn max_prefix(&self) -> u8 {
        128
    }

    fn network_addr(&self) -> (r: BitIp) {
        let a = self.addr;
        let p = self.prefix;
        let m: u128 = if p == 0 {
            0
        } else {
            let sh: u128 = (128 - p) as u128;
            a & (u128::MAX << sh)
        };
        proof {
            lemma_mask128(a, p as u128, m);
        }
        BitIp::Ipv6(m)
    }

    fn network_string(&self) -> String {
        self.net_text.clone()
    }

    fn cidr_string(&self) -> (t: String) {
        let dec = crate::text::u8_to_dec(self.prefix);
        let t = self.addr_text.clone().concat("/").concat(dec.as_str());
        proof {
            reveal_strlit("/");
            assert("/"@ =~= seq!['/']);
        }
        t
    }

    fn is_network(&self) -> (b: bool) {
        let a = self.addr;
        let p = self.prefix;
        let mut i: u8 = p;
        while i < 128
            invariant
                p <= i <= 128,
                a == self.addr,
                p == self.prefix,
                net_wf(self@),
                forall|j: int| p <= j < i ==> !self@.bits[j],
            decreases 128 - i,
        {
            let sh: u128 = (127 - i) as u128;
            if (a >> sh) & 1 == 1 {
                proof {
                    assert(self@.bits[i as int]);
                }
                return false;
            }
            i = i + 1;
        }
        true
    }
}

/// How a 128-bit mask by prefix length acts on each address bit.
proof fn lemma_mask128(a: u128, p: u128, m: u128)
    requires
        p <= 128,
        m == (if p == 0 {
            0u128
        } else {
            a & (u128::MAX << ((128 - p) as u128))
        }),
    ensures
        forall|i: int|
            0 <= i < 128 ==> (BitIp::Ipv6(m).bit_at(i) == (i < p && bits128(a)[i])),
{
    assert forall|i: int| 0 <= i < 128 implies (BitIp::Ipv6(m).bit_at(i) == (i < p && bits128(
        a,
    )[i])) by {
        let k = (127 - i) as u128;
        if p == 0 {
            assert((m >> k) & 1 == 0) by (bit_vector)
                requires
                    m == 0u128,
            ;
        } else {
            let sh = (128 - p) as u128;
            assert(((m >> k) & 1 == 1) == (k >= sh && ((a >> k) & 1 == 1))) by (bit_vector)
                requires
                    m == (a & (u128::MAX << sh)),
                    sh <= 127,
                    k <= 127,
            ;
        }
    }
}

/// How a 32-bit mask by prefix length acts on each address bit.
proof fn lemma_mask32(a: u32, p: u32, m: u32)
    requires
        p <= 32,
        m == (if p == 0 {
            0u32
        } else {
            a & (u32::MAX << ((32 - p) as u32))
        }),
    ensures
        forall|i: int|
            0 <= i < 32 ==> (BitIp::Ipv4(m).bit_at(i) == (i < p && bits32(a)[i])),
{
    assert forall|i: int| 0 <= i < 32 implies (BitIp::Ipv4(m).bit_at(i) == (i < p && bits32(
        a,
    )[i])) by {
        let k = (31 - i) as u32;
        if p == 0 {
            assert((m >> k) & 1 == 0) by (bit_vector)
                requires
                    m == 0u32,
            ;
        } else {
            let sh = (32 - p) as u32;
            assert(((m >> k) & 1 == 1) == (k >= sh && ((a >> k) & 1 == 1))) by (bit_vector)
                requires
                    m == (a & (u32::MAX << sh)),
                    sh <= 31,
                    k <= 31,
            ;
        }
    }
}

} // verus!
