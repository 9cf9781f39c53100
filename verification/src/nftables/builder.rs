//! The ruleset document model and its builder: typed declarative objects
//! (table, chain, set, set elements, rule) collected in order into one
//! document that the apply subsystem consumes as an atomic transaction.

use vstd::prelude::*;

use crate::network::{net_wf, ListNetwork, NetView};

verus! {

/// The traffic-direction hook a chain is attached to.
#[derive(Debug, Clone, Copy, PartialEq, Eq, Structural)]
pub enum NfHook {
    /// Inbound traffic, before routing.
    Prerouting,
    /// Outbound traffic, after routing.
    Postrouting,
}

/// The element type of a named set.
#[derive(Debug, Clone, Copy, PartialEq, Eq, Structural)]
pub enum SetType {
    Ipv4Addr,
    Ipv6Addr,
}

/// The final action of a rule.
#[derive(Debug, Clone, Copy, PartialEq, Eq, Structural)]
pub enum Verdict {
    Accept,
    Drop,
}

/// The address field a rule matches on: source or destination.
#[derive(Debug, Clone, Copy, PartialEq, Eq, Structural)]
pub enum RuleDirection {
    /// Source address.
    Saddr,
    /// Destination address.
    Daddr,
}

/// The protocol whose header the matched address is read from.
#[derive(Debug, Clone, Copy, PartialEq, Eq, Structural)]
pub enum RuleProto {
    /// IPv4.
    Ip,
    /// IPv6.
    Ip6,
}

/// A set element: a network address in canonical text with its prefix
/// length, denoting a whole CIDR range.
#[derive(Debug)]
pub struct PrefixExpr {
    pub addr: String,
    pub len: u32,
}

/// The mathematical content of a set element.
#[verifier::ext_equal]
pub ghost struct PrefixV {
    pub addr: Seq<char>,
    pub len: u32,
}

impl View for PrefixExpr {
    type V = PrefixV;

    open spec fn view(&self) -> PrefixV {
        PrefixV { addr: self.addr@, len: self.len }
    }
}

impl Clone for PrefixExpr {
    fn clone(&self) -> (r: Self)
        ensures
            r@ == self@,
    {
        PrefixExpr { addr: self.addr.clone(), len: self.len }
    }
}

impl PartialEq for PrefixExpr {
    fn eq(&self, other: &Self) -> (r: bool) {
        self.addr == other.addr && self.len == other.len
    }
}

impl Eq for PrefixExpr {

}

impl vstd::std_specs::cmp::PartialEqSpecImpl for PrefixExpr {
    open spec fn obeys_eq_spec() -> bool {
        true
    }

    open spec fn eq_spec(&self, other: &Self) -> bool {
        self.addr@ == other.addr@ && self.len == other.len
    }
}

/// The elements of one named set.
pub type SetElements = Vec<PrefixExpr>;

/// The views of a sequence of set elements.
pub open spec fn elements_v(v: Seq<PrefixExpr>) -> Seq<PrefixV> {
    v.map_values(|e: PrefixExpr| e@)
}

/// One declarative object of a ruleset document.
#[derive(Debug)]
pub enum RulesetObject {
    /// Removes the named table and everything in it.
    DeleteTable { name: String },
    /// Declares the named table.
    Table { name: String },
    /// Declares a chain in a table, attached to a hook with a priority;
    /// its policy is to accept what no rule decides.
    Chain { table: String, name: String, hook: NfHook, priority: i32 },
    /// Declares a named set holding CIDR ranges of one family.
    NamedSet { table: String, name: String, set_type: SetType },
    /// The element payload of a named set.
    Elements { table: String, set_name: String, elements: SetElements },
    /// A rule in a chain: match an address field against a named set,
    /// optionally log with a prefix, then apply the verdict.
    Rule {
        table: String,
        chain: String,
        set_ref: String,
        proto: RuleProto,
        direction: RuleDirection,
        log_prefix: Option<String>,
        verdict: Verdict,
        comment: String,
    },
}

/// The mathematical content of one declarative object.
#[verifier::ext_equal]
pub ghost enum RulesetObjectV {
    DeleteTable { name: Seq<char> },
    Table { name: Seq<char> },
    Chain { table: Seq<char>, name: Seq<char>, hook: NfHook, priority: i32 },
    NamedSet { table: Seq<char>, name: Seq<char>, set_type: SetType },
    Elements { table: Seq<char>, set_name: Seq<char>, elements: Seq<PrefixV> },
    Rule {
        table: Seq<char>,
        chain: Seq<char>,
        set_ref: Seq<char>,
        proto: RuleProto,
        direction: RuleDirection,
        log_prefix: Option<Seq<char>>,
        verdict: Verdict,
        comment: Seq<char>,
    },
}

impl View for RulesetObject {
    type V = RulesetObjectV;

    open spec fn view(&self) -> RulesetObjectV {
        match self {
            RulesetObject::DeleteTable { name } => RulesetObjectV::DeleteTable { name: name@ },
            RulesetObject::Table { name } => RulesetObjectV::Table { name: name@ },
            RulesetObject::Chain { table, name, hook, priority } => RulesetObjectV::Chain {
                table: table@,
                name: name@,
                hook: *hook,
                priority: *priority,
            },
            RulesetObject::NamedSet { table, name, set_type } => RulesetObjectV::NamedSet {
                table: table@,
                name: name@,
                set_type: *set_type,
            },
            RulesetObject::Elements { table, set_name, elements } => RulesetObjectV::Elements {
                table: table@,
                set_name: set_name@,
                elements: elements_v(elements@),
            },
            RulesetObject::Rule {
                table,
                chain,
                set_ref,
                proto,
                direction,
                log_prefix,
                verdict,
                comment,
            } => RulesetObjectV::Rule {
                table: table@,
                chain: chain@,
                set_ref: set_ref@,
                proto: *proto,
                direction: *direction,
                log_prefix: match log_prefix {
                    Option::Some(p) => Option::Some(p@),
                    Option::None => Option::None,
                },
                verdict: *verdict,
                comment: comment@,
            },
        }
    }
}

/// The reference to a named set as it stands in a rule's match.
pub open spec fn set_ref_v(set_name: Seq<char>) -> Seq<char> {
    "@"@ + set_name
}

/// The log prefix of a drop rule: table, chain and set, semicolon-separated.
pub open spec fn log_prefix_v(table: Seq<char>, chain: Seq<char>, set_name: Seq<char>) -> Seq<
    char,
> {
    table + ";"@ + chain + ";"@ + set_name + ";dropped: "@
}

/// The view of a rule object as `build_rule` emits it.
pub open spec fn rule_v(
    table: Seq<char>,
    chain: Seq<char>,
    set_name: Seq<char>,
    proto: RuleProto,
    direction: RuleDirection,
    log: bool,
    verdict: Verdict,
    comment: Seq<char>,
) -> RulesetObjectV {
    RulesetObjectV::Rule {
        table,
        chain,
        set_ref: set_ref_v(set_name),
        proto,
        direction,
        log_prefix: if log {
            Option::Some(log_prefix_v(table, chain, set_name))
        } else {
            Option::None
        },
        verdict,
        comment,
    }
}

/// Collects declarative objects in order into one ruleset document.
#[derive(Debug)]
pub struct NftRulesetBuilder {
    pub objects: Vec<RulesetObject>,
}

/// A complete ruleset document: the ordered objects that the apply
/// subsystem commits as one atomic transaction.
#[derive(Debug)]
pub struct RulesetDocument {
    pub objects: Vec<RulesetObject>,
}

impl NftRulesetBuilder {
    /// The views of the objects collected so far.
    pub open spec fn objects_v(&self) -> Seq<RulesetObjectV> {
        self.objects@.map_values(|o: RulesetObject| o@)
    }

    /// An empty builder.
    pub fn new() -> (r: Self)
        ensures
            r.objects_v() == Seq::<RulesetObjectV>::empty(),
    {
        let r = NftRulesetBuilder { objects: Vec::new() };
        proof {
            assert(r.objects_v() =~= Seq::<RulesetObjectV>::empty());
        }
        r
    }

    /// Appends the removal of the named table and all its contents.
    pub fn delete_table(self, table_name: &str) -> (r: Self)
        ensures
            r.objects_v() == self.objects_v().push(
                RulesetObjectV::DeleteTable { name: table_name@ },
            ),
    {
        let mut objects = self.objects;
        let ghost before = objects@.map_values(|o: RulesetObject| o@);
        objects.push(RulesetObject::DeleteTable { name: String::from_str(table_name) });
        let r = NftRulesetBuilder { objects };
        proof {
            assert(r.objects_v() =~= before.push(
                RulesetObjectV::DeleteTable { name: table_name@ },
            ));
        }
        r
    }

    /// Appends the declaration of the named table.
    pub fn build_table(self, table_name: &str) -> (r: Self)
        ensures
            r.objects_v() == self.objects_v().push(RulesetObjectV::Table { name: table_name@ }),
    {
        let mut objects = self.objects;
        let ghost before = objects@.map_values(|o: RulesetObject| o@);
        objects.push(RulesetObject::Table { name: String::from_str(table_name) });
        let r = NftRulesetBuilder { objects };
        proof {
            assert(r.objects_v() =~= before.push(RulesetObjectV::Table { name: table_name@ }));
        }
        r
    }

    /// Appends the declaration of a chain attached to the given hook with
    /// the given priority.
    pub fn build_chain(self, table_name: &str, chain_name: &str, chain_hook: NfHook, priority: i32) -> (r:
        Self)
        ensures
            r.objects_v() == self.objects_v().push(
                RulesetObjectV::Chain {
                    table: table_name@,
                    name: chain_name@,
                    hook: chain_hook,
                    priority,
                },
            ),
    {
        let mut objects = self.objects;
        let ghost before = objects@.map_values(|o: RulesetObject| o@);
        objects.push(
            RulesetObject::Chain {
                table: String::from_str(table_name),
                name: String::from_str(chain_name),
                hook: chain_hook,
                priority,
            },
        );
        let r = NftRulesetBuilder { objects };
        proof {
            assert(r.objects_v() =~= before.push(
                RulesetObjectV::Chain {
                    table: table_name@,
                    name: chain_name@,
                    hook: chain_hook,
                    priority,
                },
            ));
        }
        r
    }

    /// Appends the declaration of a named set holding CIDR ranges.
    pub fn build_set(self, table_name: &str, set_name: String, set_type: &SetType) -> (r: Self)
        ensures
            r.objects_v() == self.objects_v().push(
                RulesetObjectV::NamedSet {
                    table: table_name@,
                    name: set_name@,
                    set_type: *set_type,
                },
            ),
    {
        let mut objects = self.objects;
        let ghost before = objects@.map_values(|o: RulesetObject| o@);
        let ghost name_v = set_name@;
        objects.push(
            RulesetObject::NamedSet {
                table: String::from_str(table_name),
                name: set_name,
                set_type: *set_type,
            },
        );
        let r = NftRulesetBuilder { objects };
        proof {
            assert(r.objects_v() =~= before.push(
                RulesetObjectV::NamedSet { table: table_name@, name: name_v, set_type: *set_type },
            ));
        }
        r
    }

    /// Appends the element payload of a named set.
    pub fn build_set_elements(self, table_name: &str, set_name: String, set_elements: &SetElements) -> (r:
        Self)
        ensures
            r.objects_v() == self.objects_v().push(
                RulesetObjectV::Elements {
                    table: table_name@,
                    set_name: set_name@,
                    elements: elements_v(set_elements@),
                },
            ),
    {
        let mut objects = self.objects;
        let ghost before = objects@.map_values(|o: RulesetObject| o@);
        let ghost name_v = set_name@;
        let elements = clone_elements(set_elements);
        objects.push(
            RulesetObject::Elements {
                table: String::from_str(table_name),
                set_name,
                elements,
            },
        );
        let r = NftRulesetBuilder { objects };
        proof {
            assert(r.objects_v() =~= before.push(
                RulesetObjectV::Elements {
                    table: table_name@,
                    set_name: name_v,
                    elements: elements_v(set_elements@),
                },
            ));
        }
        r
    }

    /// Appends a rule matching an address field against a named set.  A
    /// logging rule carries a prefix naming the table, the chain and the
    /// set, so that a dropped packet can be traced to its rule.
    pub fn build_rule(
        self,
        table_name: &str,
        chain_name: &str,
        set_name: String,
        rule_proto: RuleProto,
        rule_direction: RuleDirection,
        log: bool,
        verdict: Verdict,
        comment: &str,
    ) -> (r: Self)
        ensures
            r.objects_v() == self.objects_v().push(
                rule_v(
                    table_name@,
                    chain_name@,
                    set_name@,
                    rule_proto,
                    rule_direction,
                    log,
                    verdict,
                    comment@,
                ),
            ),
    {
        let mut objects = self.objects;
        let ghost before = objects@.map_values(|o: RulesetObject| o@);
        let ghost name_v = set_name@;
        let set_ref = String::from_str("@").concat(set_name.as_str());
        let log_prefix: Option<String> = if log {
            Some(
                String::from_str(table_name).concat(";").concat(chain_name).concat(";").concat(
                    set_name.as_str(),
                ).concat(";dropped: "),
            )
        } else {
            None
        };
        objects.push(
            RulesetObject::Rule {
                table: String::from_str(table_name),
                chain: String::from_str(chain_name),
                set_ref,
                proto: rule_proto,
                direction: rule_direction,
                log_prefix,
                verdict,
                comment: String::from_str(comment),
            },
        );
        let r = NftRulesetBuilder { objects };
        proof {
            assert(r.objects_v() =~= before.push(
                rule_v(
                    table_name@,
                    chain_name@,
                    name_v,
                    rule_proto,
                    rule_direction,
                    log,
                    verdict,
                    comment@,
                ),
            ));
        }
        r
    }

    /// Closes the builder into a document.
    pub fn build_ruleset(self) -> (r: RulesetDocument)
        ensures
            r.objects_v() == self.objects_v(),
    {
        RulesetDocument { objects: self.objects }
    }
}

impl RulesetDocument {
    /// The views of the document's objects, in order.
    pub open spec fn objects_v(&self) -> Seq<RulesetObjectV> {
        self.objects@.map_values(|o: RulesetObject| o@)
    }
}

/// The set element denoting a subnet: the canonical text of its masked
/// network address, with its prefix length.
pub open spec fn prefix_v_of(v: NetView) -> PrefixV {
    PrefixV { addr: v.net_text, len: v.prefix as u32 }
}

/// Converts validated subnets into set elements, one per subnet, in order.
pub fn get_nft_expressions<T: ListNetwork>(ips: Option<Vec<T>>) -> (r: Option<SetElements>)
    requires
        match ips {
            Option::Some(v) => forall|i: int| 0 <= i < v@.len() ==> net_wf(#[trigger] v@[i]@),
            Option::None => true,
        },
    ensures
        match (ips, r) {
            (Option::None, Option::None) => true,
            (Option::Some(v), Option::Some(e)) => elements_v(e@) == v@.map_values(
                |x: T| prefix_v_of(x@),
            ),
            _ => false,
        },
{
    match ips {
        None => None,
        Some(v) => {
            let mut out: SetElements = Vec::new();
            let mut i: usize = 0;
            while i < v.len()
                invariant
                    i <= v@.len(),
                    out@.len() == i,
                    forall|k: int| 0 <= k < v@.len() ==> net_wf(#[trigger] v@[k]@),
                    forall|k: int| 0 <= k < i ==> out@[k]@ == prefix_v_of(v@[k]@),
                decreases v@.len() - i,
            {
                let ip = &v[i];
                let addr = ip.network_string();
                let len = ip.network_prefix() as u32;
                out.push(PrefixExpr { addr, len });
                i = i + 1;
            }
            proof {
                assert(elements_v(out@) =~= v@.map_values(|x: T| prefix_v_of(x@)));
            }
            Some(out)
        },
    }
}

/// Copies a list of set elements.
fn clone_elements(v: &SetElements) -> (r: SetElements)
    ensures
        elements_v(r@) == elements_v(v@),
        r@.len() == v@.len(),
{
    let mut r: SetElements = Vec::new();
    let mut i: usize = 0;
    while i < v.len()
        invariant
            i <= v@.len(),
            r@.len() == i,
            forall|k: int| 0 <= k < i ==> r@[k]@ == v@[k]@,
        decreases v@.len() - i,
    {
        r.push((&v[i]).clone());
        i = i + 1;
    }
    proof {
        assert(elements_v(r@) =~= elements_v(v@));
    }
    r
}

} // verus!
