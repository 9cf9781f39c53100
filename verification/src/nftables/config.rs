//! The ruleset synthesizer: assembles the complete declarative firewall
//! state for one cycle — delete-and-recreate of the table, the two chains,
//! the six named sets, the rules in their safety-critical order (anti-
//! lockout accepts first, then custom drops, then blocklist drops), and
//! finally the element payloads of the non-empty sets.

use vstd::prelude::*;

use crate::custom_set::CustomSet;
use crate::nftables::builder::{
    elements_v, rule_v, NfHook, NftRulesetBuilder, PrefixV, RuleDirection, RuleProto,
    RulesetDocument, RulesetObjectV, SetElements, SetType, Verdict,
};

verus! {

/// A family-suffixed set name.
pub open spec fn set_name_v4(name: Seq<char>) -> Seq<char> {
    name + "_ipv4"@
}

/// A family-suffixed set name.
pub open spec fn set_name_v6(name: Seq<char>) -> Seq<char> {
    name + "_ipv6"@
}

/// The views of optional set elements.
pub open spec fn opt_elements_v(o: Option<SetElements>) -> Option<Seq<PrefixV>> {
    match o {
        Option::Some(e) => Option::Some(elements_v(e@)),
        Option::None => Option::None,
    }
}

/// The fixed head of every synthesized document: delete-and-recreate of the
/// table, the two hooked chains, the six named sets, then the rules — every
/// anti-lockout accept ahead of every drop, custom drops ahead of fetched
/// blocklist drops.
pub open spec fn ruleset_base(
    table: Seq<char>,
    pre: Seq<char>,
    post: Seq<char>,
    block_name: Seq<char>,
    anti_name: Seq<char>,
    custom_name: Seq<char>,
) -> Seq<RulesetObjectV> {
    seq![
        RulesetObjectV::Table { name: table },
        RulesetObjectV::DeleteTable { name: table },
        RulesetObjectV::Table { name: table },
        RulesetObjectV::Chain { table, name: pre, hook: NfHook::Prerouting, priority: -300i32 },
        RulesetObjectV::Chain { table, name: post, hook: NfHook::Postrouting, priority: 300i32 },
        RulesetObjectV::NamedSet {
            table,
            name: set_name_v4(anti_name),
            set_type: SetType::Ipv4Addr,
        },
        RulesetObjectV::NamedSet {
            table,
            name: set_name_v6(anti_name),
            set_type: SetType::Ipv6Addr,
        },
        RulesetObjectV::NamedSet {
            table,
            name: set_name_v4(block_name),
            set_type: SetType::Ipv4Addr,
        },
        RulesetObjectV::NamedSet {
            table,
            name: set_name_v6(block_name),
            set_type: SetType::Ipv6Addr,
        },
        RulesetObjectV::NamedSet {
            table,
            name: set_name_v4(custom_name),
            set_type: SetType::Ipv4Addr,
        },
        RulesetObjectV::NamedSet {
            table,
            name: set_name_v6(custom_name),
            set_type: SetType::Ipv6Addr,
        },
        rule_v(
            table,
            pre,
            set_name_v4(anti_name),
            RuleProto::Ip,
            RuleDirection::Saddr,
            false,
            Verdict::Accept,
            "prerouting ipv4 anti-lockout rule"@,
        ),
        rule_v(
            table,
            pre,
            set_name_v6(anti_name),
            RuleProto::Ip6,
            RuleDirection::Saddr,
            false,
            Verdict::Accept,
            "prerouting ipv6 anti-lockout rule"@,
        ),
        rule_v(
            table,
            post,
            set_name_v4(anti_name),
            RuleProto::Ip,
            RuleDirection::Daddr,
            false,
            Verdict::Accept,
            "postrouting ipv4 anti-lockout rule"@,
        ),
        rule_v(
            table,
            post,
            set_name_v6(anti_name),
            RuleProto::Ip6,
            RuleDirection::Daddr,
            false,
            Verdict::Accept,
            "postrouting ipv6 anti-lockout rule"@,
        ),
        rule_v(
            table,
            pre,
            set_name_v4(custom_name),
            RuleProto::Ip,
            RuleDirection::Saddr,
            true,
            Verdict::Drop,
            "prerouting ipv4 custom blocklist rule"@,
        ),
        rule_v(
            table,
            pre,
            set_name_v6(custom_name),
            RuleProto::Ip6,
            RuleDirection::Saddr,
            true,
            Verdict::Drop,
            "prerouting ipv6 custom blocklist rule"@,
        ),
        rule_v(
            table,
            post,
            set_name_v4(custom_name),
            RuleProto::Ip,
            RuleDirection::Daddr,
            true,
            Verdict::Drop,
            "postrouting ipv4 custom blocklist rule"@,
        ),
        rule_v(
            table,
            post,
            set_name_v6(custom_name),
            RuleProto::Ip6,
            RuleDirection::Daddr,
            true,
            Verdict::Drop,
            "postrouting ipv6 custom blocklist rule"@,
        ),
        rule_v(
            table,
            pre,
            set_name_v4(block_name),
            RuleProto::Ip,
            RuleDirection::Saddr,
            true,
            Verdict::Drop,
            "prerouting ipv4 blocklist rule"@,
        ),
        rule_v(
            table,
            pre,
            set_name_v6(block_name),
            RuleProto::Ip6,
            RuleDirection::Saddr,
            true,
            Verdict::Drop,
            "prerouting ipv6 blocklist rule"@,
        ),
        rule_v(
            table,
            post,
            set_name_v4(block_name),
            RuleProto::Ip,
            RuleDirection::Daddr,
            true,
            Verdict::Drop,
            "postrouting ipv4 blocklist rule"@,
        ),
        rule_v(
            table,
            post,
            set_name_v6(block_name),
            RuleProto::Ip6,
            RuleDirection::Daddr,
            true,
            Verdict::Drop,
            "postrouting ipv6 blocklist rule"@,
        ),
    ]
}

/// Appends a set's element payload when the set has elements.
pub open spec fn with_elements(
    s: Seq<RulesetObjectV>,
    table: Seq<char>,
    set_name: Seq<char>,
    elements: Option<Seq<PrefixV>>,
) -> Seq<RulesetObjectV> {
    match elements {
        Option::Some(e) => s.push(RulesetObjectV::Elements { table, set_name, elements: e }),
        Option::None => s,
    }
}

/// The complete synthesized document: the fixed head, then the element
/// payloads of every non-empty set — anti-lockout, custom, then fetched
/// blocklist, IPv4 before IPv6 — so that the structure stands before the
/// data.
pub open spec fn ruleset_spec(
    table: Seq<char>,
    pre: Seq<char>,
    post: Seq<char>,
    block_name: Seq<char>,
    anti_name: Seq<char>,
    custom_name: Seq<char>,
    anti4: Option<Seq<PrefixV>>,
    anti6: Option<Seq<PrefixV>>,
    custom4: Option<Seq<PrefixV>>,
    custom6: Option<Seq<PrefixV>>,
    v4: Option<Seq<PrefixV>>,
    v6: Option<Seq<PrefixV>>,
) -> Seq<RulesetObjectV> {
    let s = ruleset_base(table, pre, post, block_name, anti_name, custom_name);
    let s = with_elements(s, table, set_name_v4(anti_name), anti4);
    let s = with_elements(s, table, set_name_v6(anti_name), anti6);
    let s = with_elements(s, table, set_name_v4(custom_name), custom4);
    let s = with_elements(s, table, set_name_v6(custom_name), custom6);
    let s = with_elements(s, table, set_name_v4(block_name), v4);
    let s = with_elements(s, table, set_name_v6(block_name), v6);
    s
}

/// Whether a document object is a rule that accepts.
pub open spec fn is_accept_rule(o: RulesetObjectV) -> bool {
    match o {
        RulesetObjectV::Rule { verdict, .. } => verdict == Verdict::Accept,
        _ => false,
    }
}

/// Whether a document object is a rule that drops.
pub open spec fn is_drop_rule(o: RulesetObjectV) -> bool {
    match o {
        RulesetObjectV::Rule { verdict, .. } => verdict == Verdict::Drop,
        _ => false,
    }
}

/// Appending a set's element payload keeps every earlier object and adds
/// only element objects.
proof fn lemma_with_elements_keeps(
    s: Seq<RulesetObjectV>,
    table: Seq<char>,
    set_name: Seq<char>,
    elements: Option<Seq<PrefixV>>,
)
    ensures
        ({
            let r = with_elements(s, table, set_name, elements);
            &&& r.len() >= s.len()
            &&& forall|i: int| 0 <= i < s.len() ==> r[i] == s[i]
            &&& forall|i: int| s.len() <= i < r.len() ==> r[i] is Elements
        }),
{
}

/// Rule ordering: in every synthesized document, every anti-lockout accept
/// rule stands ahead of every drop rule, so that a packet matching both an
/// anti-lockout entry and a blocklist entry is accepted.
pub proof fn lemma_anti_lockout_precedes_drops(
    table: Seq<char>,
    pre: Seq<char>,
    post: Seq<char>,
    block_name: Seq<char>,
    anti_name: Seq<char>,
    custom_name: Seq<char>,
    anti4: Option<Seq<PrefixV>>,
    anti6: Option<Seq<PrefixV>>,
    custom4: Option<Seq<PrefixV>>,
    custom6: Option<Seq<PrefixV>>,
    v4: Option<Seq<PrefixV>>,
    v6: Option<Seq<PrefixV>>,
)
    ensures
        ({
            let s = ruleset_spec(
                table,
                pre,
                post,
                block_name,
                anti_name,
                custom_name,
                anti4,
                anti6,
                custom4,
                custom6,
                v4,
                v6,
            );
            forall|i: int, j: int|
                0 <= i < s.len() && 0 <= j < s.len() && is_accept_rule(#[trigger] s[i])
                    && is_drop_rule(#[trigger] s[j]) ==> i < j
        }),
{
    let base = ruleset_base(table, pre, post, block_name, anti_name, custom_name);
    let s0 = base;
    let s1 = with_elements(s0, table, set_name_v4(anti_name), anti4);
    let s2 = with_elements(s1, table, set_name_v6(anti_name), anti6);
    let s3 = with_elements(s2, table, set_name_v4(custom_name), custom4);
    let s4 = with_elements(s3, table, set_name_v6(custom_name), custom6);
    let s5 = with_elements(s4, table, set_name_v4(block_name), v4);
    let s6 = with_elements(s5, table, set_name_v6(block_name), v6);
    let s = ruleset_spec(
        table,
        pre,
        post,
        block_name,
        anti_name,
        custom_name,
        anti4,
        anti6,
        custom4,
        custom6,
        v4,
        v6,
    );
    assert(s == s6);
    lemma_with_elements_keeps(s0, table, set_name_v4(anti_name), anti4);
    lemma_with_elements_keeps(s1, table, set_name_v6(anti_name), anti6);
    lemma_with_elements_keeps(s2, table, set_name_v4(custom_name), custom4);
    lemma_with_elements_keeps(s3, table, set_name_v6(custom_name), custom6);
    lemma_with_elements_keeps(s4, table, set_name_v4(block_name), v4);
    lemma_with_elements_keeps(s5, table, set_name_v6(block_name), v6);
    assert(base.len() == 23);
    assert forall|i: int| 0 <= i < s.len() implies (if i < 23 {
        s[i] == base[i]
    } else {
        s[i] is Elements
    }) by {
        if i < s0.len() {
        } else if i < s1.len() {
        } else if i < s2.len() {
        } else if i < s3.len() {
        } else if i < s4.len() {
        } else if i < s5.len() {
        }
    }
    assert forall|i: int| 0 <= i < s.len() && is_accept_rule(#[trigger] s[i]) implies 11 <= i
        <= 14 by {
        if i < 23 && !(11 <= i <= 14) {
            assert(!is_accept_rule(base[i]));
        }
    }
    assert forall|j: int| 0 <= j < s.len() && is_drop_rule(#[trigger] s[j]) implies 15 <= j by {
        if j < 15 {
            assert(!is_drop_rule(base[j]));
        }
    }
}

/// The synthesizer's configuration: the table, chain and set names, and the
/// two administrator-controlled sets with their validated elements.
pub struct NftConfig {
    /// Name of the table holding the whole ruleset.
    pub table_name: String,
    /// Name of the chain hooked on inbound traffic.
    pub prerouting_chain: String,
    /// Name of the chain hooked on outbound traffic.
    pub postrouting_chain: String,
    /// Base name of the fetched blocklist sets.
    pub blocklist_set_name: String,
    /// The anti-lockout set: always accepted, never blocked.
    pub anti_lockout_set: CustomSet,
    /// The administrator's own blocklist set.
    pub custom_blocklist_set: CustomSet,
}

impl NftConfig {
    /// The one-object document that tears the whole table down, for the
    /// delete-and-exit mode.
    pub fn delete_ruleset(&self) -> (r: RulesetDocument)
        ensures
            r.objects_v() == Seq::<RulesetObjectV>::empty().push(
                RulesetObjectV::DeleteTable { name: self.table_name@ },
            ),
    {
        NftRulesetBuilder::new().delete_table(self.table_name.as_str()).build_ruleset()
    }

    /// Synthesizes the complete desired firewall state for one cycle from
    /// the configuration and the fetched blocklist elements.  Building the
    /// document cannot fail: it is pure data assembly over already
    /// validated input.
    pub fn generate_ruleset(
        &self,
        ipv4_elements: &Option<SetElements>,
        ipv6_elements: &Option<SetElements>,
    ) -> (r: RulesetDocument)
        ensures
            r.objects_v() == ruleset_spec(
                self.table_name@,
                self.prerouting_chain@,
                self.postrouting_chain@,
                self.blocklist_set_name@,
                self.anti_lockout_set.set_name@,
                self.custom_blocklist_set.set_name@,
                opt_elements_v(self.anti_lockout_set.ipv4_elements),
                opt_elements_v(self.anti_lockout_set.ipv6_elements),
                opt_elements_v(self.custom_blocklist_set.ipv4_elements),
                opt_elements_v(self.custom_blocklist_set.ipv6_elements),
                opt_elements_v(*ipv4_elements),
                opt_elements_v(*ipv6_elements),
            ),
    {
        let table = self.table_name.as_str();
        let ipv4_blocklist_set_name = self.blocklist_set_name.clone().concat("_ipv4");
        let ipv6_blocklist_set_name = self.blocklist_set_name.clone().concat("_ipv6");
        let ipv4_anti_lockout_set_name = self.anti_lockout_set.set_name.clone().concat("_ipv4");
        let ipv6_anti_lockout_set_name = self.anti_lockout_set.set_name.clone().concat("_ipv6");
        let ipv4_custom_set_name = self.custom_blocklist_set.set_name.clone().concat("_ipv4");
        let ipv6_custom_set_name = self.custom_blocklist_set.set_name.clone().concat("_ipv6");

        let mut builder = NftRulesetBuilder::new().build_table(table).delete_table(
            table,
        ).build_table(table).build_chain(
            table,
            self.prerouting_chain.as_str(),
            NfHook::Prerouting,
            -300,
        ).build_chain(
            table,
            self.postrouting_chain.as_str(),
            NfHook::Postrouting,
            300,
        ).build_set(table, ipv4_anti_lockout_set_name.clone(), &SetType::Ipv4Addr).build_set(
            table,
            ipv6_anti_lockout_set_name.clone(),
            &SetType::Ipv6Addr,
        ).build_set(table, ipv4_blocklist_set_name.clone(), &SetType::Ipv4Addr).build_set(
            table,
            ipv6_blocklist_set_name.clone(),
            &SetType::Ipv6Addr,
        ).build_set(table, ipv4_custom_set_name.clone(), &SetType::Ipv4Addr).build_set(
            table,
            ipv6_custom_set_name.clone(),
            &SetType::Ipv6Addr,
        ).build_rule(
            table,
            self.prerouting_chain.as_str(),
            ipv4_anti_lockout_set_name.clone(),
            RuleProto::Ip,
            RuleDirection::Saddr,
            false,
            Verdict::Accept,
            "prerouting ipv4 anti-lockout rule",
        ).build_rule(
            table,
            self.prerouting_chain.as_str(),
            ipv6_anti_lockout_set_name.clone(),
            RuleProto::Ip6,
            RuleDirection::Saddr,
            false,
            Verdict::Accept,
            "prerouting ipv6 anti-lockout rule",
        ).build_rule(
            table,
            self.postrouting_chain.as_str(),
            ipv4_anti_lockout_set_name.clone(),
            RuleProto::Ip,
            RuleDirection::Daddr,
            false,
            Verdict::Accept,
            "postrouting ipv4 anti-lockout rule",
        ).build_rule(
            table,
            self.postrouting_chain.as_str(),
            ipv6_anti_lockout_set_name.clone(),
            RuleProto::Ip6,
            RuleDirection::Daddr,
            false,
            Verdict::Accept,
            "postrouting ipv6 anti-lockout rule",
        ).build_rule(
            table,
            self.prerouting_chain.as_str(),
            ipv4_custom_set_name.clone(),
            RuleProto::Ip,
            RuleDirection::Saddr,
            true,
            Verdict::Drop,
            "prerouting ipv4 custom blocklist rule",
        ).build_rule(
            table,
            self.prerouting_chain.as_str(),
            ipv6_custom_set_name.clone(),
            RuleProto::Ip6,
            RuleDirection::Saddr,
            true,
            Verdict::Drop,
            "prerouting ipv6 custom blocklist rule",
        ).build_rule(
            table,
            self.postrouting_chain.as_str(),
            ipv4_custom_set_name.clone(),
            RuleProto::Ip,
            RuleDirection::Daddr,
            true,
            Verdict::Drop,
            "postrouting ipv4 custom blocklist rule",
        ).build_rule(
            table,
            self.postrouting_chain.as_str(),
            ipv6_custom_set_name.clone(),
            RuleProto::Ip6,
            RuleDirection::Daddr,
            true,
            Verdict::Drop,
            "postrouting ipv6 custom blocklist rule",
        ).build_rule(
            table,
            self.prerouting_chain.as_str(),
            ipv4_blocklist_set_name.clone(),
            RuleProto::Ip,
            RuleDirection::Saddr,
            true,
            Verdict::Drop,
            "prerouting ipv4 blocklist rule",
        ).build_rule(
            table,
            self.prerouting_chain.as_str(),
            ipv6_blocklist_set_name.clone(),
            RuleProto::Ip6,
            RuleDirection::Saddr,
            true,
            Verdict::Drop,
            "prerouting ipv6 blocklist rule",
        ).build_rule(
            table,
            self.postrouting_chain.as_str(),
            ipv4_blocklist_set_name.clone(),
            RuleProto::Ip,
            RuleDirection::Daddr,
            true,
            Verdict::Drop,
            "postrouting ipv4 blocklist rule",
        ).build_rule(
            table,
            self.postrouting_chain.as_str(),
            ipv6_blocklist_set_name.clone(),
            RuleProto::Ip6,
            RuleDirection::Daddr,
            true,
            Verdict::Drop,
            "postrouting ipv6 blocklist rule",
        );
        proof {
            assert(builder.objects_v() =~= ruleset_base(
                self.table_name@,
                self.prerouting_chain@,
                self.postrouting_chain@,
                self.blocklist_set_name@,
                self.anti_lockout_set.set_name@,
                self.custom_blocklist_set.set_name@,
            ));
        }
        if let Some(e) = &self.anti_lockout_set.ipv4_elements {
            builder = builder.build_set_elements(table, ipv4_anti_lockout_set_name, e);
        }
        if let Some(e) = &self.anti_lockout_set.ipv6_elements {
            builder = builder.build_set_elements(table, ipv6_anti_lockout_set_name, e);
        }
        if let Some(e) = &self.custom_blocklist_set.ipv4_elements {
            builder = builder.build_set_elements(table, ipv4_custom_set_name, e);
        }
        if let Some(e) = &self.custom_blocklist_set.ipv6_elements {
            builder = builder.build_set_elements(table, ipv6_custom_set_name, e);
        }
        if let Some(e) = ipv4_elements {
            builder = builder.build_set_elements(table, ipv4_blocklist_set_name, e);
        }
        if let Some(e) = ipv6_elements {
            builder = builder.build_set_elements(table, ipv6_blocklist_set_name, e);
        }
        builder.build_ruleset()
    }
}

} // verus!
