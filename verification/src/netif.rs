//! Reading an IPv4 address from a local network interface.
//!
//! The machine's interface table comes from an outside call; what is
//! done with it — find the named interface, take its first IPv4
//! address, distinguish "no such interface" from "no IPv4 address" —
//! is verified against the table as a value.

use vstd::prelude::*;
use crate::error::IfaceError;

verus! {

/// One address bound to an interface, as plain values: whether it is
/// IPv4 and its textual form.
pub struct IfaceAddr {
    pub is_v4: bool,
    pub addr: String,
}

/// One network interface: its name and its bound addresses in order.
pub struct IfaceInfo {
    pub name: String,
    pub addrs: Vec<IfaceAddr>,
}

/// The first IPv4 address in a bound-address list.
pub open spec fn spec_first_v4(addrs: Seq<IfaceAddr>) -> Option<Seq<char>>
    decreases addrs.len(),
{
    if addrs.len() == 0 {
        None
    } else if addrs[0].is_v4 {
        Some(addrs[0].addr@)
    } else {
        spec_first_v4(addrs.drop_first())
    }
}

/// Index of the first interface with the given name, or -1 when none
/// has it.
pub open spec fn spec_iface_index(t: Seq<IfaceInfo>, name: Seq<char>) -> int
    decreases t.len(),
{
    if t.len() == 0 {
        -1
    } else if t[0].name@ == name {
        0
    } else {
        let r = spec_iface_index(t.drop_first(), name);
        if r < 0 {
            -1
        } else {
            r + 1
        }
    }
}

/// What interface detection decides, given the machine's interface
/// table: the first IPv4 address of the first interface with the
/// requested name; "not found" and "no IPv4 address" are distinct
/// failures.
pub open spec fn spec_pick_iface(t: Seq<IfaceInfo>, name: Seq<char>) -> Result<Seq<char>, IfaceError> {
    let i = spec_iface_index(t, name);
    if i < 0 {
        Err(IfaceError::NotFound)
    } else {
        match spec_first_v4(t[i].addrs@) {
            Some(a) => Ok(a),
            None => Err(IfaceError::NoIpv4),
        }
    }
}

/// A `Result` of interface detection, abstracted to its view.
pub open spec fn iface_result_view(r: Result<String, IfaceError>) -> Result<Seq<char>, IfaceError> {
    match r {
        Ok(s) => Ok(s@),
        Err(e) => Err(e),
    }
}

proof fn lemma_iface_index_hit(t: Seq<IfaceInfo>, name: Seq<char>, i: int)
    requires
        0 <= i < t.len(),
        t[i].name@ == name,
        forall|j: int| 0 <= j < i ==> t[j].name@ != name,
    ensures
        spec_iface_index(t, name) == i,
    decreases t.len(),
{
    if i != 0 {
        assert(t.drop_first()[i - 1] == t[i]);
        assert(forall|j: int| 0 <= j < i - 1 ==> t.drop_first()[j].name@ != name);
        lemma_iface_index_hit(t.drop_first(), name, i - 1);
    }
}

proof fn lemma_iface_index_miss(t: Seq<IfaceInfo>, name: Seq<char>)
    requires
        forall|j: int| 0 <= j < t.len() ==> t[j].name@ != name,
    ensures
        spec_iface_index(t, name) == -1,
    decreases t.len(),
{
    if t.len() != 0 {
        assert(forall|j: int| 0 <= j < t.drop_first().len() ==> t.drop_first()[j].name@ != name);
        lemma_iface_index_miss(t.drop_first(), name);
    }
}

proof fn lemma_first_v4_hit(addrs: Seq<IfaceAddr>, i: int)
    requires
        0 <= i < addrs.len(),
        addrs[i].is_v4,
        forall|j: int| 0 <= j < i ==> !addrs[j].is_v4,
    ensures
        spec_first_v4(addrs) == Some(addrs[i].addr@),
    decreases addrs.len(),
{
    if i != 0 {
        assert(addrs.drop_first()[i - 1] == addrs[i]);
        assert(forall|j: int| 0 <= j < i - 1 ==> !addrs.drop_first()[j].is_v4);
        lemma_first_v4_hit(addrs.drop_first(), i - 1);
    }
}

proof fn lemma_first_v4_none(addrs: Seq<IfaceAddr>)
    requires
        forall|j: int| 0 <= j < addrs.len() ==> !addrs[j].is_v4,
    ensures
        spec_first_v4(addrs) is None,
    decreases addrs.len(),
{
    if addrs.len() != 0 {
        assert(forall|j: int| 0 <= j < addrs.drop_first().len() ==> !addrs.drop_first()[j].is_v4);
        lemma_first_v4_none(addrs.drop_first());
    }
}

/// Resolve an interface name to its first IPv4 address within a given
/// interface table.
#[verifier::loop_isolation(false)]
pub fn pick_iface_ipv4(table: &Vec<IfaceInfo>, iface: &String) -> (r: Result<String, IfaceError>)
    ensures
        iface_result_view(r) == spec_pick_iface(table@, iface@),
{
    let n = table.len();
    let mut i: usize = 0;
    while i < n
        invariant
            i <= n,
            forall|j: int| 0 <= j < i ==> table@[j].name@ != iface@,
        decreases n - i,
    {
        if table[i].name == *iface {
            proof {
                lemma_iface_index_hit(table@, iface@, i as int);
            }
            let addrs = &table[i].addrs;
            let m = addrs.len();
            let mut a: usize = 0;
            while a < m
                invariant
                    a <= m == addrs@.len(),
                    addrs@ == table@[i as int].addrs@,
                    spec_iface_index(table@, iface@) == i,
                    forall|j: int| 0 <= j < a ==> !addrs@[j].is_v4,
                decreases m - a,
            {
                if addrs[a].is_v4 {
                    proof {
                        lemma_first_v4_hit(addrs@, a as int);
                    }
                    return Ok(addrs[a].addr.clone());
                }
                a = a + 1;
            }
            proof {
                lemma_first_v4_none(addrs@);
            }
            return Err(IfaceError::NoIpv4);
        }
        i = i + 1;
    }
    proof {
        lemma_iface_index_miss(table@, iface@);
    }
    Err(IfaceError::NotFound)
}

/// Relies on pnet_datalink::interfaces for the machine's network
/// interface table (each interface's name and bound addresses, in
/// order).  The result depends on the machine's state, so nothing is
/// promised of it; the conversion keeps each address's textual form
/// and whether it is IPv4.
#[verifier::external_body]
fn list_interfaces() -> (r: Vec<IfaceInfo>) {
    pnet_datalink::interfaces()
        .into_iter()
        .map(|i| IfaceInfo {
            name: i.name,
            addrs: i
                .ips
                .into_iter()
                .map(|n| IfaceAddr { is_v4: n.is_ipv4(), addr: n.ip().to_string() })
                .collect(),
        })
        .collect()
}

/// Read the first IPv4 address bound to the named network interface of
/// this machine.  The result is exactly `spec_pick_iface` applied to
/// the machine's interface table at the time of the call.
pub fn detect_iface(iface: &String) -> (r: Result<String, IfaceError>)
    ensures
        exists|t: Seq<IfaceInfo>| iface_result_view(r) == spec_pick_iface(t, iface@),
{
    let table = list_interfaces();
    let r = pick_iface_ipv4(&table, iface);
    proof {
        assert(iface_result_view(r) == spec_pick_iface(table@, iface@));
    }
    r
}

} // verus!
