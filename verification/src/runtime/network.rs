//! Container network setup: veth pair, namespace, address, interfaces, bridge.

use vstd::prelude::*;
use vstd::string::*;

use crate::runtime::steps::{step_views, Step, StepView};
use crate::text::{decimal, owned, push_decimal, text_views};

verus! {

/// An IPv4 address.
#[derive(Debug, Clone, Copy, PartialEq, Eq, Structural)]
pub struct Ipv4 {
    /// First octet.
    pub a: u8,
    /// Second octet.
    pub b: u8,
    /// Third octet.
    pub c: u8,
    /// Fourth octet.
    pub d: u8,
}

impl Ipv4 {
    /// The address in dotted decimal notation.
    pub open spec fn text(self) -> Seq<char> {
        decimal(self.a as nat) + "."@ + decimal(self.b as nat) + "."@ + decimal(self.c as nat)
            + "."@ + decimal(self.d as nat)
    }

    /// Write the address in dotted decimal notation.
    pub fn to_string(&self) -> (s: String)
        ensures
            s@ == self.text(),
    {
        let mut s = owned("");
        proof {
            reveal_strlit("");
        }
        push_decimal(&mut s, self.a as u64);
        s.append(".");
        push_decimal(&mut s, self.b as u64);
        s.append(".");
        push_decimal(&mut s, self.c as u64);
        s.append(".");
        push_decimal(&mut s, self.d as u64);
        assert(s@ =~= self.text());
        s
    }
}

/// Network configuration for a container.
#[derive(Debug)]
pub struct NetworkConfig {
    /// Name of the host-side veth interface (e.g., "veth-abc123").
    pub host_veth: String,
    /// Name of the container-side veth interface (e.g., "eth0").
    pub container_veth: String,
    /// IPv4 address for the container interface.
    pub container_ip: Ipv4,
    /// Subnet prefix length (e.g., 24 for /24).
    pub prefix_len: u8,
    /// Gateway IP for the container (typically the host-side veth IP).
    pub gateway: Ipv4,
    /// Name of the bridge interface to attach the host veth to (if any).
    pub bridge: Option<String>,
}

/// A configuration in a subnet, with the usual interface names.
pub open spec fn in_subnet(c: NetworkConfig, host_veth: Seq<char>, subnet: u8) -> bool {
    &&& c.host_veth@ == host_veth
    &&& c.container_veth@ == "eth0"@
    &&& c.container_ip == Ipv4 { a: 10, b: 0, c: subnet, d: 2 }
    &&& c.prefix_len == 24
    &&& c.gateway == Ipv4 { a: 10, b: 0, c: subnet, d: 1 }
    &&& c.bridge is Some
    &&& c.bridge->Some_0@ == "lev-br0"@
}

/// The host-side interface name of a container: the first eight characters of
/// its ID after a fixed prefix.
pub open spec fn veth_name(container_id: Seq<char>) -> Seq<char> {
    "veth-"@ + container_id.take(
        if container_id.len() < 8 {
            container_id.len() as int
        } else {
            8
        },
    )
}

impl Default for NetworkConfig {
    fn default() -> (c: Self)
        ensures
            in_subnet(c, "veth-host0"@, 0),
    {
        NetworkConfig {
            host_veth: owned("veth-host0"),
            container_veth: owned("eth0"),
            container_ip: Ipv4 { a: 10, b: 0, c: 0, d: 2 },
            prefix_len: 24,
            gateway: Ipv4 { a: 10, b: 0, c: 0, d: 1 },
            bridge: Some(owned("lev-br0")),
        }
    }
}

impl NetworkConfig {
    /// Generate a network config for a container, with a veth name after its ID
    /// that keeps within the limit of 15 characters.
    pub fn for_container(container_id: &str, subnet_index: u8) -> (c: Self)
        ensures
            in_subnet(c, veth_name(container_id@), subnet_index),
            c.host_veth@.len() <= 15,
    {
        let total: usize = container_id.unicode_len();
        let n: usize = if total < 8 { total } else { 8 };
        let mut host_veth = owned("veth-");
        host_veth.append(container_id.substring_char(0, n));
        proof {
            reveal_strlit("veth-");
            assert(container_id@.subrange(0, n as int) =~= container_id@.take(n as int));
        }
        NetworkConfig {
            host_veth,
            container_veth: owned("eth0"),
            container_ip: Ipv4 { a: 10, b: 0, c: subnet_index, d: 2 },
            prefix_len: 24,
            gateway: Ipv4 { a: 10, b: 0, c: subnet_index, d: 1 },
            bridge: Some(owned("lev-br0")),
        }
    }
}

/// Containers whose IDs differ within the first eight characters get different
/// host-side interface names.
pub proof fn veth_names_are_unique(a: Seq<char>, b: Seq<char>)
    requires
        a.len() >= 8,
        b.len() >= 8,
        a.take(8) != b.take(8),
    ensures
        veth_name(a) != veth_name(b),
{
    if veth_name(a) == veth_name(b) {
        let n = "veth-"@.len() as int;
        assert(veth_name(a).skip(n) =~= a.take(8));
        assert(veth_name(b).skip(n) =~= b.take(8));
    }
}

/// The creation of a veth pair on the host.
pub open spec fn veth_step(host: Seq<char>, container: Seq<char>) -> StepView {
    StepView::RunIp {
        args: seq!["link"@, "add"@, host, "type"@, "veth"@, "peer"@, "name"@, container],
        in_container: false,
        operation: "veth_create"@,
        must_succeed: true,
    }
}

/// The move of an interface into the container's network namespace.
pub open spec fn move_step(iface: Seq<char>) -> StepView {
    StepView::MoveInterface { interface: iface, operation: "netns_move"@ }
}

/// The assignment of an address to an interface of the container.
pub open spec fn address_step(iface: Seq<char>, ip: Ipv4, prefix_len: u8) -> StepView {
    StepView::RunIp {
        args: seq![
            "addr"@,
            "add"@,
            ip.text() + "/"@ + decimal(prefix_len as nat),
            "dev"@,
            iface,
        ],
        in_container: true,
        operation: "ip_assign"@,
        must_succeed: true,
    }
}

/// The activation of an interface of the container or of the host.
pub open spec fn up_step(iface: Seq<char>, in_container: bool) -> StepView {
    StepView::RunIp {
        args: seq!["link"@, "set"@, iface, "up"@],
        in_container,
        operation: "interface_up"@,
        must_succeed: true,
    }
}

/// The attachment of an interface of the host to a bridge. The bridge may not exist, so a
/// command that reports failure does not matter.
pub open spec fn bridge_step(bridge: Seq<char>, iface: Seq<char>) -> StepView {
    StepView::RunIp {
        args: seq!["link"@, "set"@, iface, "master"@, bridge],
        in_container: false,
        operation: "bridge_attach"@,
        must_succeed: false,
    }
}

/// The steps that set up a container's network.
pub open spec fn network_steps(c: NetworkConfig) -> Seq<StepView> {
    seq![
        veth_step(c.host_veth@, c.container_veth@),
        move_step(c.container_veth@),
        address_step(c.container_veth@, c.container_ip, c.prefix_len),
        up_step(c.host_veth@, false),
        up_step(c.container_veth@, true),
    ] + match c.bridge {
        Some(bridge) => seq![bridge_step(bridge@, c.host_veth@)],
        None => Seq::empty(),
    }
}

fn create_veth_pair(host_name: &str, container_name: &str) -> (step: Step)
    ensures
        step@ == veth_step(host_name@, container_name@),
{
    let args: Vec<String> = vec![
        owned("link"),
        owned("add"),
        owned(host_name),
        owned("type"),
        owned("veth"),
        owned("peer"),
        owned("name"),
        owned(container_name),
    ];
    assert(text_views(args@) =~= veth_step(host_name@, container_name@)->RunIp_args);
    Step::RunIp {
        args,
        in_container: false,
        operation: owned("veth_create"),
        must_succeed: true,
    }
}

fn move_into_namespace(iface: &str) -> (step: Step)
    ensures
        step@ == move_step(iface@),
{
    Step::MoveInterface { interface: owned(iface), operation: owned("netns_move") }
}

fn assign_ip(iface: &str, ip: Ipv4, prefix_len: u8) -> (step: Step)
    ensures
        step@ == address_step(iface@, ip, prefix_len),
{
    let mut address = ip.to_string();
    address.append("/");
    push_decimal(&mut address, prefix_len as u64);
    let args: Vec<String> = vec![owned("addr"), owned("add"), address, owned("dev"), owned(iface)];
    assert(text_views(args@) =~= address_step(iface@, ip, prefix_len)->RunIp_args);
    Step::RunIp { args, in_container: true, operation: owned("ip_assign"), must_succeed: true }
}

fn bring_interface_up(iface: &str, in_container: bool) -> (step: Step)
    ensures
        step@ == up_step(iface@, in_container),
{
    let args: Vec<String> = vec![owned("link"), owned("set"), owned(iface), owned("up")];
    assert(text_views(args@) =~= up_step(iface@, in_container)->RunIp_args);
    Step::RunIp { args, in_container, operation: owned("interface_up"), must_succeed: true }
}

fn attach_to_bridge(bridge: &str, iface: &str) -> (step: Step)
    ensures
        step@ == bridge_step(bridge@, iface@),
{
    let args: Vec<String> = vec![
        owned("link"),
        owned("set"),
        owned(iface),
        owned("master"),
        owned(bridge),
    ];
    assert(text_views(args@) =~= bridge_step(bridge@, iface@)->RunIp_args);
    Step::RunIp {
        args,
        in_container: false,
        operation: owned("bridge_attach"),
        must_succeed: false,
    }
}

/// Plan the setup of the container's network: create the veth pair, move the
/// container's side into the container's network namespace, assign the address, bring
/// both interfaces up and attach the host side to the bridge.
pub fn setup_container_network(config: &NetworkConfig) -> (steps: Vec<Step>)
    ensures
        step_views(steps@) == network_steps(*config),
{
    let host = config.host_veth.as_str();
    let container = config.container_veth.as_str();
    let mut steps: Vec<Step> = Vec::new();
    steps.push(create_veth_pair(host, container));
    steps.push(move_into_namespace(container));
    steps.push(assign_ip(container, config.container_ip, config.prefix_len));
    steps.push(bring_interface_up(host, false));
    steps.push(bring_interface_up(container, true));
    match &config.bridge {
        Some(bridge) => {
            steps.push(attach_to_bridge(bridge.as_str(), host));
        },
        None => {},
    }
    assert(step_views(steps@) =~= network_steps(*config));
    steps
}

/// The network of a container: both ends of the veth pair are made on the host, the
/// container's end is moved into the container before anything else happens to it, and
/// from then on is configured inside: it gets the configured address, and is brought up.
/// The host's end is brought up on the host, and put on the bridge if there is one.
pub proof fn container_end_is_configured_inside(c: NetworkConfig, i: int)
    requires
        0 <= i < network_steps(c).len(),
    ensures
        ({
            let steps = network_steps(c);
            let step = steps[i];
            &&& steps.len() == (if c.bridge is Some {
                6int
            } else {
                5
            })
            &&& steps[0] is RunIp && steps[0]->args.contains(c.host_veth@)
                && steps[0]->args.contains(c.container_veth@) && steps[0]->args.contains("veth"@)
            &&& steps[1] is MoveInterface && steps[1]->interface == c.container_veth@
            &&& step is MoveInterface <==> i == 1
            &&& step is RunIp && step->in_container ==> i > 1 && step->args.contains(
                c.container_veth@,
            )
            &&& step is RunIp && !step->in_container ==> step->args.contains(c.host_veth@)
            &&& steps[2] is RunIp && steps[2]->in_container && steps[2]->args == seq![
                "addr"@,
                "add"@,
                decimal(c.container_ip.a as nat) + "."@ + decimal(c.container_ip.b as nat) + "."@
                    + decimal(c.container_ip.c as nat) + "."@ + decimal(c.container_ip.d as nat)
                    + "/"@ + decimal(c.prefix_len as nat),
                "dev"@,
                c.container_veth@,
            ]
            &&& steps[3] is RunIp && !steps[3]->in_container && steps[3]->args == seq![
                "link"@,
                "set"@,
                c.host_veth@,
                "up"@,
            ]
            &&& steps[4] is RunIp && steps[4]->in_container && steps[4]->args == seq![
                "link"@,
                "set"@,
                c.container_veth@,
                "up"@,
            ]
            &&& c.bridge matches Some(bridge) ==> steps[5] is RunIp && !steps[5]->in_container
                && steps[5]->args == seq!["link"@, "set"@, c.host_veth@, "master"@, bridge@]
            &&& step is RunIp ==> (step->must_succeed <==> i < 5)
        }),
{
    let steps = network_steps(c);
    assert(steps[0]->args[2] == c.host_veth@);
    assert(steps[0]->args[4] == "veth"@);
    assert(steps[0]->args[7] == c.container_veth@);
    assert(steps[2]->args[4] == c.container_veth@);
    assert(steps[3]->args[2] == c.host_veth@);
    assert(steps[4]->args[2] == c.container_veth@);
    if c.bridge is Some {
        assert(steps[5]->args[2] == c.host_veth@);
    }
}

/// A container's host-side interface is named after the container: after a fixed prefix
/// come the characters with which its ID begins, eight or as many as there are.
pub proof fn interfaces_are_named_after_their_container(id: Seq<char>)
    ensures
        id.len() <= 8 ==> veth_name(id) == "veth-"@ + id,
        id.len() > 8 ==> veth_name(id) == "veth-"@ + id.subrange(0, 8),
{
    assert(id.take(id.len() as int) =~= id);
    assert(id.take(8) =~= id.subrange(0, 8));
}

/// A container in a subnet has its address and its gateway there, a 24-bit prefix, the
/// usual interface name and the platform's bridge.
pub proof fn subnets_hold_container_and_gateway(c: NetworkConfig, host: Seq<char>, subnet: u8)
    requires
        in_subnet(c, host, subnet),
    ensures
        c.host_veth@ == host,
        c.container_veth@ == "eth0"@,
        c.container_ip == (Ipv4 { a: 10, b: 0, c: subnet, d: 2 }),
        c.gateway == (Ipv4 { a: 10, b: 0, c: subnet, d: 1 }),
        c.prefix_len == 24,
        c.bridge is Some && c.bridge->Some_0@ == "lev-br0"@,
{
}

/// A container's configuration is named after it and lies in the subnet it was made for.
pub proof fn configurations_are_made_for_their_container(id: &str, subnet: u8, c: NetworkConfig)
    requires
        call_ensures(NetworkConfig::for_container, (id, subnet), c),
    ensures
        c.host_veth@.len() <= 15,
        id@.len() <= 8 ==> c.host_veth@ == "veth-"@ + id@,
        c.container_ip == (Ipv4 { a: 10, b: 0, c: subnet, d: 2 }),
        c.gateway == (Ipv4 { a: 10, b: 0, c: subnet, d: 1 }),
        c.prefix_len == 24,
{
    interfaces_are_named_after_their_container(id@);
}

} // verus!
