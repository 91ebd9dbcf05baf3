//! How a UDP socket is set up, as a list of steps to carry out.

use vstd::prelude::*;

use crate::addr::SocketAddr;

verus! {

/// A socket option and its value.
#[derive(Clone, Copy, Debug, PartialEq, Eq, Structural)]
pub enum SocketOption {
    ReuseAddress,
    ReusePort,
    TransparentV4,
    TransparentV6,
    FreebindV4,
    FreebindV6,
    TtlV4(u32),
    UnicastHopsV6(u32),
}

/// The set-up of a UDP socket: its family, the options to set, in order, and
/// the address to bind at the end, if any.
#[derive(Debug)]
pub struct SocketPlan {
    pub is_ipv6: bool,
    pub options: Vec<SocketOption>,
    pub bind: Option<SocketAddr>,
}

impl SocketPlan {
    /// The plan consists of these steps.
    pub open spec fn is(
        self,
        is_ipv6: bool,
        options: Seq<SocketOption>,
        bind: Option<SocketAddr>,
    ) -> bool {
        &&& self.is_ipv6 == is_ipv6
        &&& self.options@ == options
        &&& self.bind == bind
    }
}

/// The option that limits how far a packet travels.
pub open spec fn spec_hop_limit(is_ipv6: bool, ttl: u8) -> SocketOption {
    if is_ipv6 {
        SocketOption::UnicastHopsV6(ttl as u32)
    } else {
        SocketOption::TtlV4(ttl as u32)
    }
}

/// The option that limits how far a packet travels: the IPv4 TTL or the IPv6
/// hop limit.
pub fn hop_limit(is_ipv6: bool, ttl: u8) -> (r: SocketOption)
    ensures
        is_ipv6 ==> (r matches SocketOption::UnicastHopsV6(n) && n == ttl),
        !is_ipv6 ==> (r matches SocketOption::TtlV4(n) && n == ttl),
        r == spec_hop_limit(is_ipv6, ttl),
{
    if is_ipv6 {
        SocketOption::UnicastHopsV6(ttl as u32)
    } else {
        SocketOption::TtlV4(ttl as u32)
    }
}

/// A socket bound to the listen address, whose port workers can share.
pub fn listen_socket(listen: SocketAddr) -> (r: SocketPlan)
    ensures
        r.is(listen is V6, seq![SocketOption::ReusePort], Some(listen)),
        r.is_ipv6 == (listen is V6),
        r.bind == Some(listen),
        r.options@ == seq![SocketOption::ReusePort],
{
    let options: Vec<SocketOption> = vec![SocketOption::ReusePort];
    assert(options@ =~= seq![SocketOption::ReusePort]);
    SocketPlan { is_ipv6: listen.is_ipv6(), options, bind: Some(listen) }
}

/// An unbound socket that sends with the given hop limit.
pub fn send_socket(is_ipv6: bool, ttl: u8) -> (r: SocketPlan)
    ensures
        r.is(is_ipv6, seq![spec_hop_limit(is_ipv6, ttl)], None),
        r.is_ipv6 == is_ipv6,
        r.bind is None,
        r.options@ == seq![
            if is_ipv6 {
                SocketOption::UnicastHopsV6(ttl as u32)
            } else {
                SocketOption::TtlV4(ttl as u32)
            },
        ],
{
    let options: Vec<SocketOption> = vec![hop_limit(is_ipv6, ttl)];
    assert(options@ =~= seq![spec_hop_limit(is_ipv6, ttl)]);
    SocketPlan { is_ipv6, options, bind: None }
}

/// The options of a transparent socket. Reusing address and port permits
/// sharing source ports with sockets that also enable port reuse.
pub open spec fn spoof_options(is_ipv6: bool, ttl: u8) -> Seq<SocketOption> {
    seq![
        SocketOption::ReuseAddress,
        SocketOption::ReusePort,
        if is_ipv6 {
            SocketOption::TransparentV6
        } else {
            SocketOption::TransparentV4
        },
        if is_ipv6 {
            SocketOption::FreebindV6
        } else {
            SocketOption::FreebindV4
        },
        spec_hop_limit(is_ipv6, ttl),
    ]
}

/// Configures a transparent socket; binding the original source is separate.
pub fn new_spoof_socket(is_ipv6: bool, ttl: u8) -> (r: SocketPlan)
    ensures
        r.is(is_ipv6, spoof_options(is_ipv6, ttl), None),
        r.is_ipv6 == is_ipv6,
        r.bind is None,
{
    let transparent = if is_ipv6 {
        SocketOption::TransparentV6
    } else {
        SocketOption::TransparentV4
    };
    let freebind = if is_ipv6 {
        SocketOption::FreebindV6
    } else {
        SocketOption::FreebindV4
    };
    let options: Vec<SocketOption> = vec![
        SocketOption::ReuseAddress,
        SocketOption::ReusePort,
        transparent,
        freebind,
        hop_limit(is_ipv6, ttl),
    ];
    assert(options@ =~= spoof_options(is_ipv6, ttl));
    SocketPlan { is_ipv6, options, bind: None }
}

/// Binds a transparent UDP socket to the original sender, including non-local
/// addresses. The kernel supplies packet headers, checksums, and routing.
pub fn make_spoof_socket(src: SocketAddr, ttl: u8) -> (r: SocketPlan)
    ensures
        r.is(src is V6, spoof_options(src is V6, ttl), Some(src)),
        r.is_ipv6 == (src is V6),
        r.bind == Some(src),
{
    let mut plan = new_spoof_socket(src.is_ipv6(), ttl);
    plan.bind = Some(src);
    plan
}

/// The option is that of the family, and its value is the TTL asked for, over
/// the whole range: no two TTLs set the same option.
pub proof fn law_hop_limit_is_the_ttl(is_ipv6: bool, ttl: u8, other: u8)
    ensures
        is_ipv6 ==> (spec_hop_limit(is_ipv6, ttl) matches SocketOption::UnicastHopsV6(n) && n
            == ttl),
        !is_ipv6 ==> (spec_hop_limit(is_ipv6, ttl) matches SocketOption::TtlV4(n) && n == ttl),
        spec_hop_limit(is_ipv6, ttl) == spec_hop_limit(is_ipv6, other) ==> ttl == other,
{
}

/// A plan is of the family and bound to the address that it was made for.
pub proof fn law_plan_has_its_family_and_address(
    plan: SocketPlan,
    is_ipv6: bool,
    options: Seq<SocketOption>,
    bind: Option<SocketAddr>,
)
    ensures
        plan.is(is_ipv6, options, bind) <==> plan.is_ipv6 == is_ipv6 && plan.options@ == options
            && plan.bind == bind,
{
}

/// A transparent socket is set up to send from any address of its family: of
/// its five options none is for the other family, the hop limit comes last, and
/// it is the TTL asked for.
pub proof fn law_transparent_sockets_send_from_any_address(is_ipv6: bool, ttl: u8)
    ensures
        spoof_options(is_ipv6, ttl).len() == 5,
        spoof_options(is_ipv6, ttl)[0] == SocketOption::ReuseAddress,
        spoof_options(is_ipv6, ttl)[1] == SocketOption::ReusePort,
        spoof_options(is_ipv6, ttl)[2] is TransparentV6 <==> is_ipv6,
        spoof_options(is_ipv6, ttl)[2] is TransparentV4 <==> !is_ipv6,
        spoof_options(is_ipv6, ttl)[3] is FreebindV6 <==> is_ipv6,
        spoof_options(is_ipv6, ttl)[3] is FreebindV4 <==> !is_ipv6,
        is_ipv6 ==> (spoof_options(is_ipv6, ttl)[4] matches SocketOption::UnicastHopsV6(n) && n
            == ttl),
        !is_ipv6 ==> (spoof_options(is_ipv6, ttl)[4] matches SocketOption::TtlV4(n) && n == ttl),
{
}

/// Whatever the mode, a socket that sends limits hops to the TTL asked for, by
/// exactly one option.
pub proof fn law_sending_sockets_carry_the_ttl(
    plan: SocketPlan,
    is_ipv6: bool,
    ttl: u8,
    bind: Option<SocketAddr>,
    k: int,
)
    requires
        plan.is(is_ipv6, seq![spec_hop_limit(is_ipv6, ttl)], bind) || plan.is(
            is_ipv6,
            spoof_options(is_ipv6, ttl),
            bind,
        ),
        0 <= k < plan.options@.len(),
    ensures
        plan.options@[k] matches SocketOption::UnicastHopsV6(n) ==> is_ipv6 && n == ttl,
        plan.options@[k] matches SocketOption::TtlV4(n) ==> !is_ipv6 && n == ttl,
        plan.options@[k] is UnicastHopsV6 || plan.options@[k] is TtlV4 <==> k == plan.options@.len()
            - 1,
{
}

/// Whichever socket is asked for, the hop limit it sends with is the TTL given,
/// and its option is that of the socket's family.
pub proof fn law_made_sockets_limit_hops_to_the_ttl(
    is_ipv6: bool,
    ttl: u8,
    option: SocketOption,
    sending: SocketPlan,
    spoofing: SocketPlan,
)
    requires
        call_ensures(hop_limit, (is_ipv6, ttl), option),
        call_ensures(send_socket, (is_ipv6, ttl), sending),
        call_ensures(new_spoof_socket, (is_ipv6, ttl), spoofing),
    ensures
        is_ipv6 ==> (option matches SocketOption::UnicastHopsV6(n) && n == ttl),
        !is_ipv6 ==> (option matches SocketOption::TtlV4(n) && n == ttl),
        sending.options@ == seq![option],
        spoofing.options@.len() == 5,
        spoofing.options@.last() == option,
        sending.is_ipv6 == is_ipv6 && spoofing.is_ipv6 == is_ipv6,
        sending.bind is None && spoofing.bind is None,
{
}

/// A socket that stands in for a sender is bound to that sender's address and
/// otherwise the same as any transparent socket of the family.
pub proof fn law_spoofing_sockets_are_bound_to_the_sender(
    src: SocketAddr,
    ttl: u8,
    unbound: SocketPlan,
    bound: SocketPlan,
)
    requires
        call_ensures(new_spoof_socket, (src is V6, ttl), unbound),
        call_ensures(make_spoof_socket, (src, ttl), bound),
    ensures
        bound.bind == Some(src),
        bound.is_ipv6 == (src is V6),
        bound.options@ == unbound.options@,
        bound.options@.len() == 5,
        src is V6 ==> (bound.options@[4] matches SocketOption::UnicastHopsV6(n) && n == ttl),
        src is V4 ==> (bound.options@[4] matches SocketOption::TtlV4(n) && n == ttl),
{
}

/// A listening socket is bound to the listen address, of its family, and shares
/// the port.
pub proof fn law_listening_sockets_are_bound_to_the_listen_address(
    listen: SocketAddr,
    plan: SocketPlan,
)
    requires
        call_ensures(listen_socket, (listen,), plan),
    ensures
        plan.bind == Some(listen),
        plan.is_ipv6 == (listen is V6),
        plan.options@.len() == 1,
        plan.options@[0] is ReusePort,
{
}

} // verus!
