//! What the forwarder is asked to do, and the checks on it.

use vstd::prelude::*;

use crate::addr::SocketAddr;

verus! {

/// IPv4 TTL or IPv6 hop limit where none is given.
pub const DEFAULT_TTL: u8 = 64;

/// Bytes per packet buffer where no number is given.
pub const DEFAULT_BUFFER_SIZE: usize = 65536;

/// The settings of a run.
#[derive(Debug)]
pub struct Args {
    /// Address and port to listen on.
    pub listen: SocketAddr,
    /// Preserve the original sender IP and port.
    pub spoof: bool,
    /// Sniff packets without binding, so that other programs can use the port.
    pub silent: bool,
    /// Restrict silent-mode capture to a single interface (default: all
    /// interfaces).
    pub interface: Option<String>,
    /// IPv4 TTL or IPv6 hop limit for outgoing packets.
    pub ttl: u8,
    /// Number of worker threads (silent mode uses one).
    pub workers: usize,
    /// Bytes per packet buffer (does not set the kernel receive queue size).
    pub buffer_size: usize,
    /// Destination addresses to forward packets to.
    pub destinations: Vec<SocketAddr>,
}

/// A decimal digit.
pub open spec fn is_digit(c: char) -> bool {
    '0' <= c <= '9'
}

/// The number that decimal digits spell.
pub open spec fn decimal(digits: Seq<char>) -> nat
    decreases digits.len(),
{
    if digits.len() == 0 {
        0
    } else {
        10 * decimal(digits.drop_last()) + (digits.last() as nat - '0' as nat) as nat
    }
}

/// The text without a leading plus sign.
pub open spec fn unsigned_part(text: Seq<char>) -> Seq<char> {
    if text.len() > 0 && text[0] == '+' {
        text.drop_first()
    } else {
        text
    }
}

/// The number up to `max` that a text spells: an optional plus sign and then
/// one or more decimal digits, with nothing before, between, or behind.
pub open spec fn parsed_number(text: Seq<char>, max: nat) -> Option<nat> {
    let digits = unsigned_part(text);
    if digits.len() > 0 && (forall|i: int| 0 <= i < digits.len() ==> is_digit(#[trigger] digits[i]))
        && decimal(digits) <= max {
        Some(decimal(digits))
    } else {
        None
    }
}

/// How the standard library words its refusal of `text` as a number up to
/// `max`.
pub uninterp spec fn number_refusal(text: Seq<char>, max: nat) -> Seq<char>;

/// Reads a number with `str::parse::<usize>`.
///
/// Taken on trust: it accepts an optional plus sign followed by only digits,
/// where the number fits a `usize`, and nothing else. The wording of a refusal
/// is a function of the text and of the largest number; it is named here, not
/// spelled out.
#[verifier::external_body]
fn parse_usize(s: &str) -> (r: Result<usize, String>)
    ensures
        r is Ok <==> parsed_number(s@, usize::MAX as nat) is Some,
        r matches Ok(n) ==> parsed_number(s@, usize::MAX as nat) == Some(n as nat),
        r matches Err(e) ==> e@ == number_refusal(s@, usize::MAX as nat),
{
    match s.parse::<usize>() {
        Ok(n) => Ok(n),
        Err(e) => Err(format!("{}", e)),
    }
}

/// Reads a number that must not be zero.
pub fn parse_nonzero_usize(s: &str) -> (r: Result<usize, String>)
    ensures
        match parsed_number(s@, usize::MAX as nat) {
            Some(n) => if n == 0 {
                r matches Err(e) && e@ == "must be greater than 0"@
            } else {
                r matches Ok(got) && got == n
            },
            None => r matches Err(e) && e@ == number_refusal(s@, usize::MAX as nat),
        },
{
    nonzero(parse_usize(s))
}

/// Turns zero into an error and leaves everything else as it is.
pub fn nonzero(parsed: Result<usize, String>) -> (r: Result<usize, String>)
    ensures
        match parsed {
            Ok(0) => r matches Err(e) && e@ == "must be greater than 0"@,
            _ => r == parsed,
        },
{
    match parsed {
        Ok(0) => Err("must be greater than 0".to_owned()),
        other => other,
    }
}

/// The addresses of `destinations` before position `n` are of the listen
/// address's family.
pub open spec fn same_family(listen: SocketAddr, destinations: Seq<SocketAddr>, n: int) -> bool {
    forall|i: int| 0 <= i < n ==> ((#[trigger] destinations[i]) is V6 <==> listen is V6)
}

/// Rejects mixed address families: `Err` holds the position of the first
/// destination that is not of the listen address's family.
pub fn check_families(listen: SocketAddr, destinations: &[SocketAddr]) -> (r: Result<(), usize>)
    ensures
        r is Ok <==> same_family(listen, destinations@, destinations@.len() as int),
        r is Ok <==> forall|i: int|
            0 <= i < destinations@.len() ==> ((#[trigger] destinations@[i]) is V6 <==> listen
                is V6),
        r matches Err(k) ==> forall|i: int|
            0 <= i < k ==> ((#[trigger] destinations@[i]) is V6 <==> listen is V6),
        r matches Err(k) ==> {
            &&& k < destinations@.len()
            &&& !(destinations@[k as int] is V6 <==> listen is V6)
            &&& same_family(listen, destinations@, k as int)
        },
{
    let is_ipv6 = listen.is_ipv6();
    let mut i: usize = 0;
    while i < destinations.len()
        invariant
            is_ipv6 == (listen is V6),
            i <= destinations@.len(),
            same_family(listen, destinations@, i as int),
        decreases destinations@.len() - i,
    {
        if destinations[i].is_ipv6() != is_ipv6 {
            return Err(i);
        }
        i += 1;
    }
    Ok(())
}

/// What an address family is called.
pub fn family_name(is_ipv6: bool) -> (r: &'static str)
    ensures
        r@ == (if is_ipv6 {
            "IPv6"@
        } else {
            "IPv4"@
        }),
{
    if is_ipv6 {
        "IPv6"
    } else {
        "IPv4"
    }
}

/// The number of worker threads to start, and whether it is less than asked
/// for.
///
/// Silent mode uses a single AF_PACKET capture socket; multiple workers would
/// each receive a copy of every packet.
pub fn worker_count(silent: bool, requested: usize) -> (r: (usize, bool))
    ensures
        r.0 == (if silent && requested > 1 {
            1
        } else {
            requested
        }),
        r.1 == (r.0 < requested),
        silent && requested > 0 ==> r.0 == 1,
{
    if silent && requested > 1 {
        (1, true)
    } else {
        (requested, false)
    }
}

/// One more digit at the end of a number makes it ten times as large and adds
/// the digit.
pub proof fn law_digits_are_decimal(digits: Seq<char>, digit: char)
    requires
        '0' <= digit <= '9',
    ensures
        decimal(Seq::empty()) == 0,
        decimal(digits.push(digit)) == 10 * decimal(digits) + (digit as int - '0' as int),
{
    assert(digits.push(digit).drop_last() =~= digits);
}

/// A plus sign in front of digits changes nothing, and is all that may stand
/// there.
pub proof fn law_plus_sign_changes_nothing(digits: Seq<char>, max: nat)
    requires
        digits.len() > 0,
        '0' <= digits[0] <= '9',
    ensures
        parsed_number(seq!['+'] + digits, max) == parsed_number(digits, max),
        parsed_number(seq!['+'], max) is None,
        parsed_number(Seq::empty(), max) is None,
{
    assert((seq!['+'] + digits).drop_first() =~= digits);
    assert(seq!['+'].drop_first() =~= Seq::<char>::empty());
}

/// Digits are read as the number they spell, where that is no larger than the
/// largest allowed, and any other character refuses the text.
pub proof fn law_numbers_are_read_whole(text: Seq<char>, max: nat)
    requires
        text.len() > 0,
        text[0] != '+',
    ensures
        parsed_number(text, max) is Some <==> decimal(text) <= max && forall|i: int|
            0 <= i < text.len() ==> '0' <= #[trigger] text[i] <= '9',
        parsed_number(text, max) matches Some(n) ==> n == decimal(text),
{
    if parsed_number(text, max) is Some {
        assert forall|i: int| 0 <= i < text.len() implies '0' <= #[trigger] text[i] <= '9' by {
            assert(is_digit(text[i]));
        }
    }
}

/// Families agree up to a position exactly where none of the addresses before
/// it is of the other family.
pub proof fn law_families_agree_up_to(listen: SocketAddr, destinations: Seq<SocketAddr>, n: int)
    requires
        0 <= n < destinations.len(),
    ensures
        same_family(listen, destinations, 0),
        same_family(listen, destinations, n + 1) <==> same_family(listen, destinations, n) && (
        destinations[n] is V4 <==> listen is V4),
{
}

/// Silent mode runs on one worker, however many are asked for; otherwise there
/// are as many as asked for. A smaller number is never passed over in silence.
pub proof fn law_silent_mode_has_one_worker(silent: bool, requested: usize, r: (usize, bool))
    requires
        call_ensures(worker_count, (silent, requested), r),
    ensures
        silent && requested > 0 ==> r.0 == 1,
        !silent ==> r.0 == requested,
        r.0 <= requested,
        r.1 <==> r.0 != requested,
{
}

/// Addresses of both families are never accepted together, and the one that is
/// named is the first that differs from the listen address.
pub proof fn law_mixed_families_are_refused(
    listen: SocketAddr,
    destinations: &[SocketAddr],
    r: Result<(), usize>,
    i: int,
)
    requires
        call_ensures(check_families, (listen, destinations), r),
        0 <= i < destinations@.len(),
    ensures
        r is Ok ==> (destinations@[i] is V4 <==> listen is V4),
        r matches Err(k) ==> k < destinations@.len() && (destinations@[k as int] is V4 <==> listen
            is V6) && (i < k ==> (destinations@[i] is V4 <==> listen is V4)),
{
}

/// No count of zero gets through, every other count does as it is, and a
/// refusal stays the refusal it was.
pub proof fn law_only_zero_is_turned_away(
    parsed: Result<usize, String>,
    r: Result<usize, String>,
)
    requires
        call_ensures(nonzero, (parsed,), r),
    ensures
        r matches Ok(n) ==> n > 0 && parsed == r,
        parsed matches Ok(n) ==> (r is Ok <==> n > 0),
        parsed is Err ==> r == parsed,
        parsed matches Ok(n) ==> (r matches Err(e) ==> e@ == "must be greater than 0"@),
{
}

/// A count is accepted exactly where its text spells a number that is not zero
/// and fits, and it is that number.
pub proof fn law_counts_are_the_numbers_spelled(s: &str, r: Result<usize, String>)
    requires
        call_ensures(parse_nonzero_usize, (s,), r),
        s@.len() > 0,
        s@[0] != '+',
    ensures
        r is Ok <==> 0 < decimal(s@) <= usize::MAX && forall|i: int|
            0 <= i < s@.len() ==> '0' <= #[trigger] s@[i] <= '9',
        r matches Ok(n) ==> n == decimal(s@),
{
    law_numbers_are_read_whole(s@, usize::MAX as nat);
}

/// The families have different names, each with its own number in it.
pub proof fn law_families_have_their_own_names(is_ipv6: bool, r: &'static str)
    requires
        call_ensures(family_name, (is_ipv6,), r),
    ensures
        is_ipv6 ==> r@ == seq!['I', 'P', 'v', '6'],
        !is_ipv6 ==> r@ == seq!['I', 'P', 'v', '4'],
{
    reveal_strlit("IPv6");
    reveal_strlit("IPv4");
    assert("IPv6"@ =~= seq!['I', 'P', 'v', '6']);
    assert("IPv4"@ =~= seq!['I', 'P', 'v', '4']);
}

/// Where nothing else is asked for, packets travel 64 hops, and a buffer is
/// 64 KiB, so that it holds any UDP datagram.
pub proof fn law_defaults_hold_any_datagram(datagram: Seq<u8>)
    requires
        datagram.len() <= u16::MAX,
    ensures
        DEFAULT_TTL == 64,
        datagram.len() < DEFAULT_BUFFER_SIZE,
        DEFAULT_BUFFER_SIZE == 64 * 1024,
{
}

} // verus!
