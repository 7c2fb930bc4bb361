//! The local network interfaces and the choice of an address among them.

use crate::canonical::{canonical_text, format_ipv6};
use crate::ipv6::is_ipv6_literal;
use crate::resolver::{resolution, ResolveError, ResolveErrorView};
use vstd::prelude::*;
use vstd::string::*;

verus! {

/// The address of one interface entry.
#[derive(Debug, Clone, PartialEq, Eq)]
pub enum InterfaceAddress {
    /// An IPv4 address; it is never chosen.
    V4,
    /// An IPv6 address, as its eight groups.
    V6([u16; 8]),
}

/// One entry of the system's interface list: an interface has one entry for
/// each of its addresses.
#[derive(Debug, Clone, PartialEq, Eq)]
pub struct Interface {
    pub name: String,
    pub loopback: bool,
    pub address: InterfaceAddress,
}

/// The interface name asked for, as a character sequence.
pub open spec fn wanted_name(name: Option<&String>) -> Option<Seq<char>> {
    match name {
        Some(n) => Some(n@),
        None => None,
    }
}

/// The entry can give the address: it has an IPv6 address and, where a name
/// is asked for, bears that name; where none is, it is not loopback.
pub open spec fn is_candidate(entry: Interface, wanted: Option<Seq<char>>) -> bool {
    &&& entry.address is V6
    &&& match wanted {
        Some(name) => entry.name@ == name,
        None => !entry.loopback,
    }
}

/// Entry `i` is the first candidate in enumeration order.
pub open spec fn is_first_candidate(
    entries: Seq<Interface>,
    wanted: Option<Seq<char>>,
    i: int,
) -> bool {
    &&& 0 <= i < entries.len()
    &&& is_candidate(entries[i], wanted)
    &&& forall|j: int| 0 <= j < i ==> !is_candidate(#[trigger] entries[j], wanted)
}

/// The index of the first candidate, if there is any candidate.
pub open spec fn first_candidate(entries: Seq<Interface>, wanted: Option<Seq<char>>) -> Option<
    int,
> {
    if exists|i: int| is_first_candidate(entries, wanted, i) {
        Some(choose|i: int| is_first_candidate(entries, wanted, i))
    } else {
        None
    }
}

/// The error for a list without candidate.
pub open spec fn no_candidate_error(wanted: Option<Seq<char>>) -> ResolveErrorView {
    match wanted {
        Some(name) => ResolveErrorView::InterfaceNotFound(name),
        None => ResolveErrorView::NoAddressFound,
    }
}

/// The address that the Local strategy resolves from a list of entries: the
/// canonical text of the first candidate's address.
pub open spec fn local_address(entries: Seq<Interface>, wanted: Option<Seq<char>>) -> Result<
    Seq<char>,
    ResolveErrorView,
> {
    match first_candidate(entries, wanted) {
        Some(i) => Ok(canonical_text(entries[i].address->V6_0@)),
        None => Err(no_candidate_error(wanted)),
    }
}

/// `first_candidate` gives the one first candidate, or `None` exactly where
/// no entry is a candidate.
pub proof fn lemma_first_candidate(entries: Seq<Interface>, wanted: Option<Seq<char>>)
    ensures
        match first_candidate(entries, wanted) {
            Some(i) => is_first_candidate(entries, wanted, i),
            None => forall|j: int|
                0 <= j < entries.len() ==> !is_candidate(#[trigger] entries[j], wanted),
        },
        forall|i: int|
            is_first_candidate(entries, wanted, i) ==> first_candidate(entries, wanted) == Some(i),
{
    assert forall|i: int| is_first_candidate(entries, wanted, i) implies first_candidate(
        entries,
        wanted,
    ) == Some(i) by {
        let c = choose|c: int| is_first_candidate(entries, wanted, c);
        if c < i {
            assert(!is_candidate(entries[c], wanted));
        } else if i < c {
            assert(!is_candidate(entries[i], wanted));
        }
    }
    if first_candidate(entries, wanted) is None {
        lemma_candidate_has_first(entries, wanted, entries.len() as int);
    }
}

/// Where one of the first `n` entries is a candidate, there is a first
/// candidate.
proof fn lemma_candidate_has_first(entries: Seq<Interface>, wanted: Option<Seq<char>>, n: int)
    requires
        0 <= n <= entries.len(),
    ensures
        (exists|i: int| is_first_candidate(entries, wanted, i)) || forall|j: int|
            0 <= j < n ==> !is_candidate(#[trigger] entries[j], wanted),
    decreases n,
{
    if n > 0 {
        lemma_candidate_has_first(entries, wanted, n - 1);
        if !(exists|i: int| is_first_candidate(entries, wanted, i)) {
            if is_candidate(entries[n - 1], wanted) {
                assert(is_first_candidate(entries, wanted, n - 1));
            }
        }
    }
}

/// Tells whether the entry can give the address.
pub fn candidate(entry: &Interface, interface_name: Option<&String>) -> (b: bool)
    ensures
        b == is_candidate(*entry, wanted_name(interface_name)),
{
    let named = match interface_name {
        Some(name) => entry.name == *name,
        None => !entry.loopback,
    };
    match entry.address {
        InterfaceAddress::V6(_) => named,
        InterfaceAddress::V4 => false,
    }
}

/// Resolves the address from the entries of the interface list: the first
/// candidate in the order of the list gives it. Where several entries could,
/// the order decides, and that order is the system's own: it may differ from
/// one platform to the next.
pub fn select_local_address(interfaces: &Vec<Interface>, interface_name: Option<&String>) -> (r:
    Result<String, ResolveError>)
    ensures
        resolution(r) == local_address(interfaces@, wanted_name(interface_name)),
        r is Ok ==> is_ipv6_literal(r.unwrap()@),
{
    let ghost wanted = wanted_name(interface_name);
    let mut i: usize = 0;
    while i < interfaces.len()
        invariant
            i <= interfaces.len(),
            wanted == wanted_name(interface_name),
            forall|j: int| 0 <= j < i ==> !is_candidate(#[trigger] interfaces@[j], wanted),
        decreases interfaces.len() - i,
    {
        if candidate(&interfaces[i], interface_name) {
            proof {
                assert(is_first_candidate(interfaces@, wanted, i as int));
                lemma_first_candidate(interfaces@, wanted);
            }
            match &interfaces[i].address {
                InterfaceAddress::V6(groups) => {
                    return Ok(format_ipv6(groups));
                },
                InterfaceAddress::V4 => {},
            }
        }
        i = i + 1;
    }
    proof {
        lemma_first_candidate(interfaces@, wanted);
    }
    match interface_name {
        Some(name) => Err(ResolveError::InterfaceNotFound(name.clone())),
        None => Err(ResolveError::NoAddressFound),
    }
}

/// `std::io::Error`, the error of a query that the operating system refused.
/// It is carried through and turned into its text; nothing is known of what
/// is inside.
#[verifier::external_type_specification]
#[verifier::external_body]
pub struct ExIoError(std::io::Error);

/// The system's interface list, as `if_addrs::get_if_addrs` reports it: the
/// entries in the order of the system's enumeration, each with its name,
/// with what `if_addrs::Interface::is_loopback` says of it, and with the
/// groups of its address where that is an IPv6 address. What the list holds
/// depends on the machine and the moment: nothing is claimed of it.
#[verifier::external_body]
fn system_interfaces() -> (found: Result<Vec<Interface>, std::io::Error>) {
    let entries = if_addrs::get_if_addrs()?;
    Ok(
        entries.into_iter().map(
            |entry| Interface {
                loopback: entry.is_loopback(),
                address: match entry.addr {
                    if_addrs::IfAddr::V4(_) => InterfaceAddress::V4,
                    if_addrs::IfAddr::V6(v6) => InterfaceAddress::V6(v6.ip.segments()),
                },
                name: entry.name,
            },
        ).collect(),
    )
}

/// The outcome of listing the interfaces: the entries, or the cause of the
/// failure as a text.
pub open spec fn listing_view(listing: Result<Vec<Interface>, String>) -> Result<
    Seq<Interface>,
    Seq<char>,
> {
    match listing {
        Ok(entries) => Ok(entries@),
        Err(cause) => Err(cause@),
    }
}

/// The address that the Local strategy resolves from the outcome of listing
/// the interfaces. A failed listing is a transport failure.
pub open spec fn local_resolution(
    listing: Result<Seq<Interface>, Seq<char>>,
    wanted: Option<Seq<char>>,
) -> Result<Seq<char>, ResolveErrorView> {
    match listing {
        Ok(entries) => local_address(entries, wanted),
        Err(cause) => Err(ResolveErrorView::Transport(cause)),
    }
}

/// Lists the entries of the system's network interfaces, in the system's
/// enumeration order, or gives the system's words for why it could not. What
/// the system replies is its own affair; the listing is that reply, as
/// `listing_from` turns it.
pub fn list_interfaces() -> (listing: Result<Vec<Interface>, String>)
    ensures
        exists|found: Result<Vec<Interface>, std::io::Error>| #[trigger]
            is_listing_of(found, listing),
{
    let found = system_interfaces();
    let listing = listing_from(found);
    assert(is_listing_of(found, listing));
    listing
}

/// `listing` is what the system's reply `found` comes to: the same entries
/// in the same order, or, for a refusal, the error's own wording.
pub open spec fn is_listing_of(
    found: Result<Vec<Interface>, std::io::Error>,
    listing: Result<Vec<Interface>, String>,
) -> bool {
    match found {
        Ok(entries) => listing_view(listing) == Ok::<Seq<Interface>, Seq<char>>(entries@),
        Err(e) => listing is Err && to_string_from_display_ensures::<std::io::Error>(
            &e,
            listing.unwrap_err(),
        ),
    }
}

/// Turns the system's reply into a listing: the entries are kept as they
/// are, an error is put into words.
pub fn listing_from(found: Result<Vec<Interface>, std::io::Error>) -> (listing: Result<
    Vec<Interface>,
    String,
>)
    ensures
        is_listing_of(found, listing),
{
    match found {
        Ok(entries) => Ok(entries),
        Err(e) => Err(e.to_string()),
    }
}

/// Resolves the address from the outcome of listing the interfaces.
pub fn resolve_local(listing: Result<Vec<Interface>, String>, interface_name: Option<&String>) -> (r:
    Result<String, ResolveError>)
    ensures
        resolution(r) == local_resolution(listing_view(listing), wanted_name(interface_name)),
        r is Ok ==> is_ipv6_literal(r.unwrap()@),
{
    match listing {
        Ok(entries) => select_local_address(&entries, interface_name),
        Err(cause) => Err(ResolveError::Transport(cause)),
    }
}

/// Resolves the address from this machine's network interfaces: of the
/// named interface, or of the first one that is not loopback. The result is
/// what `resolve_local` gives for the list that the system reported.
pub fn get_local_ipv6_address(interface_name: Option<&String>) -> (r: Result<String, ResolveError>)
    ensures
        exists|listing: Result<Seq<Interface>, Seq<char>>|
            resolution(r) == #[trigger] local_resolution(listing, wanted_name(interface_name)),
        r is Ok ==> is_ipv6_literal(r.unwrap()@),
{
    let listing = list_interfaces();
    let ghost seen = listing_view(listing);
    let r = resolve_local(listing, interface_name);
    assert(resolution(r) == local_resolution(seen, wanted_name(interface_name)));
    r
}

} // verus!
