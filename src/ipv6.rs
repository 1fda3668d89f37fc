//! Classes of IPv6 addresses and the choice of a source address among
//! them. An address is its 128 bits, most significant first.

use vstd::prelude::*;

verus! {

/// The first 16-bit group.
pub open spec fn first_group(a: u128) -> u16 {
    (a >> 112u128) as u16
}

/// `fe80::/10`.
pub open spec fn link_local(a: u128) -> bool {
    first_group(a) & 0xffc0 == 0xfe80
}

/// `fc00::/7`.
pub open spec fn unique_local(a: u128) -> bool {
    first_group(a) & 0xfe00 == 0xfc00
}

/// Neither loopback (`::1`), multicast (`ff00::/8`), link-local, unique
/// local nor unspecified (`::`).
pub open spec fn global_unicast(a: u128) -> bool {
    a != 1 && first_group(a) & 0xff00 != 0xff00 && !link_local(a) && !unique_local(a) && a != 0
}

pub fn is_link_local(addr: u128) -> (r: bool)
    ensures
        r == link_local(addr),
{
    ((addr >> 112u128) as u16) & 0xffc0 == 0xfe80
}

pub fn is_unique_local(addr: u128) -> (r: bool)
    ensures
        r == unique_local(addr),
{
    ((addr >> 112u128) as u16) & 0xfe00 == 0xfc00
}

pub fn is_global_unicast(addr: u128) -> (r: bool)
    ensures
        r == global_unicast(addr),
{
    addr != 1 && ((addr >> 112u128) as u16) & 0xff00 != 0xff00 && !is_link_local(addr)
        && !is_unique_local(addr) && addr != 0
}

/// Address classes in order of preference.
pub open spec fn in_class(a: u128, class: int) -> bool {
    if class == 0 {
        global_unicast(a)
    } else if class == 1 {
        unique_local(a)
    } else {
        link_local(a)
    }
}

/// The first address of a class.
pub open spec fn first_in_class(s: Seq<u128>, class: int) -> Option<u128>
    decreases s.len(),
{
    if s.len() == 0 {
        None
    } else if in_class(s[0], class) {
        Some(s[0])
    } else {
        first_in_class(s.drop_first(), class)
    }
}

/// The first global address, else the first unique local one, else the
/// first link-local one.
pub open spec fn preferred_source(s: Seq<u128>) -> Option<u128> {
    match first_in_class(s, 0) {
        Some(a) => Some(a),
        None => match first_in_class(s, 1) {
            Some(a) => Some(a),
            None => first_in_class(s, 2),
        },
    }
}

fn find_in_class(addresses: &Vec<u128>, class: u8) -> (r: Option<u128>)
    requires
        class <= 2,
    ensures
        r == first_in_class(addresses@, class as int),
{
    let mut i: usize = 0;
    assert(addresses@.subrange(0, addresses@.len() as int) =~= addresses@);
    while i < addresses.len()
        invariant
            class <= 2,
            i <= addresses@.len(),
            first_in_class(addresses@, class as int) == first_in_class(
                addresses@.subrange(i as int, addresses@.len() as int),
                class as int,
            ),
        decreases addresses.len() - i,
    {
        let ghost rest = addresses@.subrange(i as int, addresses@.len() as int);
        assert(rest.drop_first() =~= addresses@.subrange(i + 1, addresses@.len() as int));
        let a = addresses[i];
        let hit = if class == 0 {
            is_global_unicast(a)
        } else if class == 1 {
            is_unique_local(a)
        } else {
            is_link_local(a)
        };
        if hit {
            return Some(a);
        }
        i = i + 1;
    }
    None
}

/// The source address to prefer among an interface's IPv6 addresses.
pub fn select_source_address(addresses: &Vec<u128>) -> (r: Option<u128>)
    ensures
        r == preferred_source(addresses@),
{
    match find_in_class(addresses, 0) {
        Some(a) => Some(a),
        None => match find_in_class(addresses, 1) {
            Some(a) => Some(a),
            None => find_in_class(addresses, 2),
        },
    }
}

} // verus!
