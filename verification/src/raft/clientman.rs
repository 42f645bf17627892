//! Which peer addresses a node connects to at start-up.

use vstd::prelude::*;

verus! {

/// `hashbrown::HashSet`, which holds the peer addresses already seen.
#[verifier::external_type_specification]
#[verifier::external_body]
#[verifier::reject_recursive_types(T)]
#[verifier::reject_recursive_types(S)]
pub struct ExAddressSet<T, S>(hashbrown::HashSet<T, S>);

/// The hasher that `hashbrown` uses by default.
#[verifier::external_type_specification]
#[verifier::external_body]
pub struct ExAddressHasher(hashbrown::hash_map::DefaultHashBuilder);

/// The addresses a set holds, as texts.
pub uninterp spec fn seen_addresses(set: hashbrown::HashSet<String>) -> Set<Seq<char>>;

/// `hashbrown::HashSet::get`: whether the set holds an address equal to
/// `addr` (strings are equal exactly when their characters are).
#[verifier::external_body]
fn address_seen(set: &hashbrown::HashSet<String>, addr: &String) -> (r: bool)
    ensures
        r == seen_addresses(*set).contains(addr@),
{
    set.get(addr).is_some()
}

/// `hashbrown::HashSet::insert`: the set then also holds `addr`.
#[verifier::external_body]
fn remember_address(set: &mut hashbrown::HashSet<String>, addr: String)
    ensures
        seen_addresses(*final(set)) == seen_addresses(*old(set)).insert(addr@),
{
    set.insert(addr);
}

/// Whether to connect to `addr`: only to an address already seen, which is
/// then recorded again; an unseen address is skipped and not recorded.
pub fn admit_address(seen: &mut hashbrown::HashSet<String>, addr: &String) -> (connect: bool)
    ensures
        connect == seen_addresses(*old(seen)).contains(addr@),
        seen_addresses(*final(seen)) == seen_addresses(*old(seen)),
{
    if !address_seen(seen, addr) {
        return false;
    }
    remember_address(seen, addr.clone());
    proof {
        assert(seen_addresses(*old(seen)).insert(addr@) =~= seen_addresses(*old(seen)));
    }
    true
}

} // verus!
