//! Candidate ports for the server's listener: a port range in random order.

use rand::seq::SliceRandom;
use vstd::prelude::*;

verus! {

/// Lowest port of the default range.
pub const DEFAULT_PORT_MIN: u16 = 19000;

/// Highest port of the default range.
pub const DEFAULT_PORT_MAX: u16 = 19999;

/// The ports `lo..=hi` in increasing order (empty when `lo > hi`).
pub open spec fn port_range(lo: u16, hi: u16) -> Seq<u16> {
    if lo <= hi {
        Seq::new((hi - lo + 1) as nat, |i: int| (lo + i) as u16)
    } else {
        Seq::empty()
    }
}

/// The ports `lo..=hi` in increasing order.
pub fn ports_in(lo: u16, hi: u16) -> (r: Vec<u16>)
    ensures
        r@ == port_range(lo, hi),
{
    let mut r: Vec<u16> = Vec::new();
    if lo > hi {
        return r;
    }
    let mut p: u16 = lo;
    loop
        invariant_except_break
            lo <= p <= hi,
            r@ == port_range(lo, hi).take(p - lo),
        ensures
            r@ == port_range(lo, hi),
        decreases hi - p,
    {
        r.push(p);
        assert(r@ =~= port_range(lo, hi).take(p - lo + 1));
        if p == hi {
            assert(port_range(lo, hi).take(p - lo + 1) =~= port_range(lo, hi));
            break;
        }
        p += 1;
    }
    r
}

/// Shuffles `ports` in place (`SliceRandom::shuffle` with `rand::thread_rng()`).
///
/// Trusted: the shuffle only swaps elements, so the ports after the call are
/// the ports before it, each as often, in an order left to chance; that is
/// all the contract states. `thread_rng` panics if the operating system's
/// random source cannot seed it, which no argument can cause or avoid.
#[verifier::external_body]
fn shuffle_ports(ports: &mut Vec<u16>)
    ensures
        final(ports)@.to_multiset() == old(ports)@.to_multiset(),
{
    ports.shuffle(&mut rand::thread_rng());
}

/// `ports` in random order: the same ports, each as often as given.
pub fn shuffle_candidates(ports: Vec<u16>) -> (r: Vec<u16>)
    ensures
        r@.to_multiset() == ports@.to_multiset(),
        r@.len() == ports@.len(),
{
    let mut v = ports;
    shuffle_ports(&mut v);
    proof {
        v@.to_multiset_ensures();
        ports@.to_multiset_ensures();
    }
    v
}

/// The default range `19000..=19999` in random order.
pub fn default_candidates() -> (r: Vec<u16>)
    ensures
        r@.to_multiset() == port_range(DEFAULT_PORT_MIN, DEFAULT_PORT_MAX).to_multiset(),
        r@.len() == DEFAULT_PORT_MAX - DEFAULT_PORT_MIN + 1,
{
    shuffle_candidates(ports_in(DEFAULT_PORT_MIN, DEFAULT_PORT_MAX))
}

} // verus!
