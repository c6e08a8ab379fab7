//! The DNS reverse-mapping overlay net: it remembers recently seen answers
//! and rewrites socket destinations back to the domain they resolved from, so
//! downstream domain rules still apply.

use vstd::prelude::*;

use crate::address::{Address, IpAddress};

verus! {

/// The overlay: the wrapped net's id and the reverse map of recently seen
/// answers, newest first.
#[derive(Debug, Clone, PartialEq)]
pub struct DNSNet {
    pub net: String,
    pub answers: Vec<(IpAddress, String)>,
}

/// The domain the overlay remembers for an address: the newest answer wins.
pub open spec fn spec_reverse(answers: Seq<(IpAddress, String)>, ip: IpAddress) -> Option<Seq<
    char,
>>
    decreases answers.len(),
{
    if answers.len() == 0 {
        None
    } else if answers[0].0 == ip {
        Some(answers[0].1@)
    } else {
        spec_reverse(answers.skip(1), ip)
    }
}

impl DNSNet {
    /// An overlay over the given net, with nothing remembered yet.
    pub fn new(net: String) -> (r: Self)
        ensures
            r.net == net,
            r.answers@.len() == 0,
    {
        DNSNet { net, answers: Vec::new() }
    }

    /// Remembers one observed answer; it shadows older answers for the same
    /// address.
    pub fn record_answer(&mut self, ip: IpAddress, name: String)
        ensures
            final (self).net == old(self).net,
            spec_reverse(final (self).answers@, ip) == Some(name@),
            forall|other: IpAddress|
                other != ip ==> spec_reverse(final (self).answers@, other) == spec_reverse(
                    old(self).answers@,
                    other,
                ),
    {
        let ghost before = self.answers@;
        self.answers.insert(0, (ip, name));
        proof {
            assert(self.answers@.skip(1) =~= before);
        }
    }

    /// Rewrites a socket destination back to its remembered domain; anything
    /// else, and an unknown address, passes through unchanged.
    pub fn reverse_lookup(&self, addr: Address) -> (r: Address)
        ensures
            match addr {
                Address::Socket(ip, port) => match spec_reverse(self.answers@, ip) {
                    Some(name) => r matches Address::Domain(n, p) && n@ == name && p == port,
                    None => r == addr,
                },
                _ => r == addr,
            },
{
    match addr {
        Address::Socket(ip, port) => {
            let mut i: usize = 0;
            proof {
                assert(self.answers@.skip(0) =~= self.answers@);
            }
            while i < self.answers.len()
                invariant
                    addr == Address::Socket(ip, port),
                    0 <= i <= self.answers@.len(),
                    spec_reverse(self.answers@, ip) == spec_reverse(
                        self.answers@.skip(i as int),
                        ip,
                    ),
                    forall|j: int| 0 <= j < i ==> self.answers@[j].0 != ip,
                decreases self.answers@.len() - i,
            {
                proof {
                    assert(self.answers@.skip(i as int)[0] == self.answers@[i as int]);
                    assert(self.answers@.skip(i as int).skip(1) =~= self.answers@.skip(
                        i as int + 1,
                    ));
                }
                if self.answers[i].0 == ip {
                    return Address::Domain(self.answers[i].1.clone(), port);
                }
                i += 1;
            }
            Address::Socket(ip, port)
        }
        other => other,
    }
}
}

} // verus!
