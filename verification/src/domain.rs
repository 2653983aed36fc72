//! Domains: named or anonymous groups of events, such as all events that come from one device.

use vstd::prelude::*;

use crate::error::ArgumentError;
use crate::text::{chars_of, string_from_chars};

verus! {

#[derive(Clone, Copy, PartialEq, Eq, Hash, Debug, Structural)]
pub struct Domain {
    id: usize,
}

impl View for Domain {
    type V = nat;

    closed spec fn view(&self) -> nat {
        self.id as nat
    }
}

/// Two domains are equal exactly when they have the same number.
pub proof fn lemma_domain_view_injective(a: Domain, b: Domain)
    ensures
        (a@ == b@) <==> a == b,
{
}

/// What resolving `name` does: a known name gives its domain and changes nothing; an unknown
/// name gets the next fresh domain, which from then on resolves back to it.
pub open spec fn resolves_to(before: DomainTracker, after: DomainTracker, name: Seq<char>, domain: Domain) -> bool {
    match before.lookup(name) {
        Some(known) => domain == known && after == before,
        None => {
            &&& domain@ == before.next_id()
            &&& after.well_formed()
            &&& after.next_id() == before.next_id() + 1
            &&& after.lookup(name) == Some(domain)
            &&& after.reverse_lookup(domain) == Some(name)
            &&& forall|other: Seq<char>| other != name ==> after.lookup(other) == before.lookup(other)
            &&& forall|d: Domain| d != domain ==> after.reverse_lookup(d) == before.reverse_lookup(d)
        },
    }
}

/// The reasons why a name cannot be a domain name.
pub open spec fn is_valid_domain_name(name: Seq<char>) -> bool {
    name.len() > 0 && name[0] != '@'
}

/// The DomainTracker is a responsible for converting strings to domains (e.g. turns the
/// "foo" part of "key:a@foo" into a number), and also for handing out unique domains for some
/// purposes where events need a domain that is not accessible to the user.
pub struct DomainTracker {
    names: Vec<(String, Domain)>,
    /// A counter for how many domains have been allocated. Used to allocate new unique domains.
    counter: usize,
}

impl DomainTracker {
    pub closed spec fn well_formed(&self) -> bool {
        &&& forall|i: int| 0 <= i < self.names@.len() ==> (#[trigger] self.names@[i]).1.id < self.counter
        &&& forall|i: int, j: int| 0 <= i < j < self.names@.len()
            ==> (#[trigger] self.names@[i]).0@ != (#[trigger] self.names@[j]).0@
                && self.names@[i].1 != self.names@[j].1
    }

    /// The domain that a name has been resolved to, if any.
    pub closed spec fn lookup(&self, name: Seq<char>) -> Option<Domain> {
        if exists|i: int| 0 <= i < self.names@.len() && (#[trigger] self.names@[i]).0@ == name {
            let i = choose|i: int| 0 <= i < self.names@.len() && (#[trigger] self.names@[i]).0@ == name;
            Some(self.names@[i].1)
        } else {
            None
        }
    }

    /// The name that resolves to a domain, if any.
    pub closed spec fn reverse_lookup(&self, domain: Domain) -> Option<Seq<char>> {
        if exists|i: int| 0 <= i < self.names@.len() && (#[trigger] self.names@[i]).1 == domain {
            let i = choose|i: int| 0 <= i < self.names@.len() && (#[trigger] self.names@[i]).1 == domain;
            Some(self.names@[i].0@)
        } else {
            None
        }
    }

    /// The number of the next domain that will be handed out.
    pub closed spec fn next_id(&self) -> nat {
        self.counter as nat
    }

    pub fn new() -> (res: DomainTracker)
        ensures
            res.well_formed(),
            res.next_id() == 0,
            forall|name: Seq<char>| res.lookup(name) is None,
            forall|domain: Domain| res.reverse_lookup(domain) is None,
    {
        DomainTracker { names: Vec::new(), counter: 0 }
    }

    /// Returns an arbitrary domain. Said domain will never be returned again by this tracker.
    pub fn get_unique_domain(&mut self) -> (res: Domain)
        requires
            old(self).well_formed(),
            old(self).next_id() < usize::MAX,
        ensures
            final(self).well_formed(),
            res@ == old(self).next_id(),
            final(self).next_id() == old(self).next_id() + 1,
            forall|name: Seq<char>| final(self).lookup(name) == old(self).lookup(name),
            forall|domain: Domain| final(self).reverse_lookup(domain) == old(self).reverse_lookup(domain),
    {
        let result = self.counter;
        self.counter += 1;
        proof {
            assert(self.names@ == old(self).names@);
        }
        Domain { id: result }
    }

    /// Maps a string to some domain. Always returns the same domain for the same string.
    pub fn resolve(&mut self, name: &str) -> (res: Result<Domain, ArgumentError>)
        requires
            old(self).well_formed(),
            old(self).next_id() < usize::MAX,
        ensures
            final(self).well_formed(),
            res is Ok <==> is_valid_domain_name(name@),
            !is_valid_domain_name(name@) ==> *final(self) == *old(self),
            res matches Ok(domain) ==> resolves_to(*old(self), *final(self), name@, domain),
    {
        let name_chars = chars_of(name);
        if name_chars.len() > 0 && name_chars[0] == '@' {
            let mut message = chars_of("The domain \"");
            message = crate::text::concat_chars(message.as_slice(), name_chars.as_slice());
            message = crate::text::concat_chars(message.as_slice(), chars_of("\" may not start with an @.").as_slice());
            return Err(ArgumentError::new(string_from_chars(message.as_slice())));
        }
        if name_chars.len() == 0 {
            return Err(ArgumentError::new(string_from_chars(chars_of("Domains may not be empty.").as_slice())));
        }

        let name_string = string_from_chars(name_chars.as_slice());
        let mut i: usize = 0;
        while i < self.names.len()
            invariant
                i <= self.names@.len(),
                name_string@ == name@,
                self.well_formed(),
                is_valid_domain_name(name@),
                *self == *old(self),
                forall|k: int| 0 <= k < i ==> (#[trigger] self.names@[k]).0@ != name@,
            decreases self.names@.len() - i,
        {
            if self.names[i].0 == name_string {
                proof {
                    assert(self.names@[i as int].0@ == name@);
                    assert forall|k: int| 0 <= k < self.names@.len() && (#[trigger] self.names@[k]).0@ == name@
                        implies k == i by {
                        if k < i {
                        } else if k > i {
                            assert(self.names@[i as int].0@ != self.names@[k].0@);
                        }
                    }
                }
                return Ok(self.names[i].1);
            }
            i += 1;
        }
        let new_domain = Domain { id: self.counter };
        self.counter += 1;
        let ghost before = self.names@;
        self.names.push((name_string, new_domain));
        proof {
            let after = self.names@;
            assert(after[before.len() as int] == (name_string, new_domain));
            assert forall|k: int| 0 <= k < before.len() implies (#[trigger] after[k]) == before[k]
                && before[k].1 != new_domain && before[k].0@ != name@ by {
                assert(before[k].1.id < old(self).counter);
            }
            assert forall|k: int| 0 <= k < after.len() && (#[trigger] after[k]).1 == new_domain
                implies k == before.len() by {
                if k < before.len() {
                    assert(after[k] == before[k]);
                }
            }
            assert forall|k: int| 0 <= k < after.len() && (#[trigger] after[k]).0@ == name@
                implies k == before.len() by {
                if k < before.len() {
                    assert(after[k] == before[k]);
                }
            }
            assert(self.lookup(name@) == Some(new_domain));
            assert forall|other: Seq<char>| other != name@ implies self.lookup(other) == old(self).lookup(other) by {
                if exists|k: int| 0 <= k < before.len() && (#[trigger] before[k]).0@ == other {
                    let k = choose|k: int| 0 <= k < before.len() && (#[trigger] before[k]).0@ == other;
                    assert(after[k] == before[k]);
                }
                if exists|k: int| 0 <= k < after.len() && (#[trigger] after[k]).0@ == other {
                    let k = choose|k: int| 0 <= k < after.len() && (#[trigger] after[k]).0@ == other;
                    assert(before[k] == after[k]);
                }
            }
            assert(self.reverse_lookup(new_domain) == Some(name@));
            assert forall|d: Domain| d != new_domain implies self.reverse_lookup(d) == old(self).reverse_lookup(d) by {
                if exists|k: int| 0 <= k < before.len() && (#[trigger] before[k]).1 == d {
                    let k = choose|k: int| 0 <= k < before.len() && (#[trigger] before[k]).1 == d;
                    assert(after[k] == before[k]);
                }
                if exists|k: int| 0 <= k < after.len() && (#[trigger] after[k]).1 == d {
                    let k = choose|k: int| 0 <= k < after.len() && (#[trigger] after[k]).1 == d;
                    assert(before[k] == after[k]);
                }
            }
        }
        Ok(new_domain)
    }

    /// Returns a String that resolves to this Domain, if it exists. Otherwise, returns None.
    pub fn try_reverse_resolve(&self, domain: Domain) -> (res: Option<String>)
        requires
            self.well_formed(),
        ensures
            match res {
                Some(name) => self.reverse_lookup(domain) == Some(name@),
                None => self.reverse_lookup(domain) is None,
            },
    {
        let mut i: usize = 0;
        while i < self.names.len()
            invariant
                i <= self.names@.len(),
                self.well_formed(),
                forall|k: int| 0 <= k < i ==> (#[trigger] self.names@[k]).1 != domain,
            decreases self.names@.len() - i,
        {
            if self.names[i].1 == domain {
                proof {
                    assert(self.names@[i as int].1 == domain);
                    assert forall|k: int| 0 <= k < self.names@.len() && (#[trigger] self.names@[k]).1 == domain
                        implies k == i by {
                        if k > i {
                            assert(self.names@[i as int].1 != self.names@[k].1);
                        }
                    }
                }
                return Some(self.names[i].0.clone());
            }
            i += 1;
        }
        None
    }
}

/// Resolving a name a second time gives the domain that the first time gave, and changes nothing.
pub proof fn lemma_resolve_twice(
    t0: DomainTracker,
    t1: DomainTracker,
    t2: DomainTracker,
    name: Seq<char>,
    first: Domain,
    second: Domain,
)
    requires
        resolves_to(t0, t1, name, first),
        resolves_to(t1, t2, name, second),
    ensures
        second == first,
        t2 == t1,
{
}

/// Resolving one name and then another gives the same domain exactly when the two names are the
/// same.
pub proof fn lemma_resolve_pair(
    t0: DomainTracker,
    t1: DomainTracker,
    t2: DomainTracker,
    a: Seq<char>,
    b: Seq<char>,
    first: Domain,
    second: Domain,
)
    requires
        t0.well_formed(),
        resolves_to(t0, t1, a, first),
        resolves_to(t1, t2, b, second),
    ensures
        (first == second) <==> (a == b),
{
    assert(t1.well_formed());
    assert(t1.lookup(a) == Some(first));
    if a != b {
        match t1.lookup(b) {
            Some(known) => {
                if first == second {
                    lemma_lookup_injective(t1, a, b);
                }
            },
            None => {
                lemma_lookup_below_next(t1, a);
            },
        }
    }
}

/// Different names never resolve to the same domain.
pub proof fn lemma_lookup_injective(t: DomainTracker, a: Seq<char>, b: Seq<char>)
    requires
        t.well_formed(),
        t.lookup(a) is Some,
        t.lookup(a) == t.lookup(b),
    ensures
        a == b,
{
    let i = choose|i: int| 0 <= i < t.names@.len() && (#[trigger] t.names@[i]).0@ == a;
    let j = choose|j: int| 0 <= j < t.names@.len() && (#[trigger] t.names@[j]).0@ == b;
    if i != j {
        if i < j {
            assert(t.names@[i].1 != t.names@[j].1);
        } else {
            assert(t.names@[j].1 != t.names@[i].1);
        }
    }
}

/// Every domain that a name resolves to lies below the next fresh domain, so that a fresh domain
/// is never one that a name resolves to.
pub proof fn lemma_lookup_below_next(t: DomainTracker, name: Seq<char>)
    requires
        t.well_formed(),
        t.lookup(name) is Some,
    ensures
        t.lookup(name).unwrap()@ < t.next_id(),
{
    let i = choose|i: int| 0 <= i < t.names@.len() && (#[trigger] t.names@[i]).0@ == name;
    assert(t.names@[i].1.id < t.counter);
}

} // verus!
