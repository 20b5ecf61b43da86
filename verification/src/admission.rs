//! Admission control: a process-wide bound on concurrently in-flight
//! requests per target URL.
//!
//! The controller keeps one permit pool per exact URL string, created
//! lazily on first use with the configured capacity, and never lets the
//! number of granted permits for a URL exceed that capacity.

use vstd::prelude::*;

verus! {

/// Bookkeeping of in-flight requests per target URL. Pools are keyed by
/// the exact URL string, so two paths on the same host are limited
/// independently.
pub struct AdmissionController {
    capacity: usize,
    entries: Vec<(String, usize)>,
}

impl AdmissionController {
    /// The per-URL bound this controller was created with.
    pub closed spec fn spec_capacity(self) -> nat {
        self.capacity as nat
    }

    /// How many permits are out for a URL; zero for a URL never seen.
    pub closed spec fn in_flight_of(self, url: Seq<char>) -> nat {
        in_flight_from(self.entries@, url, 0)
    }

    /// Internal consistency: the capacity is positive, URLs are unique,
    /// and no URL holds more permits than the capacity.
    pub closed spec fn wf(self) -> bool {
        &&& self.capacity >= 1
        &&& forall|i: int, j: int|
            0 <= i < j < self.entries@.len() ==> (#[trigger] self.entries@[i].0@) != (
            #[trigger] self.entries@[j].0@)
        &&& forall|i: int|
            0 <= i < self.entries@.len() ==> (#[trigger] self.entries@[i]).1 <= self.capacity
    }

    /// A controller with the given per-URL capacity and no permits out.
    pub fn new(capacity: usize) -> (r: AdmissionController)
        requires
            capacity >= 1,
        ensures
            r.wf(),
            r.spec_capacity() == capacity,
            forall|u: Seq<char>| r.in_flight_of(u) == 0,
    {
        let r = AdmissionController { capacity, entries: Vec::new() };
        proof {
            assert(forall|u: Seq<char>| r.in_flight_of(u) == 0);
        }
        r
    }

    /// Tries to take a permit for a URL, creating its pool on first use.
    /// The permit is granted exactly when the URL is below capacity; the
    /// count of every other URL is untouched.
    #[verifier::loop_isolation(false)]
    pub fn try_acquire(&mut self, url: &str) -> (granted: bool)
        requires
            old(self).wf(),
        ensures
            final (self).wf(),
            final (self).spec_capacity() == old(self).spec_capacity(),
            granted == (old(self).in_flight_of(url@) < old(self).spec_capacity()),
            granted ==> final (self).in_flight_of(url@) == old(self).in_flight_of(url@) + 1,
            !granted ==> final (self).in_flight_of(url@) == old(self).in_flight_of(url@),
            forall|u: Seq<char>|
                u != url@ ==> final (self).in_flight_of(u) == old(self).in_flight_of(u),
    {
        let mut j: usize = 0;
        while j < self.entries.len()
            invariant
                0 <= j <= self.entries@.len(),
                *self == *old(self),
                forall|m: int| 0 <= m < j ==> (#[trigger] self.entries@[m].0@) != url@,
            decreases self.entries@.len() - j,
        {
            if crate::strutil::str_eq(self.entries[j].0.as_str(), url) {
                proof {
                    lemma_in_flight_at(self.entries@, url@, j as int);
                }
                let n: usize = self.entries[j].1;
                if n < self.capacity {
                    let name = self.entries[j].0.clone();
                    self.entries.set(j, (name, n + 1));
                    proof {
                        assert(self.entries@ =~= old(self).entries@.update(
                            j as int,
                            (old(self).entries@[j as int].0, (n + 1) as usize),
                        ));
                        lemma_in_flight_update(
                            old(self).entries@,
                            self.entries@,
                            url@,
                            j as int,
                        );
                        lemma_in_flight_at(self.entries@, url@, j as int);
                    }
                    return true;
                } else {
                    return false;
                }
            }
            j += 1;
        }
        // First use of this URL: create its pool with one permit out.
        proof {
            lemma_in_flight_absent(self.entries@, url@);
        }
        self.entries.push((url.to_owned(), 1));
        proof {
            assert(self.entries@ =~= old(self).entries@.push(
                (self.entries@[old(self).entries@.len() as int].0, 1usize),
            ));
            lemma_in_flight_push(old(self).entries@, self.entries@, url@);
        }
        true
    }

    /// Gives one permit for a URL back.
    #[verifier::loop_isolation(false)]
    pub fn release(&mut self, url: &str)
        requires
            old(self).wf(),
            old(self).in_flight_of(url@) >= 1,
        ensures
            final (self).wf(),
            final (self).spec_capacity() == old(self).spec_capacity(),
            final (self).in_flight_of(url@) == old(self).in_flight_of(url@) - 1,
            forall|u: Seq<char>|
                u != url@ ==> final (self).in_flight_of(u) == old(self).in_flight_of(u),
    {
        let mut j: usize = 0;
        while j < self.entries.len()
            invariant
                0 <= j <= self.entries@.len(),
                *self == *old(self),
                forall|m: int| 0 <= m < j ==> (#[trigger] self.entries@[m].0@) != url@,
            decreases self.entries@.len() - j,
        {
            if crate::strutil::str_eq(self.entries[j].0.as_str(), url) {
                proof {
                    lemma_in_flight_at(self.entries@, url@, j as int);
                }
                let n: usize = self.entries[j].1;
                let name = self.entries[j].0.clone();
                self.entries.set(j, (name, n - 1));
                proof {
                    assert(self.entries@ =~= old(self).entries@.update(
                        j as int,
                        (old(self).entries@[j as int].0, (n - 1) as usize),
                    ));
                    lemma_in_flight_update(old(self).entries@, self.entries@, url@, j as int);
                    lemma_in_flight_at(self.entries@, url@, j as int);
                }
                return ;
            }
            j += 1;
        }
        proof {
            lemma_in_flight_absent(self.entries@, url@);
        }
    }
}

/// The permit count recorded for `url` from entry `i` on; zero when no
/// entry names it.
pub open spec fn in_flight_from(e: Seq<(String, usize)>, url: Seq<char>, i: int) -> nat
    decreases e.len() - i,
{
    if i < 0 || i >= e.len() {
        0
    } else if e[i].0@ == url {
        e[i].1 as nat
    } else {
        in_flight_from(e, url, i + 1)
    }
}

proof fn lemma_in_flight_at(e: Seq<(String, usize)>, url: Seq<char>, j: int)
    requires
        0 <= j < e.len(),
        e[j].0@ == url,
        forall|m: int| 0 <= m < j ==> (#[trigger] e[m].0@) != url,
    ensures
        in_flight_from(e, url, 0) == e[j].1,
{
    lemma_in_flight_scan(e, url, j, 0);
}

proof fn lemma_in_flight_scan(e: Seq<(String, usize)>, url: Seq<char>, j: int, i: int)
    requires
        0 <= i <= j < e.len(),
        e[j].0@ == url,
        forall|m: int| 0 <= m < j ==> (#[trigger] e[m].0@) != url,
    ensures
        in_flight_from(e, url, i) == e[j].1,
    decreases j - i,
{
    if i < j {
        lemma_in_flight_scan(e, url, j, i + 1);
    }
}

proof fn lemma_in_flight_absent(e: Seq<(String, usize)>, url: Seq<char>)
    requires
        forall|m: int| 0 <= m < e.len() ==> (#[trigger] e[m].0@) != url,
    ensures
        in_flight_from(e, url, 0) == 0,
{
    lemma_in_flight_absent_from(e, url, 0);
}

proof fn lemma_in_flight_absent_from(e: Seq<(String, usize)>, url: Seq<char>, i: int)
    requires
        forall|m: int| 0 <= m < e.len() ==> (#[trigger] e[m].0@) != url,
    ensures
        in_flight_from(e, url, i) == 0,
    decreases e.len() - i,
{
    if 0 <= i < e.len() {
        lemma_in_flight_absent_from(e, url, i + 1);
    }
}

proof fn lemma_in_flight_update(
    e0: Seq<(String, usize)>,
    e1: Seq<(String, usize)>,
    url: Seq<char>,
    j: int,
)
    requires
        0 <= j < e0.len(),
        e1.len() == e0.len(),
        e1[j].0@ == e0[j].0@,
        forall|m: int| 0 <= m < e0.len() && m != j ==> e1[m] == e0[m],
    ensures
        forall|u: Seq<char>|
            u != e0[j].0@ ==> in_flight_from(e1, u, 0) == in_flight_from(e0, u, 0),
{
    assert forall|u: Seq<char>| u != e0[j].0@ implies in_flight_from(e1, u, 0)
        == in_flight_from(e0, u, 0) by {
        lemma_in_flight_update_from(e0, e1, u, j, 0);
    }
}

proof fn lemma_in_flight_update_from(
    e0: Seq<(String, usize)>,
    e1: Seq<(String, usize)>,
    u: Seq<char>,
    j: int,
    i: int,
)
    requires
        0 <= j < e0.len(),
        e1.len() == e0.len(),
        e1[j].0@ == e0[j].0@,
        u != e0[j].0@,
        forall|m: int| 0 <= m < e0.len() && m != j ==> e1[m] == e0[m],
    ensures
        in_flight_from(e1, u, i) == in_flight_from(e0, u, i),
    decreases e0.len() - i,
{
    if 0 <= i < e0.len() {
        lemma_in_flight_update_from(e0, e1, u, j, i + 1);
    }
}

proof fn lemma_in_flight_push(
    e0: Seq<(String, usize)>,
    e1: Seq<(String, usize)>,
    url: Seq<char>,
)
    requires
        e1 == e0.push((e1[e0.len() as int].0, 1usize)),
        e1[e0.len() as int].0@ == url,
        forall|m: int| 0 <= m < e0.len() ==> (#[trigger] e0[m].0@) != url,
    ensures
        in_flight_from(e1, url, 0) == 1,
        forall|u: Seq<char>| u != url ==> in_flight_from(e1, u, 0) == in_flight_from(e0, u, 0),
{
    lemma_in_flight_scan(e1, url, e0.len() as int, 0);
    assert forall|u: Seq<char>| u != url implies in_flight_from(e1, u, 0) == in_flight_from(
        e0,
        u,
        0,
    ) by {
        lemma_in_flight_push_from(e0, e1, u, 0);
    }
}

proof fn lemma_in_flight_push_from(
    e0: Seq<(String, usize)>,
    e1: Seq<(String, usize)>,
    u: Seq<char>,
    i: int,
)
    requires
        e1.len() == e0.len() + 1,
        forall|m: int| 0 <= m < e0.len() ==> e1[m] == e0[m],
        u != e1[e0.len() as int].0@,
    ensures
        in_flight_from(e1, u, i) == in_flight_from(e0, u, i),
    decreases e1.len() - i,
{
    if 0 <= i < e1.len() {
        if i < e0.len() {
            lemma_in_flight_push_from(e0, e1, u, i + 1);
        } else {
            assert(in_flight_from(e1, u, i + 1) == 0);
            assert(in_flight_from(e0, u, i) == 0);
        }
    }
}

/// The admission bound: a well-formed controller never has more permits
/// out for any URL than its capacity.
pub proof fn lemma_admission_bound(c: AdmissionController, url: Seq<char>)
    requires
        c.wf(),
    ensures
        c.in_flight_of(url) <= c.spec_capacity(),
{
    lemma_bound_from(c, url, 0);
}

proof fn lemma_bound_from(c: AdmissionController, url: Seq<char>, i: int)
    requires
        c.wf(),
    ensures
        in_flight_from(c.entries@, url, i) <= c.spec_capacity(),
    decreases c.entries@.len() - i,
{
    if 0 <= i < c.entries@.len() {
        assert((c.entries@[i]).1 <= c.spec_capacity());
        lemma_bound_from(c, url, i + 1);
    }
}

} // verus!
