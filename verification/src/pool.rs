//! The pool of domain/port pairs.
//!
//! The server is configured with a list of domains. Each gets a port of its
//! own, counted up from the server's listening port. A pair is either free or
//! held; `allocate` hands out the first free pair and `release` gives one back.

use crate::seqs::{first_where, lemma_first_where, lemma_first_where_at};
use crate::text::same_text;
use vstd::multiset::Multiset;
use vstd::prelude::*;

verus! {

/// A domain with the port that serves it.
#[derive(Debug, PartialEq, Eq)]
pub struct Allocation {
    pub domain: String,
    pub port: u16,
}

/// A domain/port pair as a mathematical value.
pub type Pair = (Seq<char>, u16);

impl View for Allocation {
    type V = Pair;

    open spec fn view(&self) -> Pair {
        (self.domain@, self.port)
    }
}

impl Clone for Allocation {
    fn clone(&self) -> (copy: Self)
        ensures
            copy@ == self@,
    {
        Allocation { domain: self.domain.clone(), port: self.port }
    }
}

/// Why no pair was handed out.
#[derive(Debug, Clone, Copy, PartialEq, Eq, Structural)]
pub enum AllocationError {
    /// Every configured pair is held.
    NoDomainsAvailable,
}

/// Why a pool could not be set up.
#[derive(Debug, Clone, Copy, PartialEq, Eq, Structural)]
pub enum ConfigError {
    /// The list of domains is empty.
    NoDomains,
    /// There are more domains than ports above the listening port.
    PortOverflow,
    /// A domain is listed twice.
    DuplicateDomain,
}

/// The pool as a mathematical value: the configured pairs in their order, and
/// for each whether it is held.
pub struct PoolView {
    pub pairs: Seq<Pair>,
    pub held: Seq<bool>,
}

/// The flags of the pairs that are free.
pub open spec fn free() -> spec_fn(bool) -> bool {
    |held: bool| !held
}

/// The pairs that are `pair`.
pub open spec fn same_as(pair: Pair) -> spec_fn(Pair) -> bool {
    |other: Pair| other == pair
}

/// The index of the first free pair, or the number of pairs where all are held.
pub open spec fn first_free(held: Seq<bool>) -> int {
    first_where(held, free())
}

/// The index of `pair` among `pairs`, or their number where it is not among them.
pub open spec fn position(pairs: Seq<Pair>, pair: Pair) -> int {
    first_where(pairs, same_as(pair))
}

/// True when no domain occurs twice in `names`.
pub open spec fn distinct(names: Seq<Seq<char>>) -> bool {
    forall|i: int, j: int| 0 <= i < j < names.len() ==> names[i] != names[j]
}

/// The pairs that a server listening on `port` makes of `names`: the first
/// domain gets the next port, the second the one after, and so on.
pub open spec fn paired(port: u16, names: Seq<Seq<char>>) -> Seq<Pair> {
    Seq::new(names.len(), |i: int| (names[i], (port + 1 + i) as u16))
}

/// What is wrong with a configuration, if anything.
pub open spec fn config_fault(port: u16, names: Seq<Seq<char>>) -> Option<ConfigError> {
    if names.len() == 0 {
        Some(ConfigError::NoDomains)
    } else if port + names.len() > u16::MAX {
        Some(ConfigError::PortOverflow)
    } else if !distinct(names) {
        Some(ConfigError::DuplicateDomain)
    } else {
        None
    }
}

impl PoolView {
    /// No domain and no port is configured twice, and every pair is either free or held.
    pub open spec fn wf(self) -> bool {
        &&& self.held.len() == self.pairs.len()
        &&& forall|i: int, j: int|
            0 <= i < j < self.pairs.len() ==> self.pairs[i].0 != self.pairs[j].0
                && self.pairs[i].1 != self.pairs[j].1
    }

    /// True when `pair` is configured.
    pub open spec fn configured(self, pair: Pair) -> bool {
        position(self.pairs, pair) < self.pairs.len()
    }

    /// True when `pair` is configured and held.
    pub open spec fn is_held(self, pair: Pair) -> bool {
        self.configured(pair) && self.held[position(self.pairs, pair)]
    }

    /// True when `pair` is configured and free.
    pub open spec fn is_free(self, pair: Pair) -> bool {
        self.configured(pair) && !self.held[position(self.pairs, pair)]
    }

    /// The pair that the next allocation hands out: the first free one.
    pub open spec fn next(self) -> Option<Pair> {
        let k = first_free(self.held);
        if k < self.pairs.len() {
            Some(self.pairs[k])
        } else {
            None
        }
    }

    /// The pool after an allocation.
    pub open spec fn allocate(self) -> PoolView {
        let k = first_free(self.held);
        if k < self.held.len() {
            PoolView { pairs: self.pairs, held: self.held.update(k, true) }
        } else {
            self
        }
    }

    /// The pool after `pair` is given back. Giving back a pair that is free or
    /// not configured changes nothing.
    pub open spec fn release(self, pair: Pair) -> PoolView {
        let k = position(self.pairs, pair);
        if k < self.held.len() {
            PoolView { pairs: self.pairs, held: self.held.update(k, false) }
        } else {
            self
        }
    }
}

/// One configured pair, and whether it is held.
#[derive(Debug)]
struct Entry {
    grant: Allocation,
    held: bool,
}

/// The pool of a server.
#[derive(Debug)]
pub struct DomainPortPool {
    entries: Vec<Entry>,
}

impl View for DomainPortPool {
    type V = PoolView;

    closed spec fn view(&self) -> PoolView {
        PoolView {
            pairs: Seq::new(self.entries@.len(), |i: int| self.entries@[i].grant@),
            held: Seq::new(self.entries@.len(), |i: int| self.entries@[i].held),
        }
    }
}

/// The domains of a configuration as mathematical values.
pub open spec fn names_of(domains: Seq<String>) -> Seq<Seq<char>> {
    Seq::new(domains.len(), |i: int| domains[i]@)
}

impl DomainPortPool {
    /// Sets up the pool of a server that listens on `port` and serves
    /// `domains`. The list must not be empty, must not name a domain twice,
    /// and must leave each domain a port of its own above `port`.
    pub fn new(port: u16, domains: Vec<String>) -> (r: Result<Self, ConfigError>)
        ensures
            match r {
                Ok(pool) => {
                    &&& config_fault(port, names_of(domains@)) is None
                    &&& pool@.wf()
                    &&& pool@.pairs == paired(port, names_of(domains@))
                    &&& forall|i: int| 0 <= i < pool@.held.len() ==> !pool@.held[i]
                },
                Err(e) => config_fault(port, names_of(domains@)) == Some(e),
            },
    {
        let ghost names = names_of(domains@);
        let n = domains.len();
        if n == 0 {
            return Err(ConfigError::NoDomains);
        }
        if n > (u16::MAX - port) as usize {
            return Err(ConfigError::PortOverflow);
        }
        let mut i: usize = 0;
        while i < n
            invariant
                i <= n,
                0 < n,
                n == domains@.len(),
                port + n <= u16::MAX,
                names == names_of(domains@),
                forall|a: int, b: int| 0 <= a < b < i ==> names[a] != names[b],
            decreases n - i,
        {
            let mut j: usize = 0;
            while j < i
                invariant
                    j <= i < n,
                    n == domains@.len(),
                    port + n <= u16::MAX,
                    names == names_of(domains@),
                    forall|a: int| 0 <= a < j ==> names[a] != names[i as int],
                decreases i - j,
            {
                if same_text(domains[j].as_str(), domains[i].as_str()) {
                    assert(names[j as int] == names[i as int]);
                    return Err(ConfigError::DuplicateDomain);
                }
                j += 1;
            }
            i += 1;
        }
        let mut entries: Vec<Entry> = Vec::new();
        let mut k: usize = 0;
        while k < n
            invariant
                k <= n,
                n == domains@.len(),
                port + n <= u16::MAX,
                names == names_of(domains@),
                entries@.len() == k,
                forall|a: int| 0 <= a < k ==> !(#[trigger] entries@[a]).held,
                forall|a: int|
                    0 <= a < k ==> (#[trigger] entries@[a]).grant@ == (
                        names[a],
                        (port + 1 + a) as u16,
                    ),
            decreases n - k,
        {
            let next_port: u16 = port + 1 + k as u16;
            let grant = Allocation { domain: domains[k].clone(), port: next_port };
            entries.push(Entry { grant, held: false });
            k += 1;
        }
        let pool = DomainPortPool { entries };
        proof {
            assert(pool@.pairs =~= paired(port, names));
        }
        Ok(pool)
    }

    /// Hands out the first free pair. `requested` is the domain that the
    /// client would like; a pool that serves a fixed list goes through its own
    /// list in order, so the wish does not change the choice.
    pub fn allocate(&mut self, requested: Option<&str>) -> (r: Result<Allocation, AllocationError>)
        ensures
            final(self)@ == old(self)@.allocate(),
            old(self)@.wf() ==> final(self)@.wf(),
            match r {
                Ok(grant) => old(self)@.next() == Some(grant@),
                Err(e) => old(self)@.next() is None && e == AllocationError::NoDomainsAvailable,
            },
    {
        let _ = requested;
        let n = self.entries.len();
        let mut k: usize = 0;
        while k < n && self.entries[k].held
            invariant
                k <= n,
                n == self.entries@.len(),
                forall|j: int| 0 <= j < k ==> !free()(#[trigger] self@.held[j]),
            decreases n - k,
        {
            k += 1;
        }
        proof {
            lemma_first_where_at(self@.held, free(), k as int);
        }
        if k < n {
            let grant = self.entries[k].grant.clone();
            self.entries[k].held = true;
            proof {
                assert(final(self)@.pairs =~= old(self)@.pairs);
                assert(final(self)@.held =~= old(self)@.held.update(k as int, true));
            }
            Ok(grant)
        } else {
            Err(AllocationError::NoDomainsAvailable)
        }
    }

    /// The number of configured pairs.
    pub fn len(&self) -> (n: usize)
        ensures
            n == self@.pairs.len(),
            n == self@.held.len(),
    {
        self.entries.len()
    }

    /// The index of the pair `(domain, port)` among the configured pairs.
    fn find(&self, domain: &str, port: u16) -> (k: usize)
        ensures
            k == position(self@.pairs, (domain@, port)),
            k <= self.entries@.len(),
    {
        let n = self.entries.len();
        let mut k: usize = 0;
        while k < n && !(self.entries[k].grant.port == port && same_text(
            self.entries[k].grant.domain.as_str(),
            domain,
        ))
            invariant
                k <= n,
                n == self.entries@.len(),
                forall|j: int| 0 <= j < k ==> !same_as((domain@, port))(#[trigger] self@.pairs[j]),
            decreases n - k,
        {
            k += 1;
        }
        proof {
            lemma_first_where_at(self@.pairs, same_as((domain@, port)), k as int);
        }
        k
    }

    /// Gives the pair `(domain, port)` back. Safe to call twice, and for a
    /// pair that the pool never had: such a call changes nothing.
    pub fn release(&mut self, domain: &str, port: u16)
        ensures
            final(self)@ == old(self)@.release((domain@, port)),
            old(self)@.wf() ==> final(self)@.wf(),
    {
        let k = self.find(domain, port);
        if k < self.entries.len() {
            self.entries[k].held = false;
            proof {
                assert(final(self)@.pairs =~= old(self)@.pairs);
                assert(final(self)@.held =~= old(self)@.held.update(k as int, false));
            }
        }
    }

    /// Tests whether the pair `(domain, port)` is held.
    pub fn is_held(&self, domain: &str, port: u16) -> (held: bool)
        ensures
            held == self@.is_held((domain@, port)),
    {
        let k = self.find(domain, port);
        k < self.entries.len() && self.entries[k].held
    }
}

/// One call on a pool.
pub enum PoolOp {
    Allocate,
    Release(Seq<char>, u16),
}

/// The pool after the calls `ops`, made in order on `start`.
pub open spec fn run(start: PoolView, ops: Seq<PoolOp>) -> PoolView
    decreases ops.len(),
{
    if ops.len() == 0 {
        start
    } else {
        let before = run(start, ops.drop_last());
        match ops.last() {
            PoolOp::Allocate => before.allocate(),
            PoolOp::Release(domain, port) => before.release((domain, port)),
        }
    }
}

/// The pairs that are out after the calls `ops`: each allocation that
/// succeeded puts its pair in, each release takes its pair out.
pub open spec fn outstanding(start: PoolView, ops: Seq<PoolOp>) -> Multiset<Pair>
    decreases ops.len(),
{
    if ops.len() == 0 {
        Multiset::empty()
    } else {
        let before = outstanding(start, ops.drop_last());
        match ops.last() {
            PoolOp::Allocate => match run(start, ops.drop_last()).next() {
                Some(pair) => before.insert(pair),
                None => before,
            },
            PoolOp::Release(domain, port) => before.remove((domain, port)),
        }
    }
}

/// An allocation hands out a pair that was free, marks it held and changes
/// nothing else; it fails only when nothing is free.
pub proof fn lemma_allocate_takes_a_free_pair(pool: PoolView)
    requires
        pool.wf(),
    ensures
        pool.allocate().wf(),
        pool.next() is None <==> forall|i: int| 0 <= i < pool.held.len() ==> pool.held[i],
        pool.next() matches Some(pair) ==> {
            &&& pool.is_free(pair)
            &&& pool.allocate().is_held(pair)
            &&& forall|other: Pair|
                other != pair ==> pool.allocate().is_held(other) == pool.is_held(other)
        },
{
    lemma_first_where(pool.held, free());
    let k = first_free(pool.held);
    if k < pool.pairs.len() {
        let pair = pool.pairs[k];
        lemma_first_where(pool.pairs, same_as(pair));
        assert forall|other: Pair| other != pair implies pool.allocate().is_held(other)
            == pool.is_held(other) by {
            lemma_first_where(pool.pairs, same_as(other));
        }
    }
}

/// A released pair is free again and is the subject of a later allocation:
/// the next one succeeds, and it hands out this very pair once the pairs
/// configured before it are held. Releasing twice is releasing once.
pub proof fn lemma_released_pair_is_eligible(pool: PoolView, pair: Pair)
    requires
        pool.wf(),
        pool.configured(pair),
    ensures
        pool.release(pair).wf(),
        pool.release(pair).is_free(pair),
        pool.release(pair).next() is Some,
        (forall|j: int| 0 <= j < position(pool.pairs, pair) ==> pool.held[j]) ==> pool.release(
            pair,
        ).next() == Some(pair),
        pool.release(pair).release(pair) == pool.release(pair),
        forall|other: Pair|
            other != pair ==> pool.release(pair).is_held(other) == pool.is_held(other),
{
    lemma_first_where(pool.pairs, same_as(pair));
    let k = position(pool.pairs, pair);
    let after = pool.release(pair);
    lemma_first_where(after.held, free());
    assert(!after.held[k]);
    assert(first_free(after.held) <= k);
    if forall|j: int| 0 <= j < k ==> pool.held[j] {
        lemma_first_where_at(after.held, free(), k);
    }
    assert(after.release(pair).held =~= after.held);
    assert forall|other: Pair| other != pair implies after.is_held(other) == pool.is_held(
        other,
    ) by {
        lemma_first_where(pool.pairs, same_as(other));
    }
}

/// Whatever calls are made on a pool that starts with every pair free, in
/// whatever order: a pair is out at most once, it is out exactly when the pool
/// has it as held, and no two pairs that are out share a port or a domain.
pub proof fn lemma_no_pair_is_shared(start: PoolView, ops: Seq<PoolOp>)
    requires
        start.wf(),
        forall|i: int| 0 <= i < start.held.len() ==> !start.held[i],
    ensures
        run(start, ops).wf(),
        run(start, ops).pairs == start.pairs,
        forall|pair: Pair| #[trigger]
            outstanding(start, ops).count(pair) == (if run(start, ops).is_held(pair) {
                1nat
            } else {
                0nat
            }),
        forall|p: Pair, q: Pair|
            outstanding(start, ops).count(p) > 0 && outstanding(start, ops).count(q) > 0 && p
                != q ==> p.1 != q.1 && p.0 != q.0,
    decreases ops.len(),
{
    if ops.len() == 0 {
        assert forall|pair: Pair| !start.is_held(pair) by {
            lemma_first_where(start.pairs, same_as(pair));
        }
    } else {
        let earlier = ops.drop_last();
        lemma_no_pair_is_shared(start, earlier);
        let before = run(start, earlier);
        let out = outstanding(start, earlier);
        match ops.last() {
            PoolOp::Allocate => {
                lemma_allocate_takes_a_free_pair(before);
            },
            PoolOp::Release(domain, port) => {
                let pair = (domain, port);
                lemma_first_where(before.pairs, same_as(pair));
                if before.configured(pair) {
                    lemma_released_pair_is_eligible(before, pair);
                }
            },
        }
        let now = run(start, ops);
        assert forall|p: Pair, q: Pair|
            outstanding(start, ops).count(p) > 0 && outstanding(start, ops).count(q) > 0 && p
                != q implies p.1 != q.1 && p.0 != q.0 by {
            lemma_first_where(now.pairs, same_as(p));
            lemma_first_where(now.pairs, same_as(q));
        }
    }
}

} // verus!
