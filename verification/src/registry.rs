//! The server's registry of control channels.
//!
//! Each configured domain/port pair has a slot. A slot is empty while the pair
//! is free and holds the control channel of the client that the pair was handed
//! to. A channel starts as a candidate when the server answers `Init`, becomes
//! active with the client's `Ack`, and is closed when its connection fails.
//! While active it queues the public connections accepted on its port until
//! the client's data connections come to serve them, oldest first.

use crate::packet::{Message, Packet};
use crate::pool::{
    config_fault, first_free, free, lemma_released_pair_is_eligible, names_of, paired, same_as,
    Allocation, ConfigError, DomainPortPool, Pair, PoolView,
};
use crate::seqs::{first_where, lemma_first_where, lemma_first_where_at};
use crate::text::same_text;
use vstd::prelude::*;

verus! {

/// How long the server waits for `Ack` after it sent `Success`, in
/// milliseconds. A candidate that stays silent longer is closed.
pub const ACK_TIMEOUT_MS: u64 = 5_000;

/// How long a public connection waits for a data connection, in milliseconds.
/// One that waits longer is given up.
pub const PAIRING_TIMEOUT_MS: u64 = 30_000;

/// Why the server turns a connection or a session away.
#[derive(Debug, Clone, Copy, PartialEq, Eq, Structural)]
pub enum TunnelError {
    /// The handshake did not go as the protocol says.
    HandshakeFailed,
    /// Every domain is taken.
    NoDomainsAvailable,
    /// A data connection named a domain that no active channel serves.
    UnknownDomain,
    /// A data connection came for a domain with no public connection waiting.
    NoPendingSession,
    /// The client that was to serve a public connection is gone.
    PeerGone,
}

/// One connected client: its control connection, the pair it holds, and the
/// public connections that wait for it.
#[derive(Debug)]
pub struct ControlChannel {
    conn: u64,
    grant: Allocation,
    active: bool,
    pending: Vec<u64>,
}

/// The mathematical value of a [`ControlChannel`].
pub struct ChannelView {
    pub conn: u64,
    pub pair: Pair,
    pub active: bool,
    pub pending: Seq<u64>,
}

impl View for ControlChannel {
    type V = ChannelView;

    closed spec fn view(&self) -> ChannelView {
        ChannelView {
            conn: self.conn,
            pair: self.grant@,
            active: self.active,
            pending: self.pending@,
        }
    }
}

impl ControlChannel {
    /// A candidate channel on connection `conn` that holds `grant`: not yet
    /// active, with nothing waiting.
    pub fn new(conn: u64, grant: Allocation) -> (channel: Self)
        ensures
            channel@ == (ChannelView {
                conn,
                pair: grant@,
                active: false,
                pending: Seq::empty(),
            }),
    {
        ControlChannel { conn, grant, active: false, pending: Vec::new() }
    }

    /// The control connection.
    pub fn conn(&self) -> (conn: u64)
        ensures
            conn == self@.conn,
    {
        self.conn
    }

    /// The domain that the channel holds.
    pub fn domain(&self) -> (domain: &str)
        ensures
            domain@ == self@.pair.0,
    {
        self.grant.domain.as_str()
    }

    /// The port that the channel holds.
    pub fn port(&self) -> (port: u16)
        ensures
            port == self@.pair.1,
    {
        self.grant.port
    }

    /// Whether the client has acknowledged the handshake.
    pub fn is_active(&self) -> (active: bool)
        ensures
            active == self@.active,
    {
        self.active
    }

    /// The number of public connections that wait.
    pub fn waiting(&self) -> (count: usize)
        ensures
            count == self@.pending.len(),
    {
        self.pending.len()
    }
}

/// What closing a channel leaves to do: the pair went back to the pool, and
/// the public connections in `orphans` will never be served.
#[derive(Debug)]
pub struct Teardown {
    pub grant: Allocation,
    pub orphans: Vec<u64>,
}

/// What a read on an active control connection brought.
#[derive(Debug, Clone, Copy, PartialEq, Eq, Structural)]
pub enum Liveness {
    /// A probe arrived: the client is there.
    Probe,
    /// The read failed or the connection ended: the client is gone.
    Lost,
}

/// What the server does after a read on an active control connection.
#[derive(Debug)]
pub enum Watch {
    /// Read again.
    Continue,
    /// Stop reading and stop listening on the channel's port. Where this read
    /// was the one that closed the channel, the teardown tells what is left to
    /// do; where the channel was closed before, there is nothing left.
    Stop(Option<Teardown>),
}

/// The mathematical value of a [`Watch`].
pub enum WatchView {
    Continue,
    Stop(Option<(Pair, Seq<u64>)>),
}

impl View for Watch {
    type V = WatchView;

    open spec fn view(&self) -> WatchView {
        match self {
            Watch::Continue => WatchView::Continue,
            Watch::Stop(teardown) => WatchView::Stop(teardown_view(*teardown)),
        }
    }
}

/// What the server does with a connection after its first message.
#[derive(Debug)]
pub enum ServerAction {
    /// Answer `Success` with the domain of the grant, then wait for `Ack`.
    Welcome(Allocation),
    /// Answer `DataForward`, then relay between this connection and the
    /// public connection named.
    Forward(u64),
    /// Close the connection.
    Reject(TunnelError),
}

/// The mathematical value of a [`ServerAction`].
pub enum ActionView {
    Welcome(Pair),
    Forward(u64),
    Reject(TunnelError),
}

impl View for ServerAction {
    type V = ActionView;

    open spec fn view(&self) -> ActionView {
        match self {
            ServerAction::Welcome(grant) => ActionView::Welcome(grant@),
            ServerAction::Forward(session) => ActionView::Forward(*session),
            ServerAction::Reject(e) => ActionView::Reject(*e),
        }
    }
}

/// The registry as a mathematical value: the pool, and for each of its pairs
/// the channel that holds it.
pub struct RegistryView {
    pub pool: PoolView,
    pub slots: Seq<Option<ChannelView>>,
}

/// The slots that hold the channel of connection `conn`.
pub open spec fn on_conn(conn: u64) -> spec_fn(Option<ChannelView>) -> bool {
    |slot: Option<ChannelView>| slot matches Some(c) && c.conn == conn
}

/// The slots that hold an active channel on `port`.
pub open spec fn serving_port(port: u16) -> spec_fn(Option<ChannelView>) -> bool {
    |slot: Option<ChannelView>| slot matches Some(c) && c.active && c.pair.1 == port
}

/// The slots that hold an active channel for `domain`.
pub open spec fn serving_domain(domain: Seq<char>) -> spec_fn(Option<ChannelView>) -> bool {
    |slot: Option<ChannelView>| slot matches Some(c) && c.active && c.pair.0 == domain
}

/// The slots in which `session` waits.
pub open spec fn holding(session: u64) -> spec_fn(Option<ChannelView>) -> bool {
    |slot: Option<ChannelView>| slot matches Some(c) && c.pending.contains(session)
}

/// The elements equal to `x`.
pub open spec fn equal_to(x: u64) -> spec_fn(u64) -> bool {
    |y: u64| y == x
}

impl ChannelView {
    /// The channel with `pending` as its queue.
    pub open spec fn with_pending(self, pending: Seq<u64>) -> ChannelView {
        ChannelView { conn: self.conn, pair: self.pair, active: self.active, pending }
    }

    /// The channel made active.
    pub open spec fn activated(self) -> ChannelView {
        ChannelView { conn: self.conn, pair: self.pair, active: true, pending: self.pending }
    }
}

impl RegistryView {
    /// The slots follow the pool: a slot is filled exactly when its pair is
    /// held, by a channel that holds that pair, and no connection has two
    /// channels.
    pub open spec fn wf(self) -> bool {
        &&& self.pool.wf()
        &&& self.slots.len() == self.pool.pairs.len()
        &&& forall|k: int|
            0 <= k < self.slots.len() ==> (#[trigger] self.slots[k] is Some) == self.pool.held[k]
        &&& forall|k: int|
            0 <= k < self.slots.len() ==> (#[trigger] self.slots[k] matches Some(c) ==> c.pair
                == self.pool.pairs[k])
        &&& forall|i: int, j: int|
            0 <= i < j < self.slots.len() && self.slots[i] is Some && self.slots[j] is Some
                ==> self.slots[i]->0.conn != self.slots[j]->0.conn
    }

    /// The registry with slot `k` replaced.
    pub open spec fn with_slot(self, k: int, slot: Option<ChannelView>) -> RegistryView {
        RegistryView { pool: self.pool, slots: self.slots.update(k, slot) }
    }

    /// `Init` on connection `conn`: the first free pair goes to a new candidate channel.
    pub open spec fn open(self, conn: u64) -> (RegistryView, Result<Pair, TunnelError>) {
        let k = first_free(self.pool.held);
        if first_where(self.slots, on_conn(conn)) < self.slots.len() {
            (self, Err(TunnelError::HandshakeFailed))
        } else if k >= self.pool.pairs.len() {
            (self, Err(TunnelError::NoDomainsAvailable))
        } else {
            let pair = self.pool.pairs[k];
            let channel = ChannelView { conn, pair, active: false, pending: Seq::empty() };
            (
                RegistryView {
                    pool: self.pool.allocate(),
                    slots: self.slots.update(k, Some(channel)),
                },
                Ok(pair),
            )
        }
    }

    /// `Ack` on connection `conn`: its candidate channel becomes active, and
    /// the server is to listen on the channel's port.
    pub open spec fn confirm(self, conn: u64) -> (RegistryView, Result<u16, TunnelError>) {
        let k = first_where(self.slots, on_conn(conn));
        if k < self.slots.len() && !self.slots[k]->0.active {
            let channel = self.slots[k]->0;
            (self.with_slot(k, Some(channel.activated())), Ok(channel.pair.1))
        } else {
            (self, Err(TunnelError::HandshakeFailed))
        }
    }

    /// The end of connection `conn`: its channel leaves, its pair goes back to
    /// the pool, and what waited for it is handed out as orphaned.
    pub open spec fn close(self, conn: u64) -> (RegistryView, Option<(Pair, Seq<u64>)>) {
        let k = first_where(self.slots, on_conn(conn));
        if k < self.slots.len() {
            let channel = self.slots[k]->0;
            (
                RegistryView {
                    pool: self.pool.release(channel.pair),
                    slots: self.slots.update(k, None),
                },
                Some((channel.pair, channel.pending)),
            )
        } else {
            (self, None)
        }
    }

    /// A public connection `session` accepted on `port`: it joins the queue of
    /// the active channel there, and that channel's connection is named.
    pub open spec fn enqueue(self, port: u16, session: u64) -> (
        RegistryView,
        Result<u64, TunnelError>,
    ) {
        let k = first_where(self.slots, serving_port(port));
        if k < self.slots.len() {
            let channel = self.slots[k]->0;
            (
                self.with_slot(k, Some(channel.with_pending(channel.pending.push(session)))),
                Ok(channel.conn),
            )
        } else {
            (self, Err(TunnelError::PeerGone))
        }
    }

    /// A data connection for `domain`: it gets the public connection that has
    /// waited longest on the active channel for that domain.
    pub open spec fn pair(self, domain: Seq<char>) -> (RegistryView, Result<u64, TunnelError>) {
        let k = first_where(self.slots, serving_domain(domain));
        if k >= self.slots.len() {
            (self, Err(TunnelError::UnknownDomain))
        } else if self.slots[k]->0.pending.len() == 0 {
            (self, Err(TunnelError::NoPendingSession))
        } else {
            let channel = self.slots[k]->0;
            (
                self.with_slot(k, Some(channel.with_pending(channel.pending.drop_first()))),
                Ok(channel.pending[0]),
            )
        }
    }

    /// The pairing timeout of `session`: it leaves the queue in which it
    /// waits. The result says whether it still waited.
    pub open spec fn expire(self, session: u64) -> (RegistryView, bool) {
        let k = first_where(self.slots, holding(session));
        if k < self.slots.len() {
            let channel = self.slots[k]->0;
            let at = first_where(channel.pending, equal_to(session));
            (self.with_slot(k, Some(channel.with_pending(channel.pending.remove(at)))), true)
        } else {
            (self, false)
        }
    }

    /// A read on the control connection `conn`: a probe changes nothing, a
    /// failed read closes the channel.
    pub open spec fn heartbeat(self, conn: u64, read: Liveness) -> (RegistryView, WatchView) {
        match read {
            Liveness::Probe => (self, WatchView::Continue),
            Liveness::Lost => (self.close(conn).0, WatchView::Stop(self.close(conn).1)),
        }
    }

    /// The first message on connection `conn`: `Init` opens a channel,
    /// `DataInit` asks for a waiting public connection, anything else is a
    /// failed handshake.
    pub open spec fn accept(self, conn: u64, first: Message) -> (RegistryView, ActionView) {
        match first {
            Message::Init => match self.open(conn).1 {
                Ok(pair) => (self.open(conn).0, ActionView::Welcome(pair)),
                Err(e) => (self.open(conn).0, ActionView::Reject(e)),
            },
            Message::DataInit(domain) => match self.pair(domain).1 {
                Ok(session) => (self.pair(domain).0, ActionView::Forward(session)),
                Err(e) => (self.pair(domain).0, ActionView::Reject(e)),
            },
            _ => (self, ActionView::Reject(TunnelError::HandshakeFailed)),
        }
    }

    /// What follows `Success` on connection `conn`: `Ack` confirms the
    /// channel; another message, or none in time, closes it.
    pub open spec fn acknowledge(self, conn: u64, reply: Option<Message>) -> (
        RegistryView,
        Result<u16, TunnelError>,
    ) {
        if reply == Some(Message::Ack) {
            self.confirm(conn)
        } else {
            (self.close(conn).0, Err(TunnelError::HandshakeFailed))
        }
    }
}

/// The view of a slot.
pub open spec fn slot_view(slot: Option<ControlChannel>) -> Option<ChannelView> {
    match slot {
        Some(channel) => Some(channel@),
        None => None,
    }
}

/// The view of an optional message.
pub open spec fn reply_view(reply: Option<&Packet>) -> Option<Message> {
    match reply {
        Some(packet) => Some(packet@),
        None => None,
    }
}

/// The view of what a close hands out.
pub open spec fn teardown_view(teardown: Option<Teardown>) -> Option<(Pair, Seq<u64>)> {
    match teardown {
        Some(t) => Some((t.grant@, t.orphans@)),
        None => None,
    }
}

/// The view of an optional grant.
pub open spec fn grant_view(r: Result<Allocation, TunnelError>) -> Result<Pair, TunnelError> {
    match r {
        Ok(grant) => Ok(grant@),
        Err(e) => Err(e),
    }
}

/// The registry of a server.
#[derive(Debug)]
pub struct Registry {
    pool: DomainPortPool,
    slots: Vec<Option<ControlChannel>>,
}

impl View for Registry {
    type V = RegistryView;

    closed spec fn view(&self) -> RegistryView {
        RegistryView {
            pool: self.pool@,
            slots: Seq::new(self.slots@.len(), |k: int| slot_view(self.slots@[k])),
        }
    }
}

/// Tests whether `slot` holds the channel of connection `conn`.
fn slot_on_conn(slot: &Option<ControlChannel>, conn: u64) -> (b: bool)
    ensures
        b == on_conn(conn)(slot_view(*slot)),
{
    match slot {
        Some(channel) => channel.conn == conn,
        None => false,
    }
}

/// Tests whether `slot` holds an active channel on `port`.
fn slot_serving_port(slot: &Option<ControlChannel>, port: u16) -> (b: bool)
    ensures
        b == serving_port(port)(slot_view(*slot)),
{
    match slot {
        Some(channel) => channel.active && channel.grant.port == port,
        None => false,
    }
}

/// Tests whether `slot` holds an active channel for `domain`.
fn slot_serving_domain(slot: &Option<ControlChannel>, domain: &str) -> (b: bool)
    ensures
        b == serving_domain(domain@)(slot_view(*slot)),
{
    match slot {
        Some(channel) => channel.active && same_text(channel.grant.domain.as_str(), domain),
        None => false,
    }
}

/// Tests whether `slot` holds an active channel.
fn slot_active(slot: &Option<ControlChannel>) -> (b: bool)
    ensures
        b == (slot_view(*slot) matches Some(c) && c.active),
{
    match slot {
        Some(channel) => channel.active,
        None => false,
    }
}

/// The number of public connections that wait in `slot`.
fn slot_waiting(slot: &Option<ControlChannel>) -> (n: usize)
    ensures
        n == (match slot_view(*slot) {
            Some(c) => c.pending.len(),
            None => 0,
        }),
{
    match slot {
        Some(channel) => channel.pending.len(),
        None => 0,
    }
}

/// The index of the first `session` in `queue`, or its length.
fn find_session(queue: &Vec<u64>, session: u64) -> (at: usize)
    ensures
        at == first_where(queue@, equal_to(session)),
        at <= queue@.len(),
        at < queue@.len() <==> queue@.contains(session),
{
    let n = queue.len();
    let mut at: usize = 0;
    while at < n && queue[at] != session
        invariant
            at <= n,
            n == queue@.len(),
            forall|j: int| 0 <= j < at ==> !equal_to(session)(#[trigger] queue@[j]),
        decreases n - at,
    {
        at += 1;
    }
    proof {
        lemma_first_where_at(queue@, equal_to(session), at as int);
        if at < n {
            assert(queue@[at as int] == session);
        }
    }
    at
}

/// Tests whether `session` waits in `slot`.
fn slot_holding(slot: &Option<ControlChannel>, session: u64) -> (b: bool)
    ensures
        b == holding(session)(slot_view(*slot)),
{
    match slot {
        Some(channel) => find_session(&channel.pending, session) < channel.pending.len(),
        None => false,
    }
}

impl Registry {
    /// Sets up the registry of a server that listens on `port` and serves
    /// `domains`, with every pair free.
    pub fn new(port: u16, domains: Vec<String>) -> (r: Result<Self, ConfigError>)
        ensures
            match r {
                Ok(registry) => {
                    &&& config_fault(port, names_of(domains@)) is None
                    &&& registry@.wf()
                    &&& registry@.pool.pairs == paired(port, names_of(domains@))
                    &&& forall|k: int|
                        0 <= k < registry@.slots.len() ==> registry@.slots[k] is None
                },
                Err(e) => config_fault(port, names_of(domains@)) == Some(e),
            },
    {
        let pool = match DomainPortPool::new(port, domains) {
            Ok(pool) => pool,
            Err(e) => {
                return Err(e);
            },
        };
        let n = pool.len();
        let mut slots: Vec<Option<ControlChannel>> = Vec::new();
        let mut k: usize = 0;
        while k < n
            invariant
                k <= n,
                slots@.len() == k,
                forall|j: int| 0 <= j < k ==> slots@[j] is None,
            decreases n - k,
        {
            slots.push(None);
            k += 1;
        }
        Ok(Registry { pool, slots })
    }

    /// The first slot with the channel of connection `conn`.
    fn find_conn(&self, conn: u64) -> (k: usize)
        ensures
            k == first_where(self@.slots, on_conn(conn)),
            k <= self@.slots.len(),
    {
        let n = self.slots.len();
        let mut k: usize = 0;
        while k < n && !slot_on_conn(&self.slots[k], conn)
            invariant
                k <= n,
                n == self.slots@.len(),
                forall|j: int| 0 <= j < k ==> !on_conn(conn)(#[trigger] self@.slots[j]),
            decreases n - k,
        {
            k += 1;
        }
        proof {
            lemma_first_where_at(self@.slots, on_conn(conn), k as int);
        }
        k
    }

    /// The first slot with an active channel on `port`.
    fn find_port(&self, port: u16) -> (k: usize)
        ensures
            k == first_where(self@.slots, serving_port(port)),
            k <= self@.slots.len(),
    {
        let n = self.slots.len();
        let mut k: usize = 0;
        while k < n && !slot_serving_port(&self.slots[k], port)
            invariant
                k <= n,
                n == self.slots@.len(),
                forall|j: int| 0 <= j < k ==> !serving_port(port)(#[trigger] self@.slots[j]),
            decreases n - k,
        {
            k += 1;
        }
        proof {
            lemma_first_where_at(self@.slots, serving_port(port), k as int);
        }
        k
    }

    /// The first slot with an active channel for `domain`.
    fn find_domain(&self, domain: &str) -> (k: usize)
        ensures
            k == first_where(self@.slots, serving_domain(domain@)),
            k <= self@.slots.len(),
    {
        let n = self.slots.len();
        let mut k: usize = 0;
        while k < n && !slot_serving_domain(&self.slots[k], domain)
            invariant
                k <= n,
                n == self.slots@.len(),
                forall|j: int|
                    0 <= j < k ==> !serving_domain(domain@)(#[trigger] self@.slots[j]),
            decreases n - k,
        {
            k += 1;
        }
        proof {
            lemma_first_where_at(self@.slots, serving_domain(domain@), k as int);
        }
        k
    }

    /// The first slot in which `session` waits.
    fn find_holder(&self, session: u64) -> (k: usize)
        ensures
            k == first_where(self@.slots, holding(session)),
            k <= self@.slots.len(),
    {
        let n = self.slots.len();
        let mut k: usize = 0;
        while k < n && !slot_holding(&self.slots[k], session)
            invariant
                k <= n,
                n == self.slots@.len(),
                forall|j: int| 0 <= j < k ==> !holding(session)(#[trigger] self@.slots[j]),
            decreases n - k,
        {
            k += 1;
        }
        proof {
            lemma_first_where_at(self@.slots, holding(session), k as int);
        }
        k
    }

    /// The first empty slot, which is the slot of the first free pair.
    fn find_empty(&self) -> (k: usize)
        ensures
            k <= self@.slots.len(),
            self@.wf() ==> k == first_free(self@.pool.held),
    {
        let n = self.slots.len();
        let mut k: usize = 0;
        while k < n && self.slots[k].is_some()
            invariant
                k <= n,
                n == self.slots@.len(),
                forall|j: int| 0 <= j < k ==> (#[trigger] self@.slots[j]) is Some,
            decreases n - k,
        {
            k += 1;
        }
        proof {
            if self@.wf() {
                if k < n {
                    assert(self@.slots[k as int] is None);
                }
                assert forall|j: int| 0 <= j < k implies !free()(
                    #[trigger] self@.pool.held[j],
                ) by {
                    assert(self@.slots[j] is Some);
                }
                lemma_first_where_at(self@.pool.held, free(), k as int);
            }
        }
        k
    }

    /// Handles `Init` on connection `conn`: hands the first free pair to a new
    /// candidate channel. Fails when `conn` has a channel already, and when no
    /// pair is free.
    pub fn open(&mut self, conn: u64) -> (r: Result<Allocation, TunnelError>)
        ensures
            old(self)@.wf() ==> final(self)@.wf() && (final(self)@, grant_view(r))
                == old(self)@.open(conn),
    {
        if self.find_conn(conn) < self.slots.len() {
            return Err(TunnelError::HandshakeFailed);
        }
        let k = self.find_empty();
        if k >= self.slots.len() {
            return Err(TunnelError::NoDomainsAvailable);
        }
        proof {
            lemma_first_where(self@.slots, on_conn(conn));
        }
        let grant = match self.pool.allocate(None) {
            Ok(grant) => grant,
            Err(_) => {
                return Err(TunnelError::NoDomainsAvailable);
            },
        };
        self.slots[k] = Some(ControlChannel::new(conn, grant.clone()));
        proof {
            if old(self)@.wf() {
                let after = final(self)@;
                let expected = old(self)@.open(conn).0;
                assert(after.slots =~= expected.slots);
                assert forall|i: int, j: int|
                    0 <= i < j < after.slots.len() && after.slots[i] is Some
                        && after.slots[j] is Some implies after.slots[i]->0.conn
                    != after.slots[j]->0.conn by {
                    if i != k {
                        assert(!on_conn(conn)(old(self)@.slots[i]));
                    }
                    if j != k {
                        assert(!on_conn(conn)(old(self)@.slots[j]));
                    }
                }
            }
        }
        Ok(grant)
    }

    /// Handles `Ack` on connection `conn`: makes its candidate channel active
    /// and returns the port to listen on. Fails when `conn` has no channel or
    /// an active one.
    pub fn confirm(&mut self, conn: u64) -> (r: Result<u16, TunnelError>)
        ensures
            old(self)@.wf() ==> final(self)@.wf() && (final(self)@, r)
                == old(self)@.confirm(conn),
    {
        let k = self.find_conn(conn);
        if k >= self.slots.len() {
            return Err(TunnelError::HandshakeFailed);
        }
        proof {
            lemma_first_where(self@.slots, on_conn(conn));
        }
        if slot_active(&self.slots[k]) {
            return Err(TunnelError::HandshakeFailed);
        }
        match &mut self.slots[k] {
            Some(channel) => {
                channel.active = true;
                let port = channel.grant.port;
                proof {
                    assert(final(self)@.slots =~= old(self)@.confirm(conn).0.slots);
                }
                Ok(port)
            },
            None => Err(TunnelError::HandshakeFailed),
        }
    }

    /// Closes the channel of connection `conn`: it leaves the registry, its
    /// pair returns to the pool, and the public connections that waited for it
    /// are handed out. A connection without a channel has nothing to close, so
    /// a second call does nothing and returns `None`.
    pub fn close(&mut self, conn: u64) -> (r: Option<Teardown>)
        ensures
            old(self)@.wf() ==> final(self)@.wf() && (final(self)@, teardown_view(r))
                == old(self)@.close(conn),
    {
        let k = self.find_conn(conn);
        if k >= self.slots.len() {
            return None;
        }
        proof {
            lemma_first_where(self@.slots, on_conn(conn));
        }
        let mut taken: Option<ControlChannel> = None;
        core::mem::swap(&mut taken, &mut self.slots[k]);
        match taken {
            Some(channel) => {
                proof {
                    if old(self)@.wf() {
                        let pair = channel@.pair;
                        assert(pair == old(self)@.pool.pairs[k as int]);
                        lemma_first_where_at(old(self)@.pool.pairs, same_as(pair), k as int);
                    }
                }
                self.pool.release(channel.grant.domain.as_str(), channel.grant.port);
                proof {
                    if old(self)@.wf() {
                        assert(final(self)@.slots =~= old(self)@.close(conn).0.slots);
                    }
                }
                Some(Teardown { grant: channel.grant, orphans: channel.pending })
            },
            None => None,
        }
    }

    /// Decides what follows a read on the control connection `conn`. The
    /// client's cadence is not measured: a channel lives for as long as reads
    /// succeed, and the first failed read closes it. Only that one read gets
    /// the teardown, however many reads fail.
    pub fn heartbeat(&mut self, conn: u64, read: Liveness) -> (watch: Watch)
        ensures
            old(self)@.wf() ==> final(self)@.wf() && (final(self)@, watch@)
                == old(self)@.heartbeat(conn, read),
    {
        match read {
            Liveness::Probe => Watch::Continue,
            Liveness::Lost => Watch::Stop(self.close(conn)),
        }
    }

    /// Queues the public connection `session`, accepted on `port`, and returns
    /// the control connection of the client that is to serve it. Fails with
    /// `PeerGone` when no active channel holds `port`.
    pub fn enqueue(&mut self, port: u16, session: u64) -> (r: Result<u64, TunnelError>)
        ensures
            old(self)@.wf() ==> final(self)@.wf() && (final(self)@, r)
                == old(self)@.enqueue(port, session),
    {
        let k = self.find_port(port);
        if k >= self.slots.len() {
            return Err(TunnelError::PeerGone);
        }
        proof {
            lemma_first_where(self@.slots, serving_port(port));
        }
        match &mut self.slots[k] {
            Some(channel) => {
                channel.pending.push(session);
                let conn = channel.conn;
                proof {
                    assert(final(self)@.slots =~= old(self)@.enqueue(port, session).0.slots);
                }
                Ok(conn)
            },
            None => Err(TunnelError::PeerGone),
        }
    }

    /// Serves a data connection that announced `domain`: returns the public
    /// connection that has waited longest for that domain and takes it off
    /// the queue. Fails with `UnknownDomain` when no active channel serves the
    /// domain and with `NoPendingSession` when nothing waits; either way
    /// nothing changes.
    pub fn pair(&mut self, domain: &str) -> (r: Result<u64, TunnelError>)
        ensures
            old(self)@.wf() ==> final(self)@.wf() && (final(self)@, r)
                == old(self)@.pair(domain@),
    {
        let k = self.find_domain(domain);
        if k >= self.slots.len() {
            return Err(TunnelError::UnknownDomain);
        }
        proof {
            lemma_first_where(self@.slots, serving_domain(domain@));
        }
        if slot_waiting(&self.slots[k]) == 0 {
            return Err(TunnelError::NoPendingSession);
        }
        match &mut self.slots[k] {
            Some(channel) => {
                let session = channel.pending.remove(0);
                proof {
                    let queue = old(self)@.slots[k as int]->0.pending;
                    assert(queue.remove(0) =~= queue.drop_first());
                    assert(final(self)@.slots =~= old(self)@.pair(domain@).0.slots);
                }
                Ok(session)
            },
            None => Err(TunnelError::UnknownDomain),
        }
    }

    /// Gives up on the public connection `session` after its pairing timeout:
    /// takes it off the queue in which it waits. Returns whether it still
    /// waited.
    pub fn expire(&mut self, session: u64) -> (waited: bool)
        ensures
            old(self)@.wf() ==> final(self)@.wf() && (final(self)@, waited)
                == old(self)@.expire(session),
    {
        let k = self.find_holder(session);
        if k >= self.slots.len() {
            return false;
        }
        proof {
            lemma_first_where(self@.slots, holding(session));
        }
        match &mut self.slots[k] {
            Some(channel) => {
                let at = find_session(&channel.pending, session);
                channel.pending.remove(at);
                proof {
                    assert(final(self)@.slots =~= old(self)@.expire(session).0.slots);
                }
                true
            },
            None => false,
        }
    }

    /// Decides what to do with connection `conn` from its first message.
    pub fn accept(&mut self, conn: u64, first: &Packet) -> (action: ServerAction)
        ensures
            old(self)@.wf() ==> final(self)@.wf() && (final(self)@, action@)
                == old(self)@.accept(conn, first@),
    {
        match first {
            Packet::Init => match self.open(conn) {
                Ok(grant) => ServerAction::Welcome(grant),
                Err(e) => ServerAction::Reject(e),
            },
            Packet::DataInit(domain) => match self.pair(domain.as_str()) {
                Ok(session) => ServerAction::Forward(session),
                Err(e) => ServerAction::Reject(e),
            },
            _ => ServerAction::Reject(TunnelError::HandshakeFailed),
        }
    }

    /// Decides what follows `Success` on connection `conn`. `reply` is the
    /// next message of the client, or `None` when none came in time or the
    /// connection closed. `Ack` makes the channel active and returns the port
    /// to listen on; anything else closes the channel and frees its pair.
    pub fn acknowledge(&mut self, conn: u64, reply: Option<&Packet>) -> (r: Result<
        u16,
        TunnelError,
    >)
        ensures
            old(self)@.wf() ==> final(self)@.wf() && (final(self)@, r)
                == old(self)@.acknowledge(conn, reply_view(reply)),
    {
        match reply {
            Some(Packet::Ack) => self.confirm(conn),
            _ => {
                let _ = self.close(conn);
                Err(TunnelError::HandshakeFailed)
            },
        }
    }

    /// Tests whether an active channel serves `domain`.
    pub fn serves(&self, domain: &str) -> (active: bool)
        ensures
            active == (first_where(self@.slots, serving_domain(domain@)) < self@.slots.len()),
    {
        self.find_domain(domain) < self.slots.len()
    }

    /// The channel of connection `conn`, if it has one.
    pub fn channel(&self, conn: u64) -> (r: Option<&ControlChannel>)
        ensures
            match r {
                Some(channel) => {
                    let k = first_where(self@.slots, on_conn(conn));
                    k < self@.slots.len() && self@.slots[k] == Some(channel@)
                },
                None => first_where(self@.slots, on_conn(conn)) >= self@.slots.len(),
            },
    {
        let k = self.find_conn(conn);
        if k < self.slots.len() {
            proof {
                lemma_first_where(self@.slots, on_conn(conn));
            }
            self.slots[k].as_ref()
        } else {
            None
        }
    }

    /// The pool behind the registry.
    pub fn pool(&self) -> (pool: &DomainPortPool)
        ensures
            pool@ == self@.pool,
    {
        &self.pool
    }
}

/// No two channels hold the same port or the same domain, and none holds a
/// pair that the pool has as free.
pub proof fn lemma_channels_share_nothing(registry: RegistryView)
    requires
        registry.wf(),
    ensures
        forall|i: int, j: int|
            0 <= i < registry.slots.len() && 0 <= j < registry.slots.len() && i != j
                && registry.slots[i] is Some && registry.slots[j] is Some ==> {
                &&& registry.slots[i]->0.pair.1 != registry.slots[j]->0.pair.1
                &&& registry.slots[i]->0.pair.0 != registry.slots[j]->0.pair.0
                &&& registry.slots[i]->0.conn != registry.slots[j]->0.conn
            },
        forall|k: int|
            0 <= k < registry.slots.len() && registry.slots[k] is Some ==> registry.pool.is_held(
                #[trigger] registry.slots[k]->0.pair,
            ),
{
    assert forall|k: int|
        0 <= k < registry.slots.len() && registry.slots[k] is Some implies registry.pool.is_held(
        #[trigger] registry.slots[k]->0.pair,
    ) by {
        lemma_first_where_at(registry.pool.pairs, same_as(registry.slots[k]->0.pair), k);
    }
    assert forall|i: int, j: int|
        0 <= i < registry.slots.len() && 0 <= j < registry.slots.len() && i != j
            && registry.slots[i] is Some && registry.slots[j] is Some implies {
        &&& registry.slots[i]->0.pair.1 != registry.slots[j]->0.pair.1
        &&& registry.slots[i]->0.pair.0 != registry.slots[j]->0.pair.0
        &&& registry.slots[i]->0.conn != registry.slots[j]->0.conn
    } by {
        if i < j {
            assert(registry.slots[i]->0.conn != registry.slots[j]->0.conn);
        } else {
            assert(registry.slots[j]->0.conn != registry.slots[i]->0.conn);
        }
    }
}

/// A channel is closed once. The first close of a connection's channel gives
/// its pair back to the pool, and only that pair; every later close of the same
/// connection finds nothing, changes nothing and gives nothing back.
pub proof fn lemma_close_releases_once(registry: RegistryView, conn: u64)
    requires
        registry.wf(),
    ensures
        registry.close(conn).0.wf(),
        registry.close(conn).0.close(conn) == (registry.close(conn).0, None::<(Pair, Seq<u64>)>),
        registry.close(conn).1 is None ==> registry.close(conn).0 == registry,
        registry.close(conn).1 matches Some((pair, _)) ==> {
            &&& registry.pool.is_held(pair)
            &&& registry.close(conn).0.pool.is_free(pair)
            &&& forall|other: Pair|
                other != pair ==> registry.close(conn).0.pool.is_held(other)
                    == registry.pool.is_held(other)
        },
{
    lemma_first_where(registry.slots, on_conn(conn));
    let k = first_where(registry.slots, on_conn(conn));
    let after = registry.close(conn).0;
    if k < registry.slots.len() {
        let pair = registry.slots[k]->0.pair;
        lemma_first_where_at(registry.pool.pairs, same_as(pair), k);
        lemma_released_pair_is_eligible(registry.pool, pair);
        assert forall|j: int| 0 <= j < after.slots.len() implies !on_conn(conn)(
            #[trigger] after.slots[j],
        ) by {
            if j < k {
                assert(!on_conn(conn)(registry.slots[j]));
            } else if j > k {
                assert(registry.slots[k]->0.conn != registry.slots[j]->0.conn || !(
                registry.slots[j] is Some));
            }
        }
        lemma_first_where_at(after.slots, on_conn(conn), after.slots.len() as int);
    }
}

/// However many reads fail on a control connection, its pair is released
/// once: the first failure closes the channel and hands out the teardown, and
/// every later one finds the registry as the first left it and hands out
/// nothing. A probe changes nothing.
pub proof fn lemma_failed_reads_release_once(registry: RegistryView, conn: u64)
    requires
        registry.wf(),
    ensures
        registry.heartbeat(conn, Liveness::Probe) == (registry, WatchView::Continue),
        registry.heartbeat(conn, Liveness::Lost) == (
            registry.close(conn).0,
            WatchView::Stop(registry.close(conn).1),
        ),
        registry.heartbeat(conn, Liveness::Lost).0.heartbeat(conn, Liveness::Lost) == (
            registry.heartbeat(conn, Liveness::Lost).0,
            WatchView::Stop(None),
        ),
        registry.heartbeat(conn, Liveness::Lost).0.wf(),
{
    lemma_close_releases_once(registry, conn);
}

/// A data connection for a domain that no active channel serves is turned
/// away, and nothing changes: no public connection is taken off any queue.
pub proof fn lemma_unknown_domain_takes_nothing(
    registry: RegistryView,
    conn: u64,
    domain: Seq<char>,
)
    requires
        forall|k: int|
            0 <= k < registry.slots.len() ==> !serving_domain(domain)(#[trigger] registry.slots[k]),
    ensures
        registry.accept(conn, Message::DataInit(domain)) == (
            registry,
            ActionView::Reject(TunnelError::UnknownDomain),
        ),
{
    lemma_first_where_at(registry.slots, serving_domain(domain), registry.slots.len() as int);
}

/// Public connections are served in the order in which they came: one that
/// is queued on a port goes behind those that wait there, and a data
/// connection for the port's domain gets the one at the front.
pub proof fn lemma_first_come_first_served(registry: RegistryView, port: u16, session: u64)
    requires
        registry.wf(),
        registry.enqueue(port, session).1 is Ok,
    ensures
        ({
            let k = first_where(registry.slots, serving_port(port));
            let domain = registry.pool.pairs[k].0;
            let queue = registry.slots[k]->0.pending.push(session);
            let queued = registry.enqueue(port, session).0;
            &&& queued.wf()
            &&& queued.slots[k]->0.pending == queue
            &&& queued.pair(domain).1 == Ok::<u64, TunnelError>(queue[0])
            &&& queued.pair(domain).0.slots[k]->0.pending == queue.drop_first()
        }),
{
    lemma_first_where(registry.slots, serving_port(port));
    let k = first_where(registry.slots, serving_port(port));
    let domain = registry.pool.pairs[k].0;
    let queued = registry.enqueue(port, session).0;
    assert forall|j: int| 0 <= j < k implies !serving_domain(domain)(
        #[trigger] queued.slots[j],
    ) by {
        if queued.slots[j] is Some {
            assert(registry.slots[j]->0.pair == registry.pool.pairs[j]);
        }
    }
    lemma_first_where_at(queued.slots, serving_domain(domain), k);
}

} // verus!
