use vstd::prelude::*;
use crate::config::SingleServer;
use nanorand::{Rng, WyRand};
use std::collections::BTreeMap;

verus! {

/// Size of the circular slot space.
pub const TOTAL_SLOTS: usize = 512;

/// The slot a request token hashes to.
pub open spec fn request_slot(req_id: int, total_slots: int) -> int {
    (req_id + 2 * req_id + 17) % total_slots
}

/// The slot the `vs_index`-th virtual node of a backend hashes to.
pub open spec fn virtual_slot(container_id: usize, vs_index: usize, total_slots: usize) -> int {
    ((37usize).wrapping_mul(container_id).wrapping_mul(vs_index) ^ (container_id | vs_index)) as int
        % total_slots as int
}

/// Hash of a request token onto `[0, total_slots)`.
pub fn hash_request(req_id: usize, total_slots: usize) -> (r: usize)
    requires
        total_slots > 0,
    ensures
        r as int == request_slot(req_id as int, total_slots as int),
        r < total_slots,
{
    let x: u128 = req_id as u128 + 2 * (req_id as u128) + 17;
    (x % (total_slots as u128)) as usize
}

/// Hash of a backend identity and a disambiguation index onto `[0, total_slots)`.
pub fn hash_virtual_server(container_id: usize, vs_index: usize, total_slots: usize) -> (r: usize)
    requires
        total_slots > 0,
    ensures
        r as int == virtual_slot(container_id, vs_index, total_slots),
        r < total_slots,
{
    ((37usize).wrapping_mul(container_id).wrapping_mul(vs_index) ^ (container_id | vs_index))
        % total_slots
}

/// A ring with no virtual node placed.
pub open spec fn empty_ring() -> Seq<Option<usize>> {
    Seq::new(TOTAL_SLOTS as nat, |s: int| None)
}

/// The ring held by an ordered map from slot to the position of its owner.
pub open spec fn table_of(m: Map<usize, usize>) -> Seq<Option<usize>> {
    Seq::new(
        TOTAL_SLOTS as nat,
        |s: int|
            if m.contains_key(s as usize) {
                Some(m[s as usize])
            } else {
                None
            },
    )
}

/// Linear probing for placement: the first free slot met when walking
/// forward from `start + d` (wrapping), within one turn of the ring.
pub open spec fn free_from(table: Seq<Option<usize>>, start: int, d: int) -> Option<usize>
    decreases TOTAL_SLOTS as int - d,
{
    if d < 0 || d >= TOTAL_SLOTS as int {
        None
    } else if table[(start + d) % (TOTAL_SLOTS as int)] is None {
        Some(((start + d) % (TOTAL_SLOTS as int)) as usize)
    } else {
        free_from(table, start, d + 1)
    }
}

/// Linear probing for lookup: the owner of the first occupied slot met when
/// walking forward from `start + d` (wrapping), within one turn of the ring.
pub open spec fn owner_from(table: Seq<Option<usize>>, start: int, d: int) -> Option<usize>
    decreases TOTAL_SLOTS as int - d,
{
    if d < 0 || d >= TOTAL_SLOTS as int {
        None
    } else if table[(start + d) % (TOTAL_SLOTS as int)] is Some {
        table[(start + d) % (TOTAL_SLOTS as int)]
    } else {
        owner_from(table, start, d + 1)
    }
}

/// Places virtual node `i` of the backend at position `j` of the list: at the
/// hashed slot, or the next free one; dropped when the ring is full.
pub open spec fn place(table: Seq<Option<usize>>, id: usize, i: usize, j: usize) -> Seq<Option<usize>> {
    match free_from(table, virtual_slot(id, i, TOTAL_SLOTS), 0) {
        Some(s) => table.update(s as int, Some(j)),
        None => table,
    }
}

/// The ring after `i` full rounds of placement over all backends, followed by
/// the first `j` backends of round `i`.
pub open spec fn partial_ring(servers: Seq<SingleServer>, i: nat, j: nat) -> Seq<Option<usize>>
    decreases i, j,
{
    if j == 0 {
        if i == 0 {
            empty_ring()
        } else {
            partial_ring(servers, (i - 1) as nat, servers.len())
        }
    } else if j > servers.len() {
        empty_ring()
    } else {
        place(
            partial_ring(servers, i, (j - 1) as nat),
            servers[j - 1].id,
            i as usize,
            (j - 1) as usize,
        )
    }
}

/// Number of virtual nodes each backend receives.
pub open spec fn share(n: nat) -> nat {
    if n == 0 {
        0
    } else {
        TOTAL_SLOTS as nat / n
    }
}

/// The ring built over a list of backends: slot -> position in the list.
pub open spec fn ring_of(servers: Seq<SingleServer>) -> Seq<Option<usize>> {
    partial_ring(servers, share(servers.len()), 0)
}

/// The backend that a token is routed to on a given ring.
pub open spec fn route(servers: Seq<SingleServer>, table: Seq<Option<usize>>, token: int) -> Option<SingleServer> {
    match owner_from(table, request_slot(token, TOTAL_SLOTS as int), 0) {
        Some(j) => Some(servers[j as int]),
        None => None,
    }
}

/// Finds the slot where a virtual node hashed to `start` lands.
fn probe_free(table: &BTreeMap<usize, usize>, start: usize) -> (r: Option<usize>)
    requires
        start < TOTAL_SLOTS,
    ensures
        r == free_from(table_of(table@), start as int, 0),
{
    let mut d: usize = 0;
    while d < TOTAL_SLOTS
        invariant
            start < TOTAL_SLOTS,
            d <= TOTAL_SLOTS,
            free_from(table_of(table@), start as int, 0) == free_from(
                table_of(table@),
                start as int,
                d as int,
            ),
        decreases TOTAL_SLOTS - d,
    {
        let c = (start + d) % TOTAL_SLOTS;
        if !table.contains_key(&c) {
            return Some(c);
        }
        d += 1;
    }
    None
}

/// Finds the owner of the first occupied slot at or after `start`.
fn probe_owner(table: &BTreeMap<usize, usize>, start: usize) -> (r: Option<usize>)
    requires
        start < TOTAL_SLOTS,
    ensures
        r == owner_from(table_of(table@), start as int, 0),
{
    let mut d: usize = 0;
    while d < TOTAL_SLOTS
        invariant
            start < TOTAL_SLOTS,
            d <= TOTAL_SLOTS,
            owner_from(table_of(table@), start as int, 0) == owner_from(
                table_of(table@),
                start as int,
                d as int,
            ),
        decreases TOTAL_SLOTS - d,
    {
        let c = (start + d) % TOTAL_SLOTS;
        match table.get(&c) {
            Some(j) => {
                return Some(*j);
            },
            None => {},
        }
        d += 1;
    }
    None
}

/// nanorand's `WyRand` generator, carried through opaquely.
#[verifier::external_type_specification]
#[verifier::external_body]
pub struct ExWyRand(WyRand);

/// Relies on nanorand's `WyRand::new_seed`: a generator started from a fixed seed.
pub assume_specification[ WyRand::new_seed ](seed: u64) -> WyRand;

/// Relies on nanorand's `Rng::generate_range` on a `usize` range `lo..hi`:
/// a value in `[lo, hi)`; an empty range panics there, so it is excluded.
#[verifier::external_body]
pub(crate) fn generate_range(rng: &mut WyRand, lo: usize, hi: usize) -> (r: usize)
    requires
        lo < hi,
    ensures
        lo <= r < hi,
{
    rng.generate_range(lo..hi)
}

/// Smallest identity handed to a newly admitted backend.
pub const MIN_SERVER_ID: usize = 100_000;

/// Bound (exclusive) of the identities handed to newly admitted backends.
pub const MAX_SERVER_ID: usize = 999_999;

/// One placement of a backend onto one slot of the ring.
#[derive(Clone, Debug)]
pub struct VirtualServer {
    pub server_container: SingleServer,
    pub slot: usize,
}

/// The virtual nodes of a ring among its first `m` slots, in slot order.
pub open spec fn nodes_upto(servers: Seq<SingleServer>, table: Seq<Option<usize>>, m: nat) -> Seq<VirtualServer>
    decreases m,
{
    if m == 0 {
        Seq::empty()
    } else {
        let prev = nodes_upto(servers, table, (m - 1) as nat);
        match table[m - 1] {
            Some(j) => prev.push(VirtualServer { server_container: servers[j as int], slot: (m - 1) as usize }),
            None => prev,
        }
    }
}

/// The live backends and the ring of virtual nodes built over them.
pub struct ServerPool {
    servers: Vec<SingleServer>,
    hash_map: BTreeMap<usize, usize>,
    pub rang_gen: WyRand,
}

impl ServerPool {
    /// The live backends, in order of admission.
    pub closed spec fn servers_view(&self) -> Seq<SingleServer> {
        self.servers@
    }

    /// The ring: for each slot, the position in the backend list of its owner.
    pub closed spec fn table_view(&self) -> Seq<Option<usize>> {
        table_of(self.hash_map@)
    }

    /// Every key of the ordered map is a slot of the ring.
    pub closed spec fn keys_are_slots(&self) -> bool {
        forall|k: usize| self.hash_map@.contains_key(k) ==> k < TOTAL_SLOTS
    }

    /// The ring is exactly the one built over the current backends, and is
    /// keyed by slots only.
    pub open spec fn wf(&self) -> bool {
        &&& self.table_view() == ring_of(self.servers_view())
        &&& self.keys_are_slots()
    }

    /// The backend that a token is routed to.
    pub open spec fn lookup_spec(&self, token: int) -> Option<SingleServer> {
        route(self.servers_view(), self.table_view(), token)
    }

    /// An empty pool; `num_containers` is the expected number of backends.
    pub fn new(num_containers: usize) -> (r: ServerPool)
        ensures
            r.servers_view() == Seq::<SingleServer>::empty(),
            r.wf(),
    {
        let r = ServerPool {
            servers: Vec::with_capacity(num_containers),
            hash_map: BTreeMap::new(),
            rang_gen: WyRand::new_seed(32422312),
        };
        assert(r.servers_view() =~= Seq::<SingleServer>::empty());
        assert(r.table_view() =~= empty_ring());
        r
    }

    /// Rebuilds the ring over the current backends, discarding every prior placement.
    pub fn initialize(&mut self)
        ensures
            final(self).servers_view() == old(self).servers_view(),
            final(self).wf(),
    {
        let mut slots: BTreeMap<usize, usize> = BTreeMap::new();
        assert(table_of(slots@) =~= empty_ring());
        let n = self.servers.len();
        if n > 0 {
            let per = TOTAL_SLOTS / n;
            let mut i: usize = 0;
            while i < per
                invariant
                    n == self.servers@.len(),
                    n > 0,
                    per == TOTAL_SLOTS / n,
                    i <= per,
                    table_of(slots@) == partial_ring(self.servers@, i as nat, 0),
                    forall|k: usize| slots@.contains_key(k) ==> k < TOTAL_SLOTS,
                decreases per - i,
            {
                let mut j: usize = 0;
                while j < n
                    invariant
                        n == self.servers@.len(),
                        n > 0,
                        i < per,
                        per == TOTAL_SLOTS / n,
                        j <= n,
                        table_of(slots@) == partial_ring(self.servers@, i as nat, j as nat),
                        forall|k: usize| slots@.contains_key(k) ==> k < TOTAL_SLOTS,
                    decreases n - j,
                {
                    proof {
                        lemma_partial_shape(self.servers@, i as nat, j as nat);
                    }
                    let h = hash_virtual_server(self.servers[j].id, i, TOTAL_SLOTS);
                    let found = probe_free(&slots, h);
                    match found {
                        Some(s) => {
                            proof {
                                lemma_free_from_found(table_of(slots@), h as int, 0);
                            }
                            let ghost before = table_of(slots@);
                            slots.insert(s, j);
                            assert(table_of(slots@) =~= before.update(s as int, Some(j)));
                        },
                        None => {},
                    }
                    j += 1;
                }
                i += 1;
            }
        }
        self.hash_map = slots;
    }

    /// The backend serving `req_id`: the owner of the token's slot, or of the
    /// first occupied slot after it; none only on an empty ring.
    pub fn get_server_container(&self, req_id: usize) -> (r: Option<SingleServer>)
        requires
            self.wf(),
        ensures
            r == self.lookup_spec(req_id as int),
    {
        proof {
            lemma_ring_shape(self.servers@);
        }
        let slot = hash_request(req_id, TOTAL_SLOTS);
        match probe_owner(&self.hash_map, slot) {
            Some(j) => {
                proof {
                    lemma_owner_from_found(self.table_view(), slot as int, 0);
                }
                Some(self.servers[j].duplicate())
            },
            None => None,
        }
    }

    /// Admits a backend with the identity `id` and rebuilds the ring.
    pub fn add_server_with_id(&mut self, id: usize, name: String, host: String, port: u16)
        ensures
            final(self).servers_view() == old(self).servers_view().push(
                SingleServer { host, port, name, id },
            ),
            final(self).wf(),
    {
        self.servers.push(SingleServer { host, port, name, id });
        self.initialize();
    }

    /// Admits a backend under a freshly drawn identity and rebuilds the ring.
    /// The identity is not checked against those already in use.
    pub fn add_server(&mut self, name: String, host: String, port: u16)
        ensures
            exists|id: usize|
                MIN_SERVER_ID <= id < MAX_SERVER_ID && final(self).servers_view() == old(
                    self,
                ).servers_view().push(SingleServer { host, port, name, id }),
            final(self).wf(),
    {
        let id = generate_range(&mut self.rang_gen, MIN_SERVER_ID, MAX_SERVER_ID);
        let ghost entry = SingleServer { host, port, name, id };
        self.add_server_with_id(id, name, host, port);
        assert(final(self).servers_view() == old(self).servers_view().push(entry));
    }

    /// Removes the first backend named `name` and rebuilds the ring; reports
    /// whether one was found. An unknown name leaves the pool as it is.
    pub fn remove_server(&mut self, name: &String) -> (removed: bool)
        requires
            old(self).wf(),
        ensures
            removed == (exists|k: int|
                0 <= k < old(self).servers_view().len() && old(self).servers_view()[k].name@
                    == name@),
            removed ==> exists|k: int|
                0 <= k < old(self).servers_view().len() && old(self).servers_view()[k].name@
                    == name@ && (forall|m: int|
                    0 <= m < k ==> old(self).servers_view()[m].name@ != name@)
                    && final(self).servers_view() == old(self).servers_view().remove(k),
            !removed ==> final(self).servers_view() == old(self).servers_view(),
            final(self).wf(),
    {
        let mut k: usize = 0;
        while k < self.servers.len()
            invariant
                self.servers@ == old(self).servers@,
                self.hash_map@ == old(self).hash_map@,
                k <= self.servers@.len(),
                forall|m: int| 0 <= m < k ==> self.servers@[m].name@ != name@,
            decreases self.servers@.len() - k,
        {
            if self.servers[k].name == *name {
                self.servers.remove(k);
                self.initialize();
                assert(old(self).servers_view()[k as int].name@ == name@);
                return true;
            }
            k += 1;
        }
        false
    }

    /// A copy of the live backends, in order of admission.
    pub fn server_containers(&self) -> (r: Vec<SingleServer>)
        ensures
            r@ == self.servers_view(),
    {
        let mut r: Vec<SingleServer> = Vec::with_capacity(self.servers.len());
        let mut k: usize = 0;
        while k < self.servers.len()
            invariant
                k <= self.servers@.len(),
                r@ =~= self.servers@.take(k as int),
            decreases self.servers@.len() - k,
        {
            r.push(self.servers[k].duplicate());
            k += 1;
        }
        r
    }

    /// The virtual nodes of the ring, in slot order.
    pub fn virtual_servers(&self) -> (r: Vec<VirtualServer>)
        requires
            self.wf(),
        ensures
            r@ == nodes_upto(self.servers_view(), self.table_view(), TOTAL_SLOTS as nat),
    {
        proof {
            lemma_ring_shape(self.servers@);
        }
        let mut r: Vec<VirtualServer> = Vec::new();
        let mut m: usize = 0;
        while m < TOTAL_SLOTS
            invariant
                m <= TOTAL_SLOTS,
                self.wf(),
                forall|s: int|
                    0 <= s < TOTAL_SLOTS && #[trigger] self.table_view()[s] is Some
                        ==> self.table_view()[s].unwrap() < self.servers@.len(),
                r@ == nodes_upto(self.servers@, self.table_view(), m as nat),
            decreases TOTAL_SLOTS - m,
        {
            match self.hash_map.get(&m) {
                Some(j) => {
                    assert(self.table_view()[m as int] == Some(*j));
                    r.push(VirtualServer { server_container: self.servers[*j].duplicate(), slot: m });
                },
                None => {},
            }
            m += 1;
        }
        r
    }
}

/// A found free slot lies on the ring and is free.
pub(crate) proof fn lemma_free_from_found(table: Seq<Option<usize>>, start: int, d: int)
    requires
        table.len() == TOTAL_SLOTS,
        free_from(table, start, d) is Some,
    ensures
        free_from(table, start, d).unwrap() < TOTAL_SLOTS,
        table[free_from(table, start, d).unwrap() as int] is None,
    decreases TOTAL_SLOTS as int - d,
{
    if 0 <= d < TOTAL_SLOTS as int && table[(start + d) % (TOTAL_SLOTS as int)] is Some {
        lemma_free_from_found(table, start, d + 1);
    }
}

/// A found owner is the owner of some slot.
pub(crate) proof fn lemma_owner_from_found(table: Seq<Option<usize>>, start: int, d: int)
    requires
        table.len() == TOTAL_SLOTS,
        owner_from(table, start, d) is Some,
    ensures
        exists|s: int| 0 <= s < TOTAL_SLOTS && table[s] == owner_from(table, start, d),
    decreases TOTAL_SLOTS as int - d,
{
    if 0 <= d < TOTAL_SLOTS as int && table[(start + d) % (TOTAL_SLOTS as int)] is None {
        lemma_owner_from_found(table, start, d + 1);
    }
}

/// Every partial ring spans the slot space and names only listed backends.
pub(crate) proof fn lemma_partial_shape(servers: Seq<SingleServer>, i: nat, j: nat)
    requires
        j <= servers.len(),
    ensures
        partial_ring(servers, i, j).len() == TOTAL_SLOTS,
        forall|s: int|
            0 <= s < TOTAL_SLOTS && #[trigger] partial_ring(servers, i, j)[s] is Some
                ==> partial_ring(servers, i, j)[s].unwrap() < servers.len(),
    decreases i, j,
{
    if j == 0 {
        if i > 0 {
            lemma_partial_shape(servers, (i - 1) as nat, servers.len());
        }
    } else {
        let prev = partial_ring(servers, i, (j - 1) as nat);
        lemma_partial_shape(servers, i, (j - 1) as nat);
        let h = virtual_slot(servers[j - 1].id, i as usize, TOTAL_SLOTS);
        if free_from(prev, h, 0) is Some {
            lemma_free_from_found(prev, h, 0);
        }
    }
}

/// The built ring spans the slot space and names only listed backends.
pub proof fn lemma_ring_shape(servers: Seq<SingleServer>)
    ensures
        ring_of(servers).len() == TOTAL_SLOTS,
        forall|s: int|
            0 <= s < TOTAL_SLOTS && #[trigger] ring_of(servers)[s] is Some ==> ring_of(servers)[s].unwrap()
                < servers.len(),
{
    lemma_partial_shape(servers, share(servers.len()), 0);
}

} // verus!
