use vstd::prelude::*;
use vstd::arithmetic::div_mod::{lemma_fundamental_div_mod, lemma_fundamental_div_mod_converse};
use crate::config::SingleServer;
use crate::consistent_hashing::{
    TOTAL_SLOTS, ServerPool, empty_ring, free_from, owner_from, place, partial_ring, ring_of, route,
    request_slot, virtual_slot, lemma_ring_shape,
};

verus! {

/// Number of slots among the first `m` that belong to the backend at position `x`.
pub open spec fn owned_upto(table: Seq<Option<usize>>, x: usize, m: nat) -> nat
    decreases m,
{
    if m == 0 {
        0
    } else {
        owned_upto(table, x, (m - 1) as nat) + if table[m - 1] == Some(x) {
            1nat
        } else {
            0nat
        }
    }
}

/// Number of virtual nodes of the backend at position `x`.
pub open spec fn owned(table: Seq<Option<usize>>, x: usize) -> nat {
    owned_upto(table, x, table.len())
}

/// Number of occupied slots among the first `m`.
pub open spec fn occupied_upto(table: Seq<Option<usize>>, m: nat) -> nat
    decreases m,
{
    if m == 0 {
        0
    } else {
        occupied_upto(table, (m - 1) as nat) + if table[m - 1] is Some {
            1nat
        } else {
            0nat
        }
    }
}

proof fn lemma_counts_update(table: Seq<Option<usize>>, s: int, j: usize, m: nat)
    requires
        0 <= s < table.len(),
        m <= table.len(),
        table[s] is None,
    ensures
        occupied_upto(table.update(s, Some(j)), m) == occupied_upto(table, m) + if s < m {
            1nat
        } else {
            0nat
        },
        forall|x: usize|
            #[trigger] owned_upto(table.update(s, Some(j)), x, m) == owned_upto(table, x, m) + if x
                == j && s < m {
                1nat
            } else {
                0nat
            },
    decreases m,
{
    let t2 = table.update(s, Some(j));
    if m > 0 {
        lemma_counts_update(table, s, j, (m - 1) as nat);
        assert forall|x: usize|
            #[trigger] owned_upto(t2, x, m) == owned_upto(table, x, m) + if x == j && s < m {
                1nat
            } else {
                0nat
            } by {
            assert(owned_upto(t2, x, (m - 1) as nat) == owned_upto(table, x, (m - 1) as nat) + if x
                == j && s < m - 1 {
                1nat
            } else {
                0nat
            });
        }
    }
}

proof fn lemma_counts_all_none(table: Seq<Option<usize>>, m: nat)
    requires
        m <= table.len(),
        forall|s: int| 0 <= s < table.len() ==> table[s] is None,
    ensures
        occupied_upto(table, m) == 0,
        forall|x: usize| #[trigger] owned_upto(table, x, m) == 0,
    decreases m,
{
    if m > 0 {
        lemma_counts_all_none(table, (m - 1) as nat);
        assert forall|x: usize| #[trigger] owned_upto(table, x, m) == 0 by {
            assert(owned_upto(table, x, (m - 1) as nat) == 0);
        }
    }
}

proof fn lemma_counts_all_some(table: Seq<Option<usize>>, m: nat)
    requires
        m <= table.len(),
        forall|s: int| 0 <= s < table.len() ==> table[s] is Some,
    ensures
        occupied_upto(table, m) == m,
    decreases m,
{
    if m > 0 {
        lemma_counts_all_some(table, (m - 1) as nat);
    }
}

proof fn lemma_owned_witness(table: Seq<Option<usize>>, x: usize, m: nat)
    requires
        m <= table.len(),
        owned_upto(table, x, m) > 0,
    ensures
        exists|s: int| 0 <= s < m && table[s] == Some(x),
    decreases m,
{
    if m > 0 && table[m - 1] != Some(x) {
        lemma_owned_witness(table, x, (m - 1) as nat);
    }
}

/// Every slot is met within one turn of the ring from any start on it.
proof fn lemma_turn_covers(start: int, x: int)
    requires
        0 <= start < TOTAL_SLOTS,
        0 <= x < TOTAL_SLOTS,
    ensures
        ({
            let d = if x >= start {
                x - start
            } else {
                x + TOTAL_SLOTS - start
            };
            0 <= d < TOTAL_SLOTS && (start + d) % (TOTAL_SLOTS as int) == x
        }),
{
    let d = if x >= start {
        x - start
    } else {
        x + TOTAL_SLOTS - start
    };
    if x >= start {
        lemma_fundamental_div_mod_converse(start + d, TOTAL_SLOTS as int, 0, x);
    } else {
        lemma_fundamental_div_mod_converse(start + d, TOTAL_SLOTS as int, 1, x);
    }
}

proof fn lemma_free_none(table: Seq<Option<usize>>, start: int, d: int)
    requires
        table.len() == TOTAL_SLOTS,
        0 <= d,
        free_from(table, start, d) is None,
    ensures
        forall|e: int| d <= e < TOTAL_SLOTS ==> table[#[trigger] ((start + e) % (TOTAL_SLOTS as int))] is Some,
    decreases TOTAL_SLOTS as int - d,
{
    if d < TOTAL_SLOTS as int {
        lemma_free_none(table, start, d + 1);
    }
}

proof fn lemma_owner_none(table: Seq<Option<usize>>, start: int, d: int)
    requires
        table.len() == TOTAL_SLOTS,
        0 <= d,
        owner_from(table, start, d) is None,
    ensures
        forall|e: int| d <= e < TOTAL_SLOTS ==> table[#[trigger] ((start + e) % (TOTAL_SLOTS as int))] is None,
    decreases TOTAL_SLOTS as int - d,
{
    if d < TOTAL_SLOTS as int {
        lemma_owner_none(table, start, d + 1);
    }
}

/// A ring that is not full has room for one more virtual node, whatever its hash.
proof fn lemma_room_left(table: Seq<Option<usize>>, start: int)
    requires
        table.len() == TOTAL_SLOTS,
        0 <= start < TOTAL_SLOTS,
        occupied_upto(table, TOTAL_SLOTS as nat) < TOTAL_SLOTS,
    ensures
        free_from(table, start, 0) is Some,
{
    if free_from(table, start, 0) is None {
        lemma_free_none(table, start, 0);
        assert forall|x: int| 0 <= x < table.len() implies table[x] is Some by {
            lemma_turn_covers(start, x);
            let d = if x >= start {
                x - start
            } else {
                x + TOTAL_SLOTS - start
            };
            assert(table[(start + d) % (TOTAL_SLOTS as int)] is Some);
        }
        lemma_counts_all_some(table, TOTAL_SLOTS as nat);
    }
}

/// Lookup on a ring with at least one virtual node finds an owner.
proof fn lemma_owner_found(table: Seq<Option<usize>>, start: int, x: usize)
    requires
        table.len() == TOTAL_SLOTS,
        0 <= start < TOTAL_SLOTS,
        owned_upto(table, x, TOTAL_SLOTS as nat) > 0,
    ensures
        owner_from(table, start, 0) is Some,
{
    if owner_from(table, start, 0) is None {
        lemma_owner_none(table, start, 0);
        assert forall|y: int| 0 <= y < table.len() implies table[y] is None by {
            lemma_turn_covers(start, y);
            let d = if y >= start {
                y - start
            } else {
                y + TOTAL_SLOTS - start
            };
            assert(table[(start + d) % (TOTAL_SLOTS as int)] is None);
        }
        lemma_counts_all_none(table, TOTAL_SLOTS as nat);
    }
}

/// After `i` rounds and `j` more placements, the ring holds exactly that many
/// virtual nodes, spread evenly over the backends.
proof fn lemma_partial_counts(servers: Seq<SingleServer>, i: nat, j: nat)
    requires
        servers.len() > 0,
        j <= servers.len(),
        i * servers.len() + j <= TOTAL_SLOTS,
    ensures
        occupied_upto(partial_ring(servers, i, j), TOTAL_SLOTS as nat) == i * servers.len() + j,
        forall|x: usize|
            x < servers.len() ==> #[trigger] owned_upto(partial_ring(servers, i, j), x, TOTAL_SLOTS as nat)
                == i + if x < j {
                1nat
            } else {
                0nat
            },
    decreases i, j,
{
    let n = servers.len();
    if j == 0 {
        if i == 0 {
            lemma_counts_all_none(empty_ring(), TOTAL_SLOTS as nat);
        } else {
            assert((i - 1) * n + n == i * n) by (nonlinear_arith);
            lemma_partial_counts(servers, (i - 1) as nat, n);
        }
    } else {
        let prev = partial_ring(servers, i, (j - 1) as nat);
        lemma_partial_counts(servers, i, (j - 1) as nat);
        crate::consistent_hashing::lemma_partial_shape(servers, i, (j - 1) as nat);
        let h = virtual_slot(servers[j - 1].id, i as usize, TOTAL_SLOTS);
        lemma_room_left(prev, h);
        crate::consistent_hashing::lemma_free_from_found(prev, h, 0);
        let s = free_from(prev, h, 0).unwrap();
        lemma_counts_update(prev, s as int, (j - 1) as usize, TOTAL_SLOTS as nat);
        assert(partial_ring(servers, i, j) == prev.update(s as int, Some((j - 1) as usize)));
    }
}

/// Even share: on the ring built over `n >= 1` backends, each backend owns
/// exactly `TOTAL_SLOTS / n` virtual nodes (a slot holds at most one node, so
/// no two nodes share a slot), and `n * (TOTAL_SLOTS / n)` slots are taken.
pub proof fn lemma_even_share(servers: Seq<SingleServer>)
    requires
        servers.len() >= 1,
    ensures
        occupied_upto(ring_of(servers), TOTAL_SLOTS as nat) == servers.len() * (TOTAL_SLOTS as nat
            / servers.len()),
        forall|x: usize|
            x < servers.len() ==> #[trigger] owned(ring_of(servers), x) == TOTAL_SLOTS as nat
                / servers.len(),
{
    let n = servers.len();
    let per = TOTAL_SLOTS as nat / n;
    lemma_fundamental_div_mod(TOTAL_SLOTS as int, n as int);
    assert(per * n <= TOTAL_SLOTS) by (nonlinear_arith)
        requires
            TOTAL_SLOTS == n * per + TOTAL_SLOTS as int % n as int,
            TOTAL_SLOTS as int % n as int >= 0,
    ;
    assert(per * n == n * per) by (nonlinear_arith);
    lemma_partial_counts(servers, per, 0);
    lemma_ring_shape(servers);
}

/// The backend a token is routed to is always one of the listed backends.
pub proof fn lemma_route_listed(servers: Seq<SingleServer>, token: int)
    ensures
        route(servers, ring_of(servers), token) is Some ==> exists|m: int|
            0 <= m < servers.len() && route(servers, ring_of(servers), token) == Some(
                servers[m],
            ),
{
    lemma_ring_shape(servers);
    let table = ring_of(servers);
    let start = request_slot(token, TOTAL_SLOTS as int);
    if owner_from(table, start, 0) is Some {
        crate::consistent_hashing::lemma_owner_from_found(table, start, 0);
        let m = owner_from(table, start, 0).unwrap();
        assert(route(servers, table, token) == Some(servers[m as int]));
    }
}

/// Lookup is total: on a ring built over between one and `TOTAL_SLOTS`
/// backends, every token is routed to some backend.
pub proof fn lemma_route_total(servers: Seq<SingleServer>, token: int)
    requires
        1 <= servers.len() <= TOTAL_SLOTS,
    ensures
        route(servers, ring_of(servers), token) is Some,
{
    lemma_even_share(servers);
    lemma_ring_shape(servers);
    assert(owned(ring_of(servers), 0) == TOTAL_SLOTS as nat / servers.len());
    assert(TOTAL_SLOTS as nat / servers.len() >= 1) by (nonlinear_arith)
        requires
            1 <= servers.len() <= TOTAL_SLOTS,
    ;
    lemma_owner_found(ring_of(servers), request_slot(token, TOTAL_SLOTS as int), 0);
}

/// Lookup on the ring of an empty backend list never finds a backend.
pub proof fn lemma_route_empty(token: int)
    ensures
        route(Seq::<SingleServer>::empty(), ring_of(Seq::<SingleServer>::empty()), token) is None,
{
    let table = ring_of(Seq::<SingleServer>::empty());
    assert(table == empty_ring());
    if owner_from(table, request_slot(token, TOTAL_SLOTS as int), 0) is Some {
        crate::consistent_hashing::lemma_owner_from_found(
            table,
            request_slot(token, TOTAL_SLOTS as int),
            0,
        );
    }
}


/// Lookup depends on the backend list alone: two well-formed pools holding the
/// same backends route every token to the same backend, so repeated lookups of
/// one token on an unchanged pool agree.
pub proof fn lemma_lookup_deterministic(first: ServerPool, second: ServerPool, token: int)
    requires
        first.wf(),
        second.wf(),
        first.servers_view() == second.servers_view(),
    ensures
        first.lookup_spec(token) == second.lookup_spec(token),
{
}

/// A newly added backend is reachable: on the ring rebuilt after appending
/// `added` to at most `TOTAL_SLOTS - 1` backends, some token is routed to it.
pub proof fn lemma_added_reachable(servers: Seq<SingleServer>, added: SingleServer)
    requires
        servers.len() + 1 <= TOTAL_SLOTS,
    ensures
        exists|t: usize| route(servers.push(added), ring_of(servers.push(added)), t as int) == Some(added),
{
    let all = servers.push(added);
    let n = all.len();
    let x = (n - 1) as usize;
    let table = ring_of(all);
    lemma_even_share(all);
    lemma_ring_shape(all);
    assert(owned(table, x) == TOTAL_SLOTS as nat / n);
    assert(TOTAL_SLOTS as nat / n >= 1) by (nonlinear_arith)
        requires
            1 <= n <= TOTAL_SLOTS,
    ;
    lemma_owned_witness(table, x, TOTAL_SLOTS as nat);
    let s = choose|s: int| 0 <= s < TOTAL_SLOTS && table[s] == Some(x);
    let v = 171 * (s + 495);
    lemma_fundamental_div_mod(v, TOTAL_SLOTS as int);
    let q = v / (TOTAL_SLOTS as int);
    let t = v % (TOTAL_SLOTS as int);
    assert(t + 2 * t + 17 == (s + 496 - 3 * q) * 512 + s) by (nonlinear_arith)
        requires
            v == 171 * (s + 495),
            v == 512 * q + t,
    ;
    lemma_fundamental_div_mod_converse(t + 2 * t + 17, TOTAL_SLOTS as int, s + 496 - 3 * q, s);
    assert(request_slot(t, TOTAL_SLOTS as int) == s);
    lemma_fundamental_div_mod_converse(s + 0, TOTAL_SLOTS as int, 0, s);
    assert(owner_from(table, s, 0) == Some(x));
    assert(route(all, table, (t as usize) as int) == Some(added));
}

/// A removed backend is unreachable: when backend names are distinct, after
/// the backend at position `k` leaves, no token is routed to a backend of its
/// name and no remaining backend carries it.
pub proof fn lemma_removed_unreachable(servers: Seq<SingleServer>, k: int)
    requires
        0 <= k < servers.len(),
        forall|a: int, b: int|
            0 <= a < b < servers.len() ==> servers[a].name@ != servers[b].name@,
    ensures
        forall|m: int|
            0 <= m < servers.remove(k).len() ==> (#[trigger] servers.remove(k)[m]).name@
                != servers[k].name@,
        forall|token: int|
            #[trigger] route(servers.remove(k), ring_of(servers.remove(k)), token) is Some
                ==> route(servers.remove(k), ring_of(servers.remove(k)), token).unwrap().name@
                != servers[k].name@,
{
    let rest = servers.remove(k);
    assert forall|m: int| 0 <= m < rest.len() implies (#[trigger] rest[m]).name@ != servers[k].name@ by {
        if m < k {
            assert(rest[m] == servers[m]);
        } else {
            assert(rest[m] == servers[m + 1]);
        }
    }
    assert forall|token: int|
        #[trigger] route(rest, ring_of(rest), token) is Some implies route(
            rest,
            ring_of(rest),
            token,
        ).unwrap().name@ != servers[k].name@ by {
        lemma_route_listed(rest, token);
        let m = choose|m: int| 0 <= m < rest.len() && route(rest, ring_of(rest), token) == Some(rest[m]);
        assert(rest[m].name@ != servers[k].name@);
    }
}

} // verus!
