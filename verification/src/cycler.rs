use vstd::prelude::*;
use vstd::arithmetic::div_mod::{lemma_add_mod_noop_right, lemma_small_mod};

verus! {

/// Which machine currently holds the devices: `0` is the server itself,
/// `k > 0` is the `k`-th connected client.
pub struct HostCycler {
    pub host: usize,
}

/// The host that follows `host` when there are `client_count` clients.
pub open spec fn next_host(host: int, client_count: int) -> int {
    (host + 1) % (client_count + 1)
}

/// The host after the client at (1-based) position `closed` has gone away.
pub open spec fn host_after_close(host: int, closed: int) -> int {
    if host > closed {
        host - 1
    } else if host == closed {
        0
    } else {
        host
    }
}

/// The host reached from `host` after `steps` calls of `cycle` with
/// `client_count` clients.
pub open spec fn cycled(host: int, client_count: int, steps: nat) -> int
    decreases steps,
{
    if steps == 0 {
        host
    } else {
        next_host(cycled(host, client_count, (steps - 1) as nat), client_count)
    }
}

/// Law: with `client_count` clients and a host in range, `steps` cycles lead
/// to host `(host + steps) mod (client_count + 1)`: the devices visit the
/// server and every client in turn.
pub proof fn lemma_cycle_visits_in_turn(host: int, client_count: int, steps: nat)
    requires
        0 <= host <= client_count,
    ensures
        cycled(host, client_count, steps) == (host + steps) % (client_count + 1),
    decreases steps,
{
    let m = client_count + 1;
    if steps == 0 {
        lemma_small_mod(host as nat, m as nat);
    } else {
        lemma_cycle_visits_in_turn(host, client_count, (steps - 1) as nat);
        lemma_add_mod_noop_right(1, host + steps - 1, m);
    }
}

/// Host `t` is reached within `client_count + 1` cycles from `host`.
pub open spec fn visited(host: int, client_count: int, t: int) -> bool {
    exists|k: nat| 1 <= k <= client_count + 1 && #[trigger] cycled(host, client_count, k) == t
}

proof fn lemma_wrap_once(x: int, m: int)
    requires
        0 < m,
        0 <= x < 2 * m,
    ensures
        x % m == (if x < m { x } else { x - m }),
{
    if x < m {
        lemma_small_mod(x as nat, m as nat);
    } else {
        vstd::arithmetic::div_mod::lemma_mod_add_multiples_vanish(x - m, m);
        lemma_small_mod((x - m) as nat, m as nat);
    }
}

/// Law: over `client_count + 1` cycles in a row, the devices visit the
/// server and every client exactly once each, and the last cycle brings them
/// back to where they started.
pub proof fn lemma_cycle_visits_each_once(host: int, client_count: int)
    requires
        0 <= host <= client_count,
    ensures
        forall|i: nat, j: nat|
            1 <= i <= client_count + 1 && 1 <= j <= client_count + 1 && i != j ==> #[trigger] cycled(
                host,
                client_count,
                i,
            ) != #[trigger] cycled(host, client_count, j),
        forall|t: int| 0 <= t <= client_count ==> #[trigger] visited(host, client_count, t),
        cycled(host, client_count, (client_count + 1) as nat) == host,
{
    let m = client_count + 1;
    assert forall|k: nat| 1 <= k <= m implies #[trigger] cycled(host, client_count, k) == (if host
        + k < m {
        host + k
    } else {
        host + k - m
    }) by {
        lemma_cycle_visits_in_turn(host, client_count, k);
        lemma_wrap_once(host + k, m);
    }
    assert forall|t: int| 0 <= t <= client_count implies #[trigger] visited(host, client_count, t) by {
        let k: nat = if t > host { (t - host) as nat } else { (t - host + m) as nat };
        assert(cycled(host, client_count, k) == t);
    }
    lemma_cycle_period(host, client_count);
}

/// Law: `client_count + 1` cycles bring the devices back to where they were.
pub proof fn lemma_cycle_period(host: int, client_count: int)
    requires
        0 <= host <= client_count,
    ensures
        cycled(host, client_count, (client_count + 1) as nat) == host,
{
    let m = client_count + 1;
    lemma_cycle_visits_in_turn(host, client_count, m as nat);
    vstd::arithmetic::div_mod::lemma_mod_add_multiples_vanish(host, m);
    lemma_small_mod(host as nat, m as nat);
}

/// Law: cycling keeps the host among the server and the connected clients.
pub proof fn lemma_cycle_stays_in_range(host: int, client_count: int)
    requires
        0 <= client_count,
    ensures
        0 <= next_host(host, client_count) <= client_count,
{
}

/// Law: when one of `client_count` clients goes away, a host that was in
/// range stays in range of the `client_count - 1` remaining clients.
pub proof fn lemma_close_stays_in_range(host: int, closed: int, client_count: int)
    requires
        0 <= host <= client_count,
        1 <= closed <= client_count,
    ensures
        0 <= host_after_close(host, closed) <= client_count - 1,
{
}

impl HostCycler {
    /// A cycler that starts on the server itself.
    pub fn new() -> (c: HostCycler)
        ensures
            c.host == 0,
    {
        HostCycler { host: 0 }
    }

    /// Moves to the next host, wrapping from the last client back to the server.
    pub fn cycle(&mut self, client_count: usize)
        requires
            old(self).host < usize::MAX,
            client_count < usize::MAX,
        ensures
            final(self).host == next_host(old(self).host as int, client_count as int),
    {
        self.host = (self.host + 1) % (client_count + 1);
    }

    /// Accounts for the loss of the client at (1-based) position `host`: the
    /// clients after it move down by one, and if it was the current host the
    /// devices go back to the server.
    pub fn eof(&mut self, host: usize)
        ensures
            final(self).host == host_after_close(old(self).host as int, host as int),
    {
        if self.host > host {
            self.host -= 1;
        } else if self.host == host {
            self.host = 0;
        }
    }
}

impl Default for HostCycler {
    fn default() -> (c: HostCycler)
        ensures
            c.host == 0,
    {
        HostCycler::new()
    }
}

} // verus!
