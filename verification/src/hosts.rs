use vstd::prelude::*;
use crate::cycler::{
    HostCycler, next_host, host_after_close, cycled, lemma_cycle_period,
    lemma_cycle_visits_in_turn,
};
use crate::packet::{Packet, PacketView, attach_packet, texts};

verus! {

/// The clients connected to the server, in the order they connected, and
/// which of them (if any) holds the devices.
pub struct Hosts<C> {
    clients: Vec<C>,
    cycler: HostCycler,
}

/// How a swap of the devices starts.
pub enum SwapStart {
    /// No swap: none was asked for, or no client is connected.
    NoSwap,
    /// The server holds the devices: they move on at once.
    Advance,
    /// Send this packet (`Detach`) to the client at this position (0-based)
    /// first, then move the devices on.
    DetachFirst(usize, Packet),
}

/// How a swap starts: none without a request or a client; otherwise the
/// holder, if it is a client, is first told to release the devices.
pub open spec fn swap_start(host: int, client_count: int, requested: bool) -> Option<
    Option<(int, PacketView)>,
> {
    if !(requested && client_count > 0) {
        None
    } else if host > 0 {
        Some(Some((host - 1, PacketView::Detach)))
    } else {
        Some(None)
    }
}

/// How a swap ends: the devices move to the next host, which, if it is a
/// client, is told to attach `busids`.
pub open spec fn swap_finish(host: int, client_count: int, busids: Seq<Seq<char>>) -> Option<
    (int, PacketView),
> {
    let next = next_host(host, client_count);
    if next > 0 {
        Some((next - 1, PacketView::Attach(busids)))
    } else {
        None
    }
}

/// The sends of a swap that no client interrupts, in order: `Detach` to
/// the old holder if it is a client, then `Attach` of `busids` to the new
/// holder if it is a client.
pub open spec fn swap_sends(host: int, client_count: int, busids: Seq<Seq<char>>) -> Seq<(int, PacketView)> {
    let next = next_host(host, client_count);
    (if host > 0 {
        seq![(host - 1, PacketView::Detach)]
    } else {
        Seq::empty()
    }) + (if next > 0 {
        seq![(next - 1, PacketView::Attach(busids))]
    } else {
        Seq::empty()
    })
}

/// The send an optional step makes, as a sequence.
pub open spec fn sent(step: Option<(int, PacketView)>) -> Seq<(int, PacketView)> {
    match step {
        Some(m) => seq![m],
        None => Seq::empty(),
    }
}

impl<C> Hosts<C> {
    /// The connected clients, oldest first.
    pub closed spec fn clients(&self) -> Seq<C> {
        self.clients@
    }

    /// The current host: `0` for the server itself, `k` for `clients()[k - 1]`.
    pub closed spec fn host(&self) -> int {
        self.cycler.host as int
    }

    /// The host always names the server or a connected client.
    pub open spec fn wf(&self) -> bool {
        0 <= self.host() <= self.clients().len()
    }

    #[verifier::type_invariant]
    spec fn host_in_range(&self) -> bool {
        self.cycler.host <= self.clients.len()
    }

    /// No client yet; the server holds the devices.
    pub fn new() -> (h: Self)
        ensures
            h.wf(),
            h.clients() == Seq::<C>::empty(),
            h.host() == 0,
    {
        Hosts { clients: Vec::new(), cycler: HostCycler::new() }
    }

    /// The number of connected clients.
    pub fn len(&self) -> (n: usize)
        ensures
            n == self.clients().len(),
    {
        self.clients.len()
    }

    /// Whether no client is connected.
    pub fn is_empty(&self) -> (r: bool)
        ensures
            r == (self.clients().len() == 0),
    {
        self.clients.len() == 0
    }

    /// The current host (`0` for the server itself).
    pub fn host_index(&self) -> (h: usize)
        ensures
            h == self.host(),
    {
        self.cycler.host
    }

    /// The client at position `index` (0-based).
    pub fn get(&self, index: usize) -> (c: &C)
        requires
            index < self.clients().len(),
        ensures
            *c == self.clients()[index as int],
    {
        &self.clients[index]
    }

    /// The position (0-based) of the client that holds the devices, if a
    /// client does.
    pub fn current(&self) -> (i: Option<usize>)
        ensures
            i == (if self.host() > 0 { Some((self.host() - 1) as usize) } else { None::<usize> }),
            i matches Some(k) ==> k < self.clients().len(),
    {
        proof {
            use_type_invariant(self);
        }
        if self.cycler.host > 0 {
            Some(self.cycler.host - 1)
        } else {
            None
        }
    }

    /// A newly accepted client joins at the end; the host does not change.
    pub fn accept(&mut self, client: C)
        ensures
            final(self).wf(),
            final(self).clients() == old(self).clients().push(client),
            final(self).host() == old(self).host(),
    {
        let (mut clients, cycler) = self.take_parts();
        clients.push(client);
        *self = Hosts { clients, cycler };
    }

    /// Moves the clients and the cycler out, leaving an empty table.
    fn take_parts(&mut self) -> (parts: (Vec<C>, HostCycler))
        ensures
            parts.0@ == old(self).clients(),
            parts.1.host == old(self).host(),
            parts.1.host <= parts.0@.len(),
    {
        proof {
            use_type_invariant(&*self);
        }
        let mut taken = Hosts { clients: Vec::new(), cycler: HostCycler::new() };
        std::mem::swap(self, &mut taken);
        proof {
            use_type_invariant(&taken);
        }
        let Hosts { clients, cycler } = taken;
        (clients, cycler)
    }

    /// Drops the client at (1-based) position `index` and hands it back;
    /// the clients after it move down by one, and if it held the devices
    /// they go back to the server.
    pub fn close(&mut self, index: usize) -> (closed: C)
        requires
            1 <= index <= old(self).clients().len(),
        ensures
            final(self).wf(),
            closed == old(self).clients()[index - 1],
            final(self).clients() == old(self).clients().remove(index - 1),
            final(self).host() == host_after_close(old(self).host(), index as int),
    {
        let (mut clients, mut cycler) = self.take_parts();
        let closed = clients.remove(index - 1);
        cycler.eof(index);
        *self = Hosts { clients, cycler };
        closed
    }

    /// Whether a requested switch goes ahead: only when some client is
    /// connected.
    pub fn should_cycle(&self, requested: bool) -> (r: bool)
        ensures
            r == (requested && self.clients().len() > 0),
    {
        requested && self.clients.len() > 0
    }

    /// Starts a swap of the devices, if one was `requested` and a client is
    /// connected: says whether the holder must first be sent `Detach`.
    pub fn begin_swap(&self, requested: bool) -> (start: SwapStart)
        ensures
            swap_start(self.host(), self.clients().len() as int, requested) == match start {
                SwapStart::NoSwap => None,
                SwapStart::Advance => Some(None),
                SwapStart::DetachFirst(i, p) => Some(Some((i as int, p@))),
            },
            start matches SwapStart::DetachFirst(i, _) ==> i < self.clients().len(),
    {
        proof {
            use_type_invariant(self);
        }
        if !(requested && self.clients.len() > 0) {
            SwapStart::NoSwap
        } else if self.cycler.host > 0 {
            SwapStart::DetachFirst(self.cycler.host - 1, Packet::Detach)
        } else {
            SwapStart::Advance
        }
    }

    /// Ends a swap: the devices move to the next host, and if that is a
    /// client it is to be sent `Attach` with `busids`.
    pub fn finish_swap(&mut self, busids: &Vec<String>) -> (send: Option<(usize, Packet)>)
        requires
            old(self).clients().len() < usize::MAX,
        ensures
            final(self).wf(),
            final(self).clients() == old(self).clients(),
            final(self).host() == next_host(old(self).host(), old(self).clients().len() as int),
            swap_finish(old(self).host(), old(self).clients().len() as int, texts(busids@))
                == match send {
                Some((i, p)) => Some((i as int, p@)),
                None => None::<(int, PacketView)>,
            },
            send matches Some((i, _)) ==> i < final(self).clients().len(),
    {
        match self.advance() {
            Some(i) => Some((i, attach_packet(busids))),
            None => None,
        }
    }

    /// Hands the devices to the next host in turn, and returns the position
    /// (0-based) of the client that now holds them, if a client does.
    pub fn advance(&mut self) -> (next: Option<usize>)
        requires
            old(self).clients().len() < usize::MAX,
        ensures
            final(self).wf(),
            final(self).clients() == old(self).clients(),
            final(self).host() == next_host(old(self).host(), old(self).clients().len() as int),
            next == (if final(self).host() > 0 {
                Some((final(self).host() - 1) as usize)
            } else {
                None::<usize>
            }),
    {
        let (clients, mut cycler) = self.take_parts();
        let n = clients.len();
        cycler.cycle(n);
        *self = Hosts { clients, cycler };
        self.current()
    }
}

/// The client that holds the devices, if one does.
pub open spec fn holder<C>(clients: Seq<C>, host: int) -> Option<C> {
    if 0 < host <= clients.len() {
        Some(clients[host - 1])
    } else {
        None
    }
}

/// Law: a client going away does not move the devices between the others.
/// If another client held them, that same client still does; if the
/// departed client held them, the server gets them back.
pub proof fn lemma_close_keeps_holder<C>(clients: Seq<C>, host: int, index: int)
    requires
        0 <= host <= clients.len(),
        1 <= index <= clients.len(),
    ensures
        host != index ==> holder(clients.remove(index - 1), host_after_close(host, index)) == holder(
            clients,
            host,
        ),
        host == index ==> holder(clients.remove(index - 1), host_after_close(host, index)) is None,
{
}

/// Law: a swap that no client interrupts sends, in this order, `Detach` to
/// the old holder (if a client holds the devices) and then `Attach` of the
/// server's devices to the new holder (if it is a client); without a client
/// connected, a request is dropped and nothing is sent.
pub proof fn lemma_swap_order(host: int, client_count: int, requested: bool, busids: Seq<Seq<char>>)
    requires
        0 <= host <= client_count,
    ensures
        !(requested && client_count > 0) ==> swap_start(host, client_count, requested) is None,
        (requested && client_count > 0) ==> (swap_start(host, client_count, requested) matches Some(
            first,
        ) && sent(first) + sent(swap_finish(host, client_count, busids)) == swap_sends(
            host,
            client_count,
            busids,
        )),
{
    if requested && client_count > 0 {
        let first = swap_start(host, client_count, requested)->0;
        assert(sent(first) + sent(swap_finish(host, client_count, busids)) =~= swap_sends(
            host,
            client_count,
            busids,
        ));
    }
}

/// Law: from the server, with `n >= 1` clients that all stay connected, the
/// `j`-th swap (counting from 0) moves the devices from host `j mod (n + 1)`
/// to host `(j + 1) mod (n + 1)`: server, client 1, ..., client n, server
/// again; each swap sends `Detach` to the old holder before `Attach` to the
/// new one.
pub proof fn lemma_swaps_rotate(client_count: int, j: nat, busids: Seq<Seq<char>>)
    requires
        client_count >= 1,
    ensures
        cycled(0, client_count, j) == (j as int) % (client_count + 1),
        next_host(cycled(0, client_count, j), client_count) == (j + 1) as int % (client_count + 1),
        swap_sends(cycled(0, client_count, j), client_count, busids) == (if (j as int) % (client_count + 1)
            > 0 {
            seq![((j as int) % (client_count + 1) - 1, PacketView::Detach)]
        } else {
            Seq::empty()
        }) + (if (j + 1) as int % (client_count + 1) > 0 {
            seq![((j + 1) as int % (client_count + 1) - 1, PacketView::Attach(busids))]
        } else {
            Seq::empty()
        }),
{
    lemma_cycle_visits_in_turn(0, client_count, j);
    lemma_cycle_visits_in_turn(0, client_count, j + 1);
}

/// Law: with `n` clients connected, `n + 1` switches in a row hand the
/// devices back to whoever held them first, after every client in the
/// connection order has had them once.
pub proof fn lemma_switching_returns<C>(clients: Seq<C>, host: int)
    requires
        0 <= host <= clients.len(),
    ensures
        holder(clients, cycled(host, clients.len() as int, (clients.len() + 1) as nat)) == holder(
            clients,
            host,
        ),
{
    lemma_cycle_period(host, clients.len() as int);
}

} // verus!
