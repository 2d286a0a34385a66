use vstd::prelude::*;

verus! {

/// Something that happened on this machine: the key chord was completed.
pub enum Event {
    Activated,
}

/// A message between server and client.
pub enum Packet {
    /// The client's user completed the key chord.
    Activated,
    /// The client is to attach these devices (USB bus ids) of the server.
    Attach { busids: Vec<String> },
    /// The client is to release every device it attached.
    Detach,
}

/// A packet as a mathematical value.
pub enum PacketView {
    Activated,
    Attach(Seq<Seq<char>>),
    Detach,
}

/// The texts of a list of strings.
pub open spec fn texts(v: Seq<String>) -> Seq<Seq<char>> {
    v.map_values(|s: String| s@)
}

impl View for Packet {
    type V = PacketView;

    open spec fn view(&self) -> PacketView {
        match self {
            Packet::Activated => PacketView::Activated,
            Packet::Attach { busids } => PacketView::Attach(texts(busids@)),
            Packet::Detach => PacketView::Detach,
        }
    }
}

/// What a client does on a packet from the server.
pub enum ClientAction {
    /// Attach these devices of the server.
    Attach(Vec<String>),
    /// Release every attached device.
    Detach,
    /// Nothing.
    Ignore,
}

/// Copies a list of strings.
pub fn copy_strings(v: &Vec<String>) -> (r: Vec<String>)
    ensures
        texts(r@) == texts(v@),
{
    let mut r: Vec<String> = Vec::new();
    let mut i: usize = 0;
    while i < v.len()
        invariant
            i <= v.len(),
            r@.len() == i,
            texts(r@) == texts(v@.take(i as int)),
        decreases v.len() - i,
    {
        let ghost before = r@;
        let s = v[i].clone();
        r.push(s);
        proof {
            let done = v@.take(i + 1);
            assert forall|j: int| 0 <= j < r@.len() implies #[trigger] texts(r@)[j] == texts(done)[j] by {
                if j < i {
                    assert(texts(before)[j] == texts(v@.take(i as int))[j]);
                    assert(r@[j] == before[j]);
                    assert(done[j] == v@.take(i as int)[j]);
                } else {
                    assert(r@[j] == v@[j]);
                }
            }
            assert(texts(r@) =~= texts(done));
        }
        i += 1;
    }
    assert(v@.take(v.len() as int) =~= v@);
    r
}

/// The packet a client sends to the server for an event on its machine.
pub fn event_packet(event: Event) -> (p: Packet)
    ensures
        p@ == PacketView::Activated,
{
    match event {
        Event::Activated => Packet::Activated,
    }
}

/// The packet that hands the devices `busids` to a client.
pub fn attach_packet(busids: &Vec<String>) -> (p: Packet)
    ensures
        p@ == PacketView::Attach(texts(busids@)),
{
    Packet::Attach { busids: copy_strings(busids) }
}

/// Whether a packet from the client that holds the devices asks the server
/// to hand them on: only an `Activated` packet does.
pub fn requests_cycle(packet: &Packet) -> (r: bool)
    ensures
        r == (packet@ is Activated),
{
    match packet {
        Packet::Activated => true,
        _ => false,
    }
}

/// What a client does on a packet from the server: attach the devices it
/// names, release its devices, or nothing (an `Activated` packet is only
/// ever sent to the server).
pub fn client_action(packet: Packet) -> (a: ClientAction)
    ensures
        match (packet@, a) {
            (PacketView::Attach(ids), ClientAction::Attach(busids)) => texts(busids@) == ids,
            (PacketView::Detach, ClientAction::Detach) => true,
            (PacketView::Activated, ClientAction::Ignore) => true,
            _ => false,
        },
{
    match packet {
        Packet::Attach { busids } => ClientAction::Attach(busids),
        Packet::Detach => ClientAction::Detach,
        Packet::Activated => ClientAction::Ignore,
    }
}

} // verus!
