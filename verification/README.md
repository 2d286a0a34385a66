# vusb

Hands USB peripherals between machines over USB/IP: pressing both control
keys on any machine moves the configured devices to the next machine in turn.

The verified library lives in `src/`:

- `cycler.rs`: which machine holds the devices, and how it moves on when the
  chord is pressed or a client disconnects;
- `hosts.rs`: the server's list of connected clients together with the holder;
- `frame.rs`: the length-prefixed framing of packets on the wire;
- `packet.rs`: the packets and what server and client do on each;
- `keys.rs`: the key-chord detector fed by the keyboard hook or input devices;
- `text.rs` and `usbip.rs`: the command lines given to `usbip`/`usbipd` and the
  reading of `usbip port` output;
- `cli.rs`: command-line flags (through `getopts`), the configuration and the
  choice of role.

`app/` holds the program around it: sockets, processes, input devices, the
Windows keyboard hook, the configuration file and the wire encoding of packets.
