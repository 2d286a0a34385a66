use vstd::prelude::*;
use vstd::string::StringExecFns;
use crate::packet::texts;

verus! {

/// The USB/IP port a client connects to when its configuration names none.
pub const DEFAULT_USBIP_PORT: u16 = 3240;

/// The configuration file written, all commented out, when none exists.
pub const DEFAULT_CONFIG: &'static str = "
# Uncomment if usbip (client) or usbipd (server) aren't in PATH
# usbip_binary = \"/usr/bin/usbip\"
# usbipd_binary = \"/usr/bin/usbipd\"

# Uncomment the following if running as server:
# [server]
# addresses = [\"0.0.0.0\", \"::\"]
# port = 3340
# devices = []

# Add your USB device busid strings to bind/attach above (see `usbipd list`)

# Uncomment the following if running as client:
# [client]
# address = \"192.168.1.x\"
# port = 3340
# usbip_port = 3240

# Alternatively, you can uncomment both sections and force vusb
# to run as either using the \"-s\" or \"-c\" options.
";

/// A flag the command line accepts: its one-letter name, its long name and
/// the line that describes it in the usage text.
pub struct OptionFlag {
    pub short: String,
    pub long: String,
    pub description: String,
}

/// A table of flags as mathematical values.
pub open spec fn flag_table(t: Seq<OptionFlag>) -> Seq<(Seq<char>, Seq<char>, Seq<char>)> {
    t.map_values(|f: OptionFlag| (f.short@, f.long@, f.description@))
}

/// Flags that `getopts` accepts: a one-letter ASCII short name and a long
/// name of at least two characters.
pub open spec fn valid_flags(t: Seq<(Seq<char>, Seq<char>, Seq<char>)>) -> bool {
    forall|i: int|
        0 <= i < t.len() ==> {
            &&& (#[trigger] t[i]).0.len() == 1
            &&& (t[i].0[0] as u32) < 128
            &&& t[i].1.len() >= 2
        }
}

/// Whether each flag of `table` is present on the command line `args`
/// (program name excluded), in table order, or the text of the failure, as
/// `getopts` parses `args` against `Options` made of `optflag(short, long,
/// description)` for each entry.
pub uninterp spec fn getopts_flags_present(
    table: Seq<(Seq<char>, Seq<char>, Seq<char>)>,
    args: Seq<Seq<char>>,
) -> Result<Seq<bool>, Seq<char>>;

/// The usage text `getopts` writes under `brief` for `Options` made of
/// `optflag(short, long, description)` for each entry of `table`.
pub uninterp spec fn getopts_usage_text(table: Seq<(Seq<char>, Seq<char>, Seq<char>)>, brief: Seq<char>) -> Seq<char>;

/// `getopts`: `Options::new`, one `Options::optflag` per table entry,
/// `Options::parse` of `args`, then `Matches::opt_present` of each entry's
/// short name (or `Fail`'s text). The result is named by
/// `getopts_flags_present`; besides, it holds one answer per entry, and an
/// empty command line parses with no flag present.
#[verifier::external_body]
fn getopts_parse(table: &Vec<OptionFlag>, args: &Vec<String>) -> (r: Result<Vec<bool>, String>)
    requires
        valid_flags(flag_table(table@)),
    ensures
        match r {
            Ok(present) => {
                &&& getopts_flags_present(flag_table(table@), texts(args@)) == Ok::<
                    Seq<bool>,
                    Seq<char>,
                >(present@)
                &&& present@.len() == table@.len()
            },
            Err(text) => getopts_flags_present(flag_table(table@), texts(args@)) == Err::<
                Seq<bool>,
                Seq<char>,
            >(text@),
        },
        args@.len() == 0 ==> (r matches Ok(present) && forall|i: int|
            0 <= i < present@.len() ==> !present@[i]),
{
    let mut opts = getopts::Options::new();
    for f in table.iter() {
        opts.optflag(&f.short, &f.long, &f.description);
    }
    match opts.parse(args) {
        Ok(m) => Ok(table.iter().map(|f| m.opt_present(&f.short)).collect()),
        Err(fail) => Err(fail.to_string()),
    }
}

/// `getopts`: `Options::new`, one `Options::optflag` per table entry, then
/// `Options::usage(brief)`. The text is named by `getopts_usage_text`.
#[verifier::external_body]
fn getopts_usage(table: &Vec<OptionFlag>, brief: &str) -> (text: String)
    requires
        valid_flags(flag_table(table@)),
    ensures
        text@ == getopts_usage_text(flag_table(table@), brief@),
{
    let mut opts = getopts::Options::new();
    for f in table.iter() {
        opts.optflag(&f.short, &f.long, &f.description);
    }
    opts.usage(brief)
}

/// The flags of the command line: `-s`/`--server`, `-c`/`--client` and
/// `-h`/`--help` (the first two are both described as "run as client").
pub open spec fn command_line_flags() -> Seq<(Seq<char>, Seq<char>, Seq<char>)> {
    seq![
        ("s"@, "server"@, "run as client"@),
        ("c"@, "client"@, "run as client"@),
        ("h"@, "help"@, "print this help menu"@),
    ]
}

/// Law: the command line takes `-s` as `--server`, `-c` as `--client` and
/// `-h` as `--help`, in that order, and no other flag; the usage text
/// describes the first two as "run as client" and the last as "print this
/// help menu".
pub proof fn lemma_flag_names()
    ensures
        command_line_flags().len() == 3,
        command_line_flags()[0].0 == seq!['s'],
        command_line_flags()[0].1 == seq!['s', 'e', 'r', 'v', 'e', 'r'],
        command_line_flags()[1].0 == seq!['c'],
        command_line_flags()[1].1 == seq!['c', 'l', 'i', 'e', 'n', 't'],
        command_line_flags()[2].0 == seq!['h'],
        command_line_flags()[2].1 == seq!['h', 'e', 'l', 'p'],
        command_line_flags()[0].2 == seq!['r', 'u', 'n', ' ', 'a', 's', ' ', 'c', 'l', 'i', 'e', 'n', 't'],
        command_line_flags()[1].2 == seq!['r', 'u', 'n', ' ', 'a', 's', ' ', 'c', 'l', 'i', 'e', 'n', 't'],
        command_line_flags()[2].2 == seq!['p', 'r', 'i', 'n', 't', ' ', 't', 'h', 'i', 's', ' ', 'h', 'e', 'l', 'p', ' ', 'm', 'e', 'n', 'u'],
{
    reveal_strlit("s");
    reveal_strlit("c");
    reveal_strlit("h");
    reveal_strlit("server");
    reveal_strlit("client");
    reveal_strlit("help");
    reveal_strlit("run as client");
    reveal_strlit("print this help menu");
    assert(command_line_flags()[0].2 =~= seq!['r', 'u', 'n', ' ', 'a', 's', ' ', 'c', 'l', 'i', 'e', 'n', 't']);
    assert(command_line_flags()[2].2 =~= seq!['p', 'r', 'i', 'n', 't', ' ', 't', 'h', 'i', 's', ' ', 'h', 'e', 'l', 'p', ' ', 'm', 'e', 'n', 'u']);
    assert(command_line_flags()[0].1 =~= seq!['s', 'e', 'r', 'v', 'e', 'r']);
    assert(command_line_flags()[1].1 =~= seq!['c', 'l', 'i', 'e', 'n', 't']);
    assert(command_line_flags()[2].1 =~= seq!['h', 'e', 'l', 'p']);
    assert(command_line_flags()[0].0 =~= seq!['s']);
    assert(command_line_flags()[1].0 =~= seq!['c']);
    assert(command_line_flags()[2].0 =~= seq!['h']);
}

fn flag(short: &str, long: &str, description: &str) -> (f: OptionFlag)
    ensures
        f.short@ == short@,
        f.long@ == long@,
        f.description@ == description@,
{
    OptionFlag {
        short: String::from_str(short),
        long: String::from_str(long),
        description: String::from_str(description),
    }
}

/// The table of command-line flags.
pub fn option_flags() -> (t: Vec<OptionFlag>)
    ensures
        flag_table(t@) == command_line_flags(),
        valid_flags(flag_table(t@)),
{
    let mut t: Vec<OptionFlag> = Vec::new();
    t.push(flag("s", "server", "run as client"));
    t.push(flag("c", "client", "run as client"));
    t.push(flag("h", "help", "print this help menu"));
    proof {
        reveal_strlit("s");
        reveal_strlit("c");
        reveal_strlit("h");
        reveal_strlit("server");
        reveal_strlit("client");
        reveal_strlit("help");
        assert(flag_table(t@) =~= command_line_flags());
    }
    t
}

/// The flags given on the command line.
pub struct Flags {
    pub server: bool,
    pub client: bool,
    pub help: bool,
}

/// The flags from the answers of `getopts` for the table of
/// `option_flags`, in its order: server, client, help.
pub fn flags_from(present: &Vec<bool>) -> (flags: Flags)
    requires
        present@.len() == 3,
    ensures
        flags == (Flags { server: present@[0], client: present@[1], help: present@[2] }),
{
    Flags { server: present[0], client: present[1], help: present[2] }
}

/// Reads the command line `args` (program name excluded). The flags are
/// those `getopts` finds; a command line it refuses gives its message.
pub fn parse_flags(args: &Vec<String>) -> (r: Result<Flags, String>)
    ensures
        match getopts_flags_present(command_line_flags(), texts(args@)) {
            Ok(present) => r == Ok::<Flags, String>(
                Flags { server: present[0], client: present[1], help: present[2] },
            ),
            Err(text) => r matches Err(e) && e@ == text,
        },
        args@.len() == 0 ==> r == Ok::<Flags, String>(
            Flags { server: false, client: false, help: false },
        ),
{
    let table = option_flags();
    match getopts_parse(&table, args) {
        Ok(present) => Ok(flags_from(&present)),
        Err(text) => Err(text),
    }
}

/// The usage text for the program named `program`.
pub fn usage_text(program: &str) -> (text: String)
    ensures
        text@ == getopts_usage_text(command_line_flags(), "usage: "@ + program@ + " [options]"@),
{
    let table = option_flags();
    let brief = String::from_str("usage: ").concat(program).concat(" [options]");
    getopts_usage(&table, brief.as_str())
}

/// Whether the usage text is shown instead of running: on `-h`, or when
/// both `-s` and `-c` are given.
pub fn shows_usage(flags: &Flags) -> (r: bool)
    ensures
        r == (flags.help || (flags.server && flags.client)),
{
    flags.help || (flags.server && flags.client)
}

/// Server settings: the addresses and port to listen on and the devices
/// (USB bus ids) to hand out.
pub struct ServerConfig {
    pub addresses: Vec<String>,
    pub port: u16,
    pub devices: Vec<String>,
}

/// Client settings: the server to connect to and, optionally, the port of
/// its USB/IP daemon.
pub struct ClientConfig {
    pub address: String,
    pub port: u16,
    pub usbip_port: Option<u16>,
}

/// The configuration file's contents.
pub struct Config {
    pub usbip_binary: Option<String>,
    pub usbipd_binary: Option<String>,
    pub server: Option<ServerConfig>,
    pub client: Option<ClientConfig>,
}

/// What the program runs as.
pub enum Role {
    Server,
    Client,
    Neither,
}

/// The role: the server when server settings exist and `-c` is not given;
/// otherwise the client when client settings exist and `-s` is not given;
/// otherwise neither.
pub open spec fn chosen_role(flags: Flags, has_server: bool, has_client: bool) -> Role {
    if !flags.client && has_server {
        Role::Server
    } else if !flags.server && has_client {
        Role::Client
    } else {
        Role::Neither
    }
}

/// The role the configuration and the flags call for.
pub fn select_role(flags: &Flags, config: &Config) -> (role: Role)
    ensures
        role == chosen_role(*flags, config.server is Some, config.client is Some),
{
    if !flags.client && config.server.is_some() {
        Role::Server
    } else if !flags.server && config.client.is_some() {
        Role::Client
    } else {
        Role::Neither
    }
}

/// Law: with both server and client settings, `-s` runs the server, `-c`
/// runs the client, and with neither flag the server runs; with settings for
/// one role only, that role runs unless the flag of the other is given.
pub proof fn lemma_flags_force_role(flags: Flags)
    requires
        !flags.help,
        !(flags.server && flags.client),
    ensures
        flags.server ==> chosen_role(flags, true, true) == Role::Server,
        flags.client ==> chosen_role(flags, true, true) == Role::Client,
        (!flags.server && !flags.client) ==> chosen_role(flags, true, true) == Role::Server,
        chosen_role(flags, true, false) == (if flags.client { Role::Neither } else { Role::Server }),
        chosen_role(flags, false, true) == (if flags.server { Role::Neither } else { Role::Client }),
        chosen_role(flags, false, false) == Role::Neither,
{
}

/// The USB/IP port of the server, `3240` unless the client settings name one.
pub fn usbip_port(client: &ClientConfig) -> (port: u16)
    ensures
        port == (match client.usbip_port {
            Some(p) => p,
            None => DEFAULT_USBIP_PORT,
        }),
{
    match client.usbip_port {
        Some(p) => p,
        None => DEFAULT_USBIP_PORT,
    }
}

/// The `usbip` program to run: the configured one, or `usbip` from the path.
pub fn usbip_binary(config: &Config) -> (program: String)
    ensures
        program@ == (match config.usbip_binary {
            Some(p) => p@,
            None => "usbip"@,
        }),
{
    match &config.usbip_binary {
        Some(p) => p.clone(),
        None => String::from_str("usbip"),
    }
}

/// The `usbipd` program to run: the configured one, or `usbipd` from the path.
pub fn usbipd_binary(config: &Config) -> (program: String)
    ensures
        program@ == (match config.usbipd_binary {
            Some(p) => p@,
            None => "usbipd"@,
        }),
{
    match &config.usbipd_binary {
        Some(p) => p.clone(),
        None => String::from_str("usbipd"),
    }
}

} // verus!
