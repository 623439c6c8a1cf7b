//! The status report: daemon state merged with settings, for people and for the
//! bar widget.

use vstd::prelude::*;
use vstd::string::*;

use crate::settings::{opt_text, Settings};
use crate::state::{LiveState, Status};
use crate::text::{decimal, push_decimal, same_text, starts_with};

verus! {

pub const DEFAULT_PORT: u16 = 47921;

/// An address that a client can type in.
#[derive(Debug, Clone, PartialEq, Eq)]
pub struct Address {
    pub interface: String,
    pub ip: String,
}

/// A network interface of the host.
#[derive(Debug, Clone, PartialEq, Eq)]
pub struct Interface {
    pub name: String,
    pub loopback: bool,
    /// Its address, where that is an IPv4 address.
    pub ipv4: Option<String>,
}

#[derive(Debug, Clone, PartialEq, Eq)]
pub struct Report {
    pub running: bool,
    /// `stopped`, `listening`, `sharing`, or `connected`.
    pub status: String,
    pub port: Option<u16>,
    pub addresses: Vec<Address>,
    pub peer: Option<String>,
    pub client: Option<String>,
    pub since: Option<u64>,
    pub unattended: bool,
    pub pin_set: bool,
    pub locked_secs: u64,
    pub last_error: Option<String>,
    pub input_ready: bool,
    pub share_saved: bool,
    pub settings_error: Option<String>,
}

/// The word for the state of the daemon.
pub open spec fn status_word(live: Option<LiveState>) -> Seq<char> {
    match live {
        None => "stopped"@,
        Some(live) => match live.status {
            Status::Listening => "listening"@,
            Status::Sharing => "sharing"@,
            Status::Connected => "connected"@,
        },
    }
}

/// A copy of a text that may be missing.
fn copied(text: &Option<String>) -> (r: Option<String>)
    ensures
        opt_text(r) == opt_text(*text),
{
    match text {
        Some(t) => Some(t.clone()),
        None => None,
    }
}

/// The seconds from `now` until then.
pub open spec fn secs_until(until: Option<u64>, now: u64) -> u64 {
    match until {
        Some(until) if until > now => (until - now) as u64,
        _ => 0,
    }
}

/// Merges the state of a daemon that is alive, if there is one, with the settings,
/// or with why they could not be loaded. The default stands for settings that could
/// not: access is off, and there is no PIN.
pub fn report(
    live: &Option<LiveState>,
    settings: Result<Settings, String>,
    addresses: Vec<Address>,
    share_saved: bool,
    now: u64,
) -> (r: Report)
    ensures
        r.running == live is Some,
        r.status@ == status_word(*live),
        r.addresses == addresses,
        r.share_saved == share_saved,
        match settings {
            Ok(s) => {
                &&& r.unattended == s.unattended
                &&& r.pin_set == (s.pin matches Some(pin) && pin@.len() > 0)
                &&& r.settings_error is None
            },
            Err(text) => {
                &&& !r.unattended
                &&& !r.pin_set
                &&& r.settings_error == Some(text)
            },
        },
        match live {
            Some(l) => {
                &&& r.port == Some(l.port)
                &&& opt_text(r.peer) == opt_text(l.peer)
                &&& opt_text(r.client) == opt_text(l.client)
                &&& r.since == l.since
                &&& r.locked_secs == secs_until(l.locked_until, now)
                &&& opt_text(r.last_error) == opt_text(l.last_error)
                &&& r.input_ready == l.input_ready
            },
            None => {
                &&& r.port is None
                &&& r.peer is None
                &&& r.client is None
                &&& r.since is None
                &&& r.locked_secs == 0
                &&& r.last_error is None
                &&& !r.input_ready
            },
        },
{
    let (settings, settings_error) = match settings {
        Ok(settings) => (settings, None),
        Err(text) => (Settings::default(), Some(text)),
    };
    let pin_set = match &settings.pin {
        Some(pin) => pin.as_str().unicode_len() > 0,
        None => false,
    };
    match live {
        Some(l) => {
            let status = match l.status {
                Status::Listening => "listening",
                Status::Sharing => "sharing",
                Status::Connected => "connected",
            };
            let locked_secs: u64 = match l.locked_until {
                Some(until) => if until > now {
                    until - now
                } else {
                    0
                },
                None => 0,
            };
            Report {
                running: true,
                status: status.to_owned(),
                port: Some(l.port),
                addresses,
                peer: copied(&l.peer),
                client: copied(&l.client),
                since: l.since,
                unattended: settings.unattended,
                pin_set,
                locked_secs,
                last_error: copied(&l.last_error),
                input_ready: l.input_ready,
                share_saved,
                settings_error,
            }
        },
        None => Report {
            running: false,
            status: "stopped".to_owned(),
            port: None,
            addresses,
            peer: None,
            client: None,
            since: None,
            unattended: settings.unattended,
            pin_set,
            locked_secs: 0,
            last_error: None,
            input_ready: false,
            share_saved,
            settings_error,
        },
    }
}

/// Where the system shows a process.
pub fn proc_path(pid: u32) -> (r: String)
    ensures
        r@ == "/proc/"@ + decimal(pid as nat),
{
    let mut out = "/proc/".to_owned();
    push_decimal(&mut out, pid as u64);
    out
}

/// Whether a daemon is alive, for whether the system shows its process.
pub fn pid_alive(pid: u32, shown: bool) -> (r: bool)
    ensures
        r == (pid != 0 && shown),
{
    pid != 0 && shown
}

/// Whether the name is that of a container or VM bridge.
pub open spec fn is_bridge(name: Seq<char>) -> bool {
    ||| "docker"@.is_prefix_of(name)
    ||| "br-"@.is_prefix_of(name)
    ||| "veth"@.is_prefix_of(name)
    ||| "virbr"@.is_prefix_of(name)
    ||| "podman"@.is_prefix_of(name)
}

fn bridge(name: &str) -> (r: bool)
    ensures
        r == is_bridge(name@),
{
    starts_with(name, "docker") || starts_with(name, "br-") || starts_with(name, "veth")
        || starts_with(name, "virbr") || starts_with(name, "podman")
}

/// The name and the IPv4 address of an interface that a LAN client can reach.
pub open spec fn lan_entry(i: Interface) -> Option<(Seq<char>, Seq<char>)> {
    match i.ipv4 {
        Some(ip) if !i.loopback && !is_bridge(i.name@) => Some((i.name@, ip@)),
        _ => None,
    }
}

/// The entries of all interfaces that have one, in order.
pub open spec fn lan_entries(s: Seq<Interface>) -> Seq<(Seq<char>, Seq<char>)>
    decreases s.len(),
{
    if s.len() == 0 {
        seq![]
    } else {
        match lan_entry(s.last()) {
            Some(e) => lan_entries(s.drop_last()).push(e),
            None => lan_entries(s.drop_last()),
        }
    }
}

pub open spec fn address_entries(s: Seq<Address>) -> Seq<(Seq<char>, Seq<char>)> {
    s.map_values(|a: Address| (a.interface@, a.ip@))
}

/// IPv4 addresses a LAN client can type in. Loopback and container and VM bridges
/// are left out; Tailscale and other VPNs stay.
pub fn lan_addresses(interfaces: &Vec<Interface>) -> (r: Vec<Address>)
    ensures
        address_entries(r@) == lan_entries(interfaces@),
{
    let mut out: Vec<Address> = Vec::new();
    assert(address_entries(out@) =~= lan_entries(interfaces@.take(0)));
    for i in 0..interfaces.len()
        invariant
            address_entries(out@) == lan_entries(interfaces@.take(i as int)),
    {
        assert(interfaces@.take(i + 1).drop_last() =~= interfaces@.take(i as int));
        let iface = &interfaces[i];
        if !iface.loopback && !bridge(iface.name.as_str()) {
            if let Some(ip) = &iface.ipv4 {
                let ghost before = out@;
                let address = Address { interface: iface.name.clone(), ip: ip.clone() };
                out.push(address);
                assert(address_entries(out@) =~= address_entries(before).push(
                    (address.interface@, address.ip@),
                ));
            }
        }
    }
    assert(interfaces@.take(interfaces@.len() as int) =~= interfaces@);
    out
}

pub open spec fn or_text(text: Option<String>, other: Seq<char>) -> Seq<char> {
    match text {
        Some(t) => t@,
        None => other,
    }
}

impl Report {
    /// The line on the daemon.
    pub open spec fn headline(self) -> Seq<char> {
        if self.status@ == "stopped"@ {
            "Omarchy Connect is not running\n"@
        } else if self.status@ == "listening"@ {
            "Omarchy Connect is waiting for a connection\n"@
        } else if self.status@ == "sharing"@ {
            or_text(self.peer, "A client"@) + " is connecting; waiting for the share picker\n"@
        } else {
            "Connected: "@ + or_text(self.peer, "?"@) + " ("@ + or_text(self.client, "client"@)
                + ")\n"@
        }
    }

    pub open spec fn shown_port(self) -> u16 {
        match self.port {
            Some(p) => p,
            None => DEFAULT_PORT,
        }
    }

    /// The word for unattended access.
    pub open spec fn access(self) -> Seq<char> {
        if !self.unattended {
            "off"@
        } else if self.pin_set {
            "on"@
        } else {
            "on, but no PIN is set"@
        }
    }

    pub open spec fn locked_line(self) -> Seq<char> {
        if self.locked_secs > 0 {
            "Locked for "@ + decimal(self.locked_secs as nat) + " s after wrong PINs\n"@
        } else {
            seq![]
        }
    }

    pub open spec fn input_line(self) -> Seq<char> {
        if self.running && !self.input_ready {
            "Input: /dev/uinput is not writable; remote keyboard and mouse are off\n"@
        } else {
            seq![]
        }
    }

    /// What [`Report::text`] returns.
    pub open spec fn text_spec(self) -> Seq<char> {
        self.headline() + address_lines(self.addresses@, self.shown_port())
            + "Unattended access: "@ + self.access() + "\n"@ + self.locked_line()
            + self.input_line() + error_line("Last session: "@, self.last_error) + error_line(
            "Settings: "@,
            self.settings_error,
        )
    }

    /// The report for people, one fact on each line.
    pub fn text(&self) -> (r: String)
        ensures
            r@ == self.text_spec(),
    {
        let mut out = String::new();
        self.push_headline(&mut out);
        assert(out@ =~= self.headline());
        let port: u16 = match self.port {
            Some(p) => p,
            None => DEFAULT_PORT,
        };
        push_addresses(&mut out, &self.addresses, port);
        out.append("Unattended access: ");
        let access = if !self.unattended {
            "off"
        } else if self.pin_set {
            "on"
        } else {
            "on, but no PIN is set"
        };
        out.append(access);
        out.append("\n");
        let ghost before = out@;
        if self.locked_secs > 0 {
            out.append("Locked for ");
            push_decimal(&mut out, self.locked_secs);
            out.append(" s after wrong PINs\n");
        }
        assert(out@ =~= before + self.locked_line());
        let ghost before = out@;
        if self.running && !self.input_ready {
            out.append("Input: /dev/uinput is not writable; remote keyboard and mouse are off\n");
        }
        assert(out@ =~= before + self.input_line());
        push_error(&mut out, "Last session: ", &self.last_error);
        push_error(&mut out, "Settings: ", &self.settings_error);
        out
    }

    fn push_headline(&self, out: &mut String)
        ensures
            final(out)@ == old(out)@ + self.headline(),
    {
        let status = self.status.as_str();
        if same_text(status, "stopped") {
            out.append("Omarchy Connect is not running\n");
        } else if same_text(status, "listening") {
            out.append("Omarchy Connect is waiting for a connection\n");
        } else if same_text(status, "sharing") {
            push_or(out, &self.peer, "A client");
            out.append(" is connecting; waiting for the share picker\n");
        } else {
            out.append("Connected: ");
            push_or(out, &self.peer, "?");
            out.append(" (");
            push_or(out, &self.client, "client");
            out.append(")\n");
        }
        assert(out@ =~= old(out)@ + self.headline());
    }
}

/// One line for each address.
pub open spec fn address_lines(s: Seq<Address>, port: u16) -> Seq<char>
    decreases s.len(),
{
    if s.len() == 0 {
        seq![]
    } else {
        let a = s.last();
        address_lines(s.drop_last(), port) + "  address "@ + a.ip@ + ":"@ + decimal(port as nat)
            + " ("@ + a.interface@ + ")\n"@
    }
}

/// A line on an error, where there is one.
pub open spec fn error_line(head: Seq<char>, error: Option<String>) -> Seq<char> {
    match error {
        Some(e) => head + e@ + "\n"@,
        None => seq![],
    }
}

fn push_or(out: &mut String, text: &Option<String>, other: &str)
    ensures
        final(out)@ == old(out)@ + or_text(*text, other@),
{
    match text {
        Some(t) => out.append(t.as_str()),
        None => out.append(other),
    }
}

fn push_addresses(out: &mut String, addresses: &Vec<Address>, port: u16)
    ensures
        final(out)@ == old(out)@ + address_lines(addresses@, port),
{
    assert(out@ =~= old(out)@ + address_lines(addresses@.take(0), port));
    for i in 0..addresses.len()
        invariant
            out@ == old(out)@ + address_lines(addresses@.take(i as int), port),
    {
        assert(addresses@.take(i + 1).drop_last() =~= addresses@.take(i as int));
        let a = &addresses[i];
        out.append("  address ");
        out.append(a.ip.as_str());
        out.append(":");
        push_decimal(out, port as u64);
        out.append(" (");
        out.append(a.interface.as_str());
        out.append(")\n");
        assert(out@ =~= old(out)@ + address_lines(addresses@.take(i + 1), port));
    }
    assert(addresses@.take(addresses@.len() as int) =~= addresses@);
}

fn push_error(out: &mut String, head: &str, error: &Option<String>)
    ensures
        final(out)@ == old(out)@ + error_line(head@, *error),
{
    if let Some(e) = error {
        out.append(head);
        out.append(e.as_str());
        out.append("\n");
    }
    assert(out@ =~= old(out)@ + error_line(head@, *error));
}

/// The names of bridges start with one of five words.
pub proof fn bridges_by_name(name: Seq<char>)
    ensures
        is_bridge(name) <==> {
            ||| seq!['d', 'o', 'c', 'k', 'e', 'r'].is_prefix_of(name)
            ||| seq!['b', 'r', '-'].is_prefix_of(name)
            ||| seq!['v', 'e', 't', 'h'].is_prefix_of(name)
            ||| seq!['v', 'i', 'r', 'b', 'r'].is_prefix_of(name)
            ||| seq!['p', 'o', 'd', 'm', 'a', 'n'].is_prefix_of(name)
        },
{
    reveal_strlit("docker");
    reveal_strlit("br-");
    reveal_strlit("veth");
    reveal_strlit("virbr");
    reveal_strlit("podman");
    assert("docker"@ =~= seq!['d', 'o', 'c', 'k', 'e', 'r']);
    assert("br-"@ =~= seq!['b', 'r', '-']);
    assert("veth"@ =~= seq!['v', 'e', 't', 'h']);
    assert("virbr"@ =~= seq!['v', 'i', 'r', 'b', 'r']);
    assert("podman"@ =~= seq!['p', 'o', 'd', 'm', 'a', 'n']);
}

/// Each interface is listed on its own, with its name and address: all but loopback, the
/// bridges and those without an address.
pub proof fn interfaces_are_listed_one_by_one(a: Seq<Interface>, b: Seq<Interface>, i: Interface)
    ensures
        lan_entries(a + b) == lan_entries(a) + lan_entries(b),
        i.loopback || i.ipv4 is None || is_bridge(i.name@) ==> lan_entries(seq![i]).len() == 0,
        !i.loopback && !is_bridge(i.name@) ==> (i.ipv4 matches Some(ip) ==> lan_entries(seq![i])
            == seq![(i.name@, ip@)]),
    decreases b.len(),
{
    reveal_with_fuel(lan_entries, 2);
    assert(seq![i].drop_last() =~= Seq::<Interface>::empty());
    if b.len() > 0 {
        interfaces_are_listed_one_by_one(a, b.drop_last(), i);
        assert((a + b).drop_last() =~= a + b.drop_last());
        assert((a + b).last() == b.last());
    } else {
        assert(a + b =~= a);
    }
    assert(lan_entries(a + b) =~= lan_entries(a) + lan_entries(b));
}

/// The seconds that are left, and none once the time has come.
pub proof fn seconds_left(until: u64, now: u64)
    ensures
        secs_until(Some(until), now) + now == until || (until <= now && secs_until(
            Some(until),
            now,
        ) == 0),
        secs_until(None, now) == 0,
{
}

/// Each address has a line of its own, which a client can type in: the address, the port
/// and the interface. A host that does not run would be at port 47921.
pub proof fn addresses_have_lines(r: Report, a: Seq<Address>, b: Seq<Address>, one: Address, port: u16)
    ensures
        address_lines(a + b, port) == address_lines(a, port) + address_lines(b, port),
        address_lines(seq![one], port) == "  address "@ + one.ip@ + ":"@ + decimal(port as nat)
            + " ("@ + one.interface@ + ")\n"@,
        r.port is None ==> r.shown_port() == 47921,
        r.port matches Some(p) ==> r.shown_port() == p,
    decreases b.len(),
{
    reveal_with_fuel(address_lines, 2);
    assert(seq![one].drop_last() =~= Seq::<Address>::empty());
    assert(address_lines(seq![one], port) =~= "  address "@ + one.ip@ + ":"@ + decimal(port as nat)
        + " ("@ + one.interface@ + ")\n"@);
    if b.len() > 0 {
        addresses_have_lines(r, a, b.drop_last(), one, port);
        assert((a + b).drop_last() =~= a + b.drop_last());
        assert((a + b).last() == b.last());
        assert(address_lines(a + b, port) =~= address_lines(a, port) + address_lines(b, port));
    } else {
        assert(a + b =~= a);
        assert(address_lines(a, port) + Seq::<char>::empty() =~= address_lines(a, port));
    }
}

/// What is said of a host, from its state: that it does not run, that it waits, who is
/// connecting, or who is connected and with what.
pub proof fn states_in_words(r: Report, live: Option<LiveState>)
    requires
        r.status@ == status_word(live),
    ensures
        live is None ==> r.headline() == "Omarchy Connect is not running\n"@,
        (live matches Some(l) && l.status == Status::Listening) ==> r.headline()
            == "Omarchy Connect is waiting for a connection\n"@,
        (live matches Some(l) && l.status == Status::Sharing) ==> r.headline() == (match r.peer {
            Some(peer) => peer@,
            None => "A client"@,
        }) + " is connecting; waiting for the share picker\n"@,
        (live matches Some(l) && l.status == Status::Connected) ==> r.headline() == "Connected: "@ + (
        match r.peer {
            Some(peer) => peer@,
            None => "?"@,
        }) + " ("@ + (match r.client {
            Some(client) => client@,
            None => "client"@,
        }) + ")\n"@,
{
    reveal_strlit("stopped");
    reveal_strlit("listening");
    reveal_strlit("sharing");
    reveal_strlit("connected");
    assert("stopped"@[1] == 't');
    assert("listening"@[1] == 'i');
    assert("sharing"@[1] == 'h');
    assert("connected"@[1] == 'o');
}

/// What is said of access: whether it is on, and that it needs a PIN.
pub proof fn access_in_words(r: Report)
    ensures
        r.access() == "off"@ <== !r.unattended,
        r.access() == "on"@ <== r.unattended && r.pin_set,
        r.access() == "on, but no PIN is set"@ <== r.unattended && !r.pin_set,
        r.locked_secs == 0 ==> r.locked_line().len() == 0,
        r.locked_secs > 0 ==> r.locked_line() == "Locked for "@ + decimal(r.locked_secs as nat)
            + " s after wrong PINs\n"@,
        r.input_line().len() > 0 ==> r.running && !r.input_ready,
        r.running && !r.input_ready ==> r.input_line()
            == "Input: /dev/uinput is not writable; remote keyboard and mouse are off\n"@,
{
}

/// The parts of a report stand in one order: the state, the addresses, the access, the
/// lock, the input, and the errors. A report without a lock, an input fault and errors
/// ends with the access.
pub proof fn reports_have_an_order(r: Report)
    ensures
        ({
            let start = r.headline() + address_lines(r.addresses@, r.shown_port())
                + "Unattended access: "@ + r.access() + "\n"@;
            &&& start.is_prefix_of(r.text_spec())
            &&& r.locked_secs == 0 && r.input_ready && r.last_error is None
                && r.settings_error is None ==> r.text_spec() == start
            &&& r.last_error is Some && r.settings_error is None ==> r.text_spec() == start
                + r.locked_line() + r.input_line() + ("Last session: "@ + r.last_error->0@ + "\n"@)
            &&& r.settings_error is Some && r.last_error is None ==> r.text_spec() == start
                + r.locked_line() + r.input_line() + ("Settings: "@ + r.settings_error->0@ + "\n"@)
        }),
{
    let start = r.headline() + address_lines(r.addresses@, r.shown_port()) + "Unattended access: "@
        + r.access() + "\n"@;
    let all = r.text_spec();
    assert(all.subrange(0, start.len() as int) =~= start);
    if r.locked_secs == 0 && r.input_ready && r.last_error is None && r.settings_error is None {
        assert(all =~= start);
    }
    if r.last_error is Some && r.settings_error is None {
        assert(all =~= start + r.locked_line() + r.input_line() + ("Last session: "@
            + r.last_error->0@ + "\n"@));
    }
    if r.settings_error is Some && r.last_error is None {
        assert(all =~= start + r.locked_line() + r.input_line() + ("Settings: "@
            + r.settings_error->0@ + "\n"@));
    }
}

/// The word for each state of a host.
pub proof fn states_have_words(live: LiveState)
    ensures
        status_word(None) == "stopped"@,
        live.status == Status::Listening ==> status_word(Some(live)) == "listening"@,
        live.status == Status::Sharing ==> status_word(Some(live)) == "sharing"@,
        live.status == Status::Connected ==> status_word(Some(live)) == "connected"@,
{
}

} // verus!
