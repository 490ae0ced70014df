//! Routing and DNS for the embedded tunnel.
//!
//! Two things have to be true for a full tunnel to work, and the second is the
//! one that is easy to miss:
//!
//!   * everything must leave through the tunnel interface, and
//!   * the encrypted packets themselves must not, or they would be routed into
//!     the tunnel that is carrying them and nothing would move at all.
//!
//! So a host route pins the relay to the physical gateway, and the default is
//! taken over by two halves, `0.0.0.0/1` and `128.0.0.0/1`. They beat the
//! existing default without deleting it, which means reverting is only ever
//! removing what was added: if this process dies without reverting, the old
//! default is still sitting there once the interface disappears.
//!
//! Everything here drives the tools that ship with the operating system.
use crate::text;
use crate::tunnel::address::parse_v4;
use crate::tunnel::command;
use crate::tunnel::command::{Command, Line};
use vstd::prelude::*;
use vstd::string::*;

verus! {

/// A command, what takes it back, and whether the tunnel can do without it.
pub struct Step {
    pub command: Command,
    /// What takes back what the command did.
    pub undo: Command,
    /// Whether its failure ends the attempt. Any other is ignored.
    pub required: bool,
}

/// What a step is, apart from how it is held.
#[verifier::ext_equal]
pub struct Move {
    pub line: Line,
    pub undo: Line,
    pub required: bool,
}

impl View for Step {
    type V = Move;

    open spec fn view(&self) -> Move {
        Move { line: self.command@, undo: self.undo@, required: self.required }
    }
}

/// The steps behind a list.
pub open spec fn moves(v: Seq<Step>) -> Seq<Move> {
    Seq::new(v.len(), |i: int| v[i]@)
}

/// The commands of some steps.
pub open spec fn lines_in(v: Seq<Move>) -> Seq<Line> {
    Seq::new(v.len(), |i: int| v[i].line)
}

/// A step that cannot be done without.
pub open spec fn must(program: Seq<char>, args: Seq<Seq<char>>, back: Seq<Seq<char>>) -> Move {
    Move { line: line(program, args), undo: line(program, back), required: true }
}

/// A step whose failure is ignored.
pub open spec fn may(program: Seq<char>, args: Seq<Seq<char>>, back: Seq<Seq<char>>) -> Move {
    Move { line: line(program, args), undo: line(program, back), required: false }
}

pub open spec fn line(program: Seq<char>, args: Seq<Seq<char>>) -> Line {
    Line { program, args }
}

/// The first half of the default route.
pub const LOWER: &'static str = "0.0.0.0/1";

/// The second half of the default route.
pub const UPPER: &'static str = "128.0.0.0/1";

/// The two halves, for IPv6.
pub const LOWER6: &'static str = "::/1";

pub const UPPER6: &'static str = "8000::/1";

fn add_step(steps: &mut Vec<Step>, required: bool, program: &str, args: &[&str], back: &[&str])
    ensures
        moves(final(steps)@) == moves(old(steps)@).push(
            (Move {
                line: line(program@, command::slices(args@)),
                undo: line(program@, command::slices(back@)),
                required,
            }),
        ),
{
    steps.push(
        Step { command: Command::new(program, args), undo: Command::new(program, back), required },
    );
    assert(moves(steps@) =~= moves(old(steps)@).push(
        Move {
            line: line(program@, command::slices(args@)),
            undo: line(program@, command::slices(back@)),
            required,
        },
    ));
}

fn glue(a: &str, b: &str) -> (r: String)
    ensures
        r@ == a@ + b@,
{
    let mut r = a.to_owned();
    r.append(b);
    r
}

// Running the steps

/// What to do once a step has been run.
#[derive(Clone, Copy, PartialEq, Eq, Structural, Debug)]
pub enum Onward {
    /// Run the next one.
    Next,
    /// That was the last.
    Done,
    /// Take back those that succeeded: the attempt is over.
    TakeBack,
}

/// What to do once the step at `at` has been run: the attempt is over when one
/// that cannot be done without has failed, and any other failure is ignored.
pub fn after_step(steps: &Vec<Step>, at: usize, succeeded: bool) -> (r: Onward)
    requires
        at < steps@.len(),
    ensures
        r == (if !succeeded && steps@[at as int].required {
            Onward::TakeBack
        } else if at + 1 < steps@.len() {
            Onward::Next
        } else {
            Onward::Done
        }),
{
    if !succeeded && steps[at].required {
        Onward::TakeBack
    } else if at < steps.len() - 1 {
        Onward::Next
    } else {
        Onward::Done
    }
}

/// What takes back the steps that succeeded, in the order they were run. `took`
/// says of each whether it did; one that was not run did not.
pub open spec fn undone(steps: Seq<Move>, took: Seq<bool>) -> Seq<Line>
    decreases steps.len(),
{
    if steps.len() == 0 {
        Seq::empty()
    } else if steps.len() <= took.len() && took[steps.len() - 1] {
        undone(steps.drop_last(), took).push(steps.last().undo)
    } else {
        undone(steps.drop_last(), took)
    }
}

/// The commands that take back the steps that succeeded, and no others: reverting
/// is only ever removing what was added. The failure of any is ignored.
pub fn revert(steps: &Vec<Step>, took: &Vec<bool>) -> (r: Vec<Command>)
    ensures
        command::lines(r@) == undone(moves(steps@), took@),
{
    let ghost all = moves(steps@);
    let mut r: Vec<Command> = Vec::new();
    let mut i: usize = 0;
    assert(all.take(0) =~= Seq::empty());
    assert(command::lines(r@) =~= undone(all.take(0), took@));
    while i < steps.len()
        invariant
            i <= steps@.len(),
            all == moves(steps@),
            command::lines(r@) == undone(all.take(i as int), took@),
        decreases steps@.len() - i,
    {
        assert(all.take(i as int + 1).drop_last() =~= all.take(i as int));
        assert(all.take(i as int + 1).last() == steps@[i as int]@);
        if i < took.len() && took[i] {
            let ghost before = r@;
            r.push(steps[i].undo.copy());
            assert(command::lines(r@) =~= command::lines(before).push(steps@[i as int].undo@));
        }
        i += 1;
    }
    assert(all.take(i as int) =~= all);
    r
}

// Linux

/// The value after the first field that is `key`.
pub open spec fn value_after(fields: Seq<Seq<char>>, key: Seq<char>) -> Option<Seq<char>>
    decreases fields.len(),
{
    if fields.len() == 0 {
        None
    } else if fields[0] == key {
        if fields.len() > 1 {
            Some(fields[1])
        } else {
            None
        }
    } else {
        value_after(fields.drop_first(), key)
    }
}

/// The value after the first field that is `key`.
pub fn field_after(fields: &[&str], key: &str) -> (r: Option<String>)
    ensures
        text::maybe(r) == value_after(command::slices(fields@), key@),
{
    let ghost all = command::slices(fields@);
    let n: usize = fields.len();
    let mut i: usize = 0;
    assert(all.skip(0) =~= all);
    while i < n
        invariant
            i <= n == fields@.len(),
            all == command::slices(fields@),
            value_after(all, key@) == value_after(all.skip(i as int), key@),
        decreases n - i,
    {
        assert(all.skip(i as int)[0] == fields@[i as int]@);
        assert(all.skip(i as int).drop_first() =~= all.skip(i as int + 1));
        if text::same(fields[i], key) {
            if i + 1 < n {
                assert(all.skip(i as int)[1] == fields@[i + 1]@);
                return Some(fields[i + 1].to_owned());
            }
            return None;
        }
        i += 1;
    }
    None
}

/// The question `ip` answers with the gateway and the interface the kernel would
/// use, which is exactly the pair the relay has to keep using.
pub fn linux_route_query(endpoint: &str) -> (r: Command)
    ensures
        r@ == line("ip"@, seq!["route"@, "get"@, endpoint@]),
{
    let r = Command::new("ip", &["route", "get", endpoint]);
    assert(r@.args =~= seq!["route"@, "get"@, endpoint@]);
    r
}

/// The gateway and the interface in an answer of `ip route get`. A direct route
/// has no gateway.
pub open spec fn hop_in(answer: Seq<char>) -> Option<(Seq<char>, Seq<char>)> {
    let fields = text::words_of(answer);
    match (value_after(fields, "via"@), value_after(fields, "dev"@)) {
        (Some(gateway), Some(interface)) => Some((gateway, interface)),
        _ => None,
    }
}

/// The gateway and the interface in an answer of `ip route get`.
pub fn linux_route_to(answer: &str) -> (r: Option<(String, String)>)
    ensures
        text::pair_texts(r) == hop_in(answer@),
{
    let words = text::split_whitespace(answer);
    let mut fields: Vec<&str> = Vec::new();
    let mut i: usize = 0;
    while i < words.len()
        invariant
            i <= words@.len(),
            fields@.len() == i,
            forall|j: int| 0 <= j < i ==> (#[trigger] fields@[j])@ == words@[j]@,
        decreases words@.len() - i,
    {
        fields.push(words[i].as_str());
        i += 1;
    }
    assert(command::slices(fields@) =~= text::texts(words@));
    let gateway = field_after(fields.as_slice(), "via");
    let interface = field_after(fields.as_slice(), "dev");
    match (gateway, interface) {
        (Some(gateway), Some(interface)) => Some((gateway, interface)),
        _ => None,
    }
}

/// Whether an address is an IPv6 one, by how it is written.
pub open spec fn is_v6(endpoint: Seq<char>) -> bool {
    endpoint.contains(':')
}

/// The destination that is one address alone.
pub open spec fn host_route(endpoint: Seq<char>) -> Seq<char> {
    if is_v6(endpoint) {
        endpoint + "/128"@
    } else {
        endpoint + "/32"@
    }
}

fn host(endpoint: &str) -> (r: String)
    ensures
        r@ == host_route(endpoint@),
{
    if text::has(endpoint, ':') {
        glue(endpoint, "/128")
    } else {
        glue(endpoint, "/32")
    }
}

/// What brings the routes in on Linux. The relay comes first.
pub open spec fn linux_applied(
    name: Seq<char>,
    endpoint: Seq<char>,
    hop: Option<(Seq<char>, Seq<char>)>,
) -> Seq<Move> {
    (match hop {
        Some((gateway, interface)) => seq![
            may(
                "ip"@,
                seq!["route"@, "add"@, host_route(endpoint), "via"@, gateway, "dev"@, interface],
                seq!["route"@, "del"@, host_route(endpoint)],
            ),
        ],
        None => Seq::empty(),
    }) + seq![
        must(
            "ip"@,
            seq!["route"@, "add"@, LOWER@, "dev"@, name],
            seq!["route"@, "del"@, LOWER@, "dev"@, name],
        ),
        must(
            "ip"@,
            seq!["route"@, "add"@, UPPER@, "dev"@, name],
            seq!["route"@, "del"@, UPPER@, "dev"@, name],
        ),
        may(
            "ip"@,
            seq!["-6"@, "route"@, "add"@, LOWER6@, "dev"@, name],
            seq!["-6"@, "route"@, "del"@, LOWER6@, "dev"@, name],
        ),
        may(
            "ip"@,
            seq!["-6"@, "route"@, "add"@, UPPER6@, "dev"@, name],
            seq!["-6"@, "route"@, "del"@, UPPER6@, "dev"@, name],
        ),
    ]
}

/// Half of the default route into the tunnel on Linux.
fn linux_half(steps: &mut Vec<Step>, half: &str, name: &str)
    ensures
        moves(final(steps)@) == moves(old(steps)@).push(
            must(
                "ip"@,
                seq!["route"@, "add"@, half@, "dev"@, name@],
                seq!["route"@, "del"@, half@, "dev"@, name@],
            ),
        ),
{
    let args = ["route", "add", half, "dev", name];
    let back = ["route", "del", half, "dev", name];
    assert(command::slices(args@) =~= seq!["route"@, "add"@, half@, "dev"@, name@]);
    assert(command::slices(back@) =~= seq!["route"@, "del"@, half@, "dev"@, name@]);
    add_step(steps, true, "ip", &args, &back);
}

/// Half of the default IPv6 route into the tunnel on Linux, where there is any.
fn linux_half6(steps: &mut Vec<Step>, half: &str, name: &str)
    ensures
        moves(final(steps)@) == moves(old(steps)@).push(
            may(
                "ip"@,
                seq!["-6"@, "route"@, "add"@, half@, "dev"@, name@],
                seq!["-6"@, "route"@, "del"@, half@, "dev"@, name@],
            ),
        ),
{
    let args = ["-6", "route", "add", half, "dev", name];
    let back = ["-6", "route", "del", half, "dev", name];
    assert(command::slices(args@) =~= seq!["-6"@, "route"@, "add"@, half@, "dev"@, name@]);
    assert(command::slices(back@) =~= seq!["-6"@, "route"@, "del"@, half@, "dev"@, name@]);
    add_step(steps, false, "ip", &args, &back);
}

/// The steps that bring the routes in on Linux, given how the relay is reached
/// now. IPv6 is taken too where there is any.
pub fn linux_apply(name: &str, endpoint: &str, hop: &Option<(String, String)>) -> (r: Vec<Step>)
    ensures
        moves(r@) == linux_applied(name@, endpoint@, text::pair_texts(*hop)),
{
    let mut r: Vec<Step> = Vec::new();
    assert(moves(r@) =~= Seq::empty());
    if let Some((gateway, interface)) = hop {
        let host = host(endpoint);
        let args = [
            "route",
            "add",
            host.as_str(),
            "via",
            gateway.as_str(),
            "dev",
            interface.as_str(),
        ];
        let back = ["route", "del", host.as_str()];
        assert(command::slices(args@) =~= seq![
            "route"@,
            "add"@,
            host@,
            "via"@,
            gateway@,
            "dev"@,
            interface@,
        ]);
        assert(command::slices(back@) =~= seq!["route"@, "del"@, host@]);
        add_step(&mut r, false, "ip", &args, &back);
    }
    linux_half(&mut r, LOWER, name);
    linux_half(&mut r, UPPER, name);
    linux_half6(&mut r, LOWER6, name);
    linux_half6(&mut r, UPPER6, name);
    assert(moves(r@) =~= linux_applied(name@, endpoint@, text::pair_texts(*hop)));
    r
}

/// The body of a resolver configuration that names these servers.
pub open spec fn resolver_lines(dns: Seq<Seq<char>>) -> Seq<char>
    decreases dns.len(),
{
    if dns.len() == 0 {
        Seq::empty()
    } else {
        resolver_lines(dns.drop_last()) + ("nameserver "@ + dns.last() + "\n"@)
    }
}

/// The resolver configuration to write, or nothing when there are no servers to
/// name: the one in place is then left alone.
pub fn resolv_conf(dns: &Vec<String>) -> (r: Option<String>)
    ensures
        text::maybe(r) == (if dns@.len() == 0 {
            None
        } else {
            Some(resolver_lines(text::texts(dns@)))
        }),
{
    if dns.len() == 0 {
        return None;
    }
    let ghost all = text::texts(dns@);
    let mut body = String::new();
    let mut i: usize = 0;
    assert(all.take(0) =~= Seq::empty());
    while i < dns.len()
        invariant
            i <= dns@.len(),
            all == text::texts(dns@),
            body@ == resolver_lines(all.take(i as int)),
        decreases dns@.len() - i,
    {
        assert(all.take(i as int + 1).drop_last() =~= all.take(i as int));
        assert(all.take(i as int + 1).last() == dns@[i as int]@);
        body.append("nameserver ");
        body.append(dns[i].as_str());
        body.append("\n");
        i += 1;
        assert(body@ =~= resolver_lines(all.take(i as int)));
    }
    assert(all.take(i as int) =~= all);
    Some(body)
}

/// The bytes behind the contents of a file, if it could be read.
pub open spec fn contents(file: Option<Vec<u8>>) -> Option<Seq<u8>> {
    match file {
        Some(bytes) => Some(bytes@),
        None => None,
    }
}

/// What is kept of a resolver configuration, to be written back: what could be read
/// of it, once it has been written over.
pub open spec fn kept_of(previous: Option<Seq<u8>>, written: bool) -> Option<Seq<u8>> {
    if written {
        previous
    } else {
        None
    }
}

/// What is kept of the resolver configuration in place, to be written back when the
/// routes are taken out again. `previous` is what could be read of it, `written`
/// whether it has been written over.
pub fn resolver_kept(previous: Option<Vec<u8>>, written: bool) -> (r: Option<Vec<u8>>)
    ensures
        contents(r) == kept_of(contents(previous), written),
{
    if written {
        previous
    } else {
        None
    }
}

/// What a file holds once `body` has been written over it, when that succeeded.
pub open spec fn overwritten(file: Option<Seq<u8>>, body: Seq<u8>, written: bool) -> Option<
    Seq<u8>,
> {
    if written {
        Some(body)
    } else {
        file
    }
}

/// What a file holds once what was kept of it has been written back, if anything was.
pub open spec fn given_back(file: Option<Seq<u8>>, kept: Option<Seq<u8>>) -> Option<Seq<u8>> {
    match kept {
        Some(bytes) => Some(bytes),
        None => file,
    }
}

/// Reverting gives the resolver configuration its earlier bytes back, on Linux: one
/// that could be read holds exactly what it held before, whatever was written over it,
/// and where nothing was written over it nothing is written back.
pub proof fn lemma_the_resolver_comes_back(
    file: Option<Seq<u8>>,
    body: Seq<u8>,
    written: bool,
)
    ensures
        file is Some ==> given_back(overwritten(file, body, written), kept_of(file, written))
            == file,
        !written ==> kept_of(file, written) is None && given_back(
            overwritten(file, body, written),
            kept_of(file, written),
        ) == file,
        written ==> kept_of(file, written) == file,
{
}

// Windows

/// The question that answers with the next hop of the default route. Asked of
/// PowerShell because `route print` is localised and this is not.
pub fn windows_gateway_query() -> (r: Command)
    ensures
        r@ == line(
            "powershell"@,
            seq!["-NoProfile"@, "-NonInteractive"@, "-Command"@, NEXT_HOP@],
        ),
{
    let r = Command::new("powershell", &["-NoProfile", "-NonInteractive", "-Command", NEXT_HOP]);
    assert(r@.args =~= seq!["-NoProfile"@, "-NonInteractive"@, "-Command"@, NEXT_HOP@]);
    r
}

/// The next hop of the default route, for PowerShell.
pub const NEXT_HOP: &'static str = "(Get-NetRoute -DestinationPrefix '0.0.0.0/0' -ErrorAction SilentlyContinue | Sort-Object RouteMetric | Select-Object -First 1).NextHop";

/// Half of the default route into the tunnel on Windows.
pub open spec fn windows_half(index: u32, half: Seq<char>) -> Move {
    let interface = "interface="@ + text::decimal(index as nat);
    must(
        "netsh"@,
        seq![
            "interface"@,
            "ipv4"@,
            "add"@,
            "route"@,
            "prefix="@ + half,
            interface,
            "metric=1"@,
            "store=active"@,
        ],
        seq![
            "interface"@,
            "ipv4"@,
            "delete"@,
            "route"@,
            "prefix="@ + half,
            interface,
            "store=active"@,
        ],
    )
}

/// What brings the routes in on Windows. The relay comes first: without it the
/// tunnel would deadlock on itself.
pub open spec fn windows_applied(
    index: u32,
    endpoint: Seq<char>,
    gateway: Option<Seq<char>>,
) -> Seq<Move> {
    (match gateway {
        Some(gateway) => seq![
            may(
                "route"@,
                seq!["add"@, endpoint, "mask"@, "255.255.255.255"@, gateway, "metric"@, "1"@],
                seq!["delete"@, endpoint],
            ),
        ],
        None => Seq::empty(),
    }) + seq![windows_half(index, LOWER@), windows_half(index, UPPER@)]
}

fn add_windows_half(steps: &mut Vec<Step>, index: u32, half: &str)
    ensures
        moves(final(steps)@) == moves(old(steps)@).push(windows_half(index, half@)),
{
    let interface = glue("interface=", text::number(index as u64).as_str());
    let prefix = glue("prefix=", half);
    let args = [
        "interface",
        "ipv4",
        "add",
        "route",
        prefix.as_str(),
        interface.as_str(),
        "metric=1",
        "store=active",
    ];
    let back = [
        "interface",
        "ipv4",
        "delete",
        "route",
        prefix.as_str(),
        interface.as_str(),
        "store=active",
    ];
    assert(command::slices(args@) =~= windows_half(index, half@).line.args);
    assert(command::slices(back@) =~= windows_half(index, half@).undo.args);
    add_step(steps, true, "netsh", &args, &back);
}

/// The steps that bring the routes in on Windows, given the gateway in use now.
pub fn windows_apply(index: u32, endpoint: &str, gateway: &Option<String>) -> (r: Vec<Step>)
    ensures
        moves(r@) == windows_applied(index, endpoint@, text::maybe(*gateway)),
{
    let mut r: Vec<Step> = Vec::new();
    assert(moves(r@) =~= Seq::empty());
    if let Some(gateway) = gateway {
        let pin = ["add", endpoint, "mask", "255.255.255.255", gateway.as_str(), "metric", "1"];
        let back = ["delete", endpoint];
        assert(command::slices(pin@) =~= seq![
            "add"@,
            endpoint@,
            "mask"@,
            "255.255.255.255"@,
            gateway@,
            "metric"@,
            "1"@,
        ]);
        assert(command::slices(back@) =~= seq!["delete"@, endpoint@]);
        add_step(&mut r, false, "route", &pin, &back);
    }
    add_windows_half(&mut r, index, LOWER);
    add_windows_half(&mut r, index, UPPER);
    assert(moves(r@) =~= windows_applied(index, endpoint@, text::maybe(*gateway)));
    r
}

/// The command that gives the interface back its resolvers on Windows: they belong
/// to it and go with it, but the adapter may outlive this process by a moment.
pub fn windows_dns_reset(index: u32) -> (r: Command)
    ensures
        r@ == line(
            "netsh"@,
            seq![
                "interface"@,
                "ipv4"@,
                "set"@,
                "dnsservers"@,
                "name="@ + text::decimal(index as nat),
                "dhcp"@,
            ],
        ),
{
    let name = glue("name=", text::number(index as u64).as_str());
    let r = Command::new(
        "netsh",
        &["interface", "ipv4", "set", "dnsservers", name.as_str(), "dhcp"],
    );
    assert(r@.args =~= seq![
        "interface"@,
        "ipv4"@,
        "set"@,
        "dnsservers"@,
        "name="@ + text::decimal(index as nat),
        "dhcp"@,
    ]);
    r
}

/// The servers that are IPv4 addresses.
pub open spec fn v4_servers(dns: Seq<Seq<char>>) -> Seq<Seq<char>>
    decreases dns.len(),
{
    if dns.len() == 0 {
        Seq::empty()
    } else if crate::tunnel::address::v4_of(dns.last()) is Some {
        v4_servers(dns.drop_last()).push(dns.last())
    } else {
        v4_servers(dns.drop_last())
    }
}

/// What points an interface at its `at`th resolver: the first takes the place of
/// whatever was there, the others come after it.
pub open spec fn resolver_line(
    index: u32,
    server: Seq<char>,
    at: int,
) -> Line {
    let name = "name="@ + text::decimal(index as nat);
    if at == 0 {
        line(
            "netsh"@,
            seq![
                "interface"@,
                "ipv4"@,
                "set"@,
                "dnsservers"@,
                name,
                "static"@,
                server,
                "primary"@,
                "validate=no"@,
            ],
        )
    } else {
        line(
            "netsh"@,
            seq![
                "interface"@,
                "ipv4"@,
                "add"@,
                "dnsservers"@,
                name,
                server,
                "index="@ + text::decimal((at + 1) as nat),
                "validate=no"@,
            ],
        )
    }
}

/// The commands that point an interface at its resolvers on Windows: the IPv4
/// ones, in order. The failure of any is ignored.
pub fn windows_dns(index: u32, dns: &Vec<String>) -> (r: Vec<Command>)
    ensures
        r@.len() == v4_servers(text::texts(dns@)).len(),
        forall|i: int|
            0 <= i < r@.len() ==> (#[trigger] r@[i])@ == resolver_line(
                index,
                v4_servers(text::texts(dns@))[i],
                i,
            ),
{
    let name = glue("name=", text::number(index as u64).as_str());
    let ghost all = text::texts(dns@);
    let mut r: Vec<Command> = Vec::new();
    let mut i: usize = 0;
    assert(all.take(0) =~= Seq::empty());
    while i < dns.len()
        invariant
            i <= dns@.len(),
            all == text::texts(dns@),
            name@ == "name="@ + text::decimal(index as nat),
            r@.len() <= i,
            r@.len() == v4_servers(all.take(i as int)).len(),
            forall|j: int|
                0 <= j < r@.len() ==> (#[trigger] r@[j])@ == resolver_line(
                    index,
                    v4_servers(all.take(i as int))[j],
                    j,
                ),
        decreases dns@.len() - i,
    {
        let server = dns[i].as_str();
        assert(all.take(i as int + 1).drop_last() =~= all.take(i as int));
        assert(all.take(i as int + 1).last() == server@);
        if parse_v4(server).is_some() {
            let at: usize = r.len();
            let command = if at == 0 {
                Command::new(
                    "netsh",
                    &[
                        "interface",
                        "ipv4",
                        "set",
                        "dnsservers",
                        name.as_str(),
                        "static",
                        server,
                        "primary",
                        "validate=no",
                    ],
                )
            } else {
                let place = glue("index=", text::number(at as u64 + 1).as_str());
                Command::new(
                    "netsh",
                    &[
                        "interface",
                        "ipv4",
                        "add",
                        "dnsservers",
                        name.as_str(),
                        server,
                        place.as_str(),
                        "validate=no",
                    ],
                )
            };
            assert(command@.args =~= resolver_line(index, server@, at as int).args);
            r.push(command);
        }
        i += 1;
    }
    assert(all.take(i as int) =~= all);
    r
}

// macOS

/// The question that answers with the gateway an address is reached by.
pub fn macos_gateway_query(endpoint: &str) -> (r: Command)
    ensures
        r@ == line("route"@, seq!["-n"@, "get"@, endpoint@]),
{
    let r = Command::new("route", &["-n", "get", endpoint]);
    assert(r@.args =~= seq!["-n"@, "get"@, endpoint@]);
    r
}

/// The gateway in an answer of `route -n get`: what stands on the first line
/// that opens with `gateway:`, if anything does.
pub open spec fn gateway_line(answer: Seq<char>) -> Option<Seq<char>> {
    match text::first_after(text::lines_of(answer), "gateway:"@) {
        Some(rest) if text::trimmed(rest).len() > 0 => Some(text::trimmed(rest)),
        _ => None,
    }
}

/// The gateway in an answer of `route -n get`.
pub fn macos_gateway_to(answer: &str) -> (r: Option<String>)
    ensures
        text::maybe(r) == gateway_line(answer@),
{
    match text::line_after(answer, "gateway:") {
        Some(rest) => {
            let gateway = text::trim(rest.as_str());
            if gateway.as_str().is_empty() {
                None
            } else {
                Some(gateway)
            }
        },
        None => None,
    }
}

/// Half of the default route into the tunnel on macOS.
pub open spec fn macos_half(name: Seq<char>, half: Seq<char>) -> Move {
    must(
        "route"@,
        seq!["-n"@, "add"@, "-net"@, half, "-interface"@, name],
        seq!["-n"@, "delete"@, "-net"@, half, "-interface"@, name],
    )
}

/// What brings the routes in on macOS. The relay comes first.
pub open spec fn macos_applied(
    name: Seq<char>,
    endpoint: Seq<char>,
    gateway: Option<Seq<char>>,
) -> Seq<Move> {
    (match gateway {
        Some(gateway) => seq![
            may(
                "route"@,
                seq!["-n"@, "add"@, "-host"@, endpoint, gateway],
                seq!["-n"@, "delete"@, "-host"@, endpoint],
            ),
        ],
        None => Seq::empty(),
    }) + seq![macos_half(name, LOWER@), macos_half(name, UPPER@)]
}

fn add_macos_half(steps: &mut Vec<Step>, name: &str, half: &str)
    ensures
        moves(final(steps)@) == moves(old(steps)@).push(macos_half(name@, half@)),
{
    let args = ["-n", "add", "-net", half, "-interface", name];
    let back = ["-n", "delete", "-net", half, "-interface", name];
    assert(command::slices(args@) =~= macos_half(name@, half@).line.args);
    assert(command::slices(back@) =~= macos_half(name@, half@).undo.args);
    add_step(steps, true, "route", &args, &back);
}

/// The steps that bring the routes in on macOS, given the gateway the relay is
/// reached by now.
pub fn macos_apply(name: &str, endpoint: &str, gateway: &Option<String>) -> (r: Vec<Step>)
    ensures
        moves(r@) == macos_applied(name@, endpoint@, text::maybe(*gateway)),
{
    let mut r: Vec<Step> = Vec::new();
    assert(moves(r@) =~= Seq::empty());
    if let Some(gateway) = gateway {
        let pin = ["-n", "add", "-host", endpoint, gateway.as_str()];
        let back = ["-n", "delete", "-host", endpoint];
        assert(command::slices(pin@) =~= seq!["-n"@, "add"@, "-host"@, endpoint@, gateway@]);
        assert(command::slices(back@) =~= seq!["-n"@, "delete"@, "-host"@, endpoint@]);
        add_step(&mut r, false, "route", &pin, &back);
    }
    add_macos_half(&mut r, name, LOWER);
    add_macos_half(&mut r, name, UPPER);
    assert(moves(r@) =~= macos_applied(name@, endpoint@, text::maybe(*gateway)));
    r
}

/// What gives each service back its own resolvers.
pub open spec fn macos_resolvers_reset(services: Seq<Seq<char>>) -> Seq<Line> {
    Seq::new(
        services.len(),
        |i: int| line("networksetup"@, seq!["-setdnsservers"@, services[i], "Empty"@]),
    )
}

/// The commands that give back their own resolvers on macOS to the services that
/// were pointed at the tunnel. The failure of any is ignored.
pub fn macos_dns_reset(services: &Vec<String>) -> (r: Vec<Command>)
    ensures
        command::lines(r@) == macos_resolvers_reset(text::texts(services@)),
{
    let ghost all = text::texts(services@);
    let mut r: Vec<Command> = Vec::new();
    assert(command::lines(r@) =~= macos_resolvers_reset(all.take(0)));
    let mut i: usize = 0;
    while i < services.len()
        invariant
            i <= services@.len(),
            all == text::texts(services@),
            command::lines(r@) == macos_resolvers_reset(all.take(i as int)),
        decreases services@.len() - i,
    {
        let service = services[i].as_str();
        let args = ["-setdnsservers", service, "Empty"];
        assert(command::slices(args@) =~= seq!["-setdnsservers"@, service@, "Empty"@]);
        let ghost before = r@;
        r.push(Command::new("networksetup", &args));
        i += 1;
        assert(command::lines(r@) =~= command::lines(before).push(r@.last()@));
        assert(command::lines(r@) =~= macos_resolvers_reset(all.take(i as int)));
    }
    assert(all.take(i as int) =~= all);
    r
}

/// Whether a line of the listing names a service that is in use. A leading
/// asterisk marks a disabled one.
pub open spec fn is_service(line: Seq<char>) -> bool {
    text::trimmed(line).len() > 0 && text::trimmed(line)[0] != '*'
}

/// The services in use among some lines.
pub open spec fn services_in(lines: Seq<Seq<char>>) -> Seq<Seq<char>>
    decreases lines.len(),
{
    if lines.len() == 0 {
        Seq::empty()
    } else if is_service(lines.last()) {
        services_in(lines.drop_last()).push(text::trimmed(lines.last()))
    } else {
        services_in(lines.drop_last())
    }
}

/// What follows the heading of a listing.
pub open spec fn below_heading(lines: Seq<Seq<char>>) -> Seq<Seq<char>> {
    if lines.len() == 0 {
        lines
    } else {
        lines.drop_first()
    }
}

/// The network services in use, from their listing. Its first line is a heading.
pub fn macos_services(listing: &str) -> (r: Vec<String>)
    ensures
        text::texts(r@) == services_in(below_heading(text::lines_of(listing@))),
{
    let lines = text::lines(listing);
    let ghost all = below_heading(text::lines_of(listing@));
    let mut r: Vec<String> = Vec::new();
    let mut i: usize = 1;
    assert(text::texts(lines@).len() == lines@.len());
    assert(all.take(0) =~= Seq::empty());
    assert(text::texts(r@) =~= Seq::empty());
    if lines.len() == 0 {
        assert(all =~= Seq::empty());
        return r;
    }
    while i < lines.len()
        invariant
            1 <= i <= lines@.len(),
            all == text::texts(lines@).drop_first(),
            text::texts(r@) == services_in(all.take(i as int - 1)),
        decreases lines@.len() - i,
    {
        let service = text::trim(lines[i].as_str());
        assert(all.take(i as int).drop_last() =~= all.take(i as int - 1));
        assert(all.take(i as int).last() == lines@[i as int]@);
        if !service.as_str().is_empty() && service.as_str().get_char(0) != '*' {
            let ghost before = r@;
            r.push(service);
            assert(text::texts(r@) =~= text::texts(before).push(service@));
        }
        i += 1;
    }
    assert(all.take(i as int - 1) =~= all);
    r
}

/// The command that points a service at the tunnel's resolvers. macOS keeps them
/// per network service, not per interface, so every service in use gets one.
pub fn macos_dns(service: &str, dns: &Vec<String>) -> (r: Command)
    ensures
        r@ == line("networksetup"@, seq!["-setdnsservers"@, service@] + text::texts(dns@)),
{
    let mut r = Command::new("networksetup", &["-setdnsservers", service]);
    let mut i: usize = 0;
    assert(r@.args =~= seq!["-setdnsservers"@, service@] + text::texts(dns@).take(0));
    while i < dns.len()
        invariant
            i <= dns@.len(),
            r.program@ == "networksetup"@,
            text::texts(r.args@) == seq!["-setdnsservers"@, service@] + text::texts(dns@).take(
                i as int,
            ),
        decreases dns@.len() - i,
    {
        let ghost before = r.args@;
        r.args.push(dns[i].clone());
        i += 1;
        assert(text::texts(r.args@) =~= text::texts(before).push(dns@[i - 1]@));
        assert(text::texts(r.args@) =~= seq!["-setdnsservers"@, service@] + text::texts(dns@).take(
            i as int,
        ));
    }
    assert(text::texts(dns@).take(i as int) =~= text::texts(dns@));
    r
}

// What the commands do to the routing table

/// The systems whose tools are driven here.
pub enum Os {
    Linux,
    Windows,
    MacOs,
}

/// What a command does to the routing table.
pub enum Change {
    /// It routes a destination.
    Adds(Seq<char>),
    /// It drops the route of a destination.
    Drops(Seq<char>),
    /// Nothing.
    Nothing,
}

/// What a command does to the routing table, by the grammar of its tool: `ip
/// [-6] route add|del DESTINATION`, `netsh interface ipv4 add|delete route
/// prefix=DESTINATION`, and `route`, whose grammar is each system's own.
pub open spec fn change_of(os: Os, line: Line) -> Change {
    let args = line.args;
    match os {
        Os::Linux => if line.program != "ip"@ || args.len() < 3 {
            Change::Nothing
        } else if args[0] == "route"@ && args[1] == "add"@ {
            Change::Adds(args[2])
        } else if args[0] == "route"@ && args[1] == "del"@ {
            Change::Drops(args[2])
        } else if args[0] == "-6"@ && args[1] == "route"@ && args[2] == "add"@ && args.len() > 3 {
            Change::Adds(args[3])
        } else if args[0] == "-6"@ && args[1] == "route"@ && args[2] == "del"@ && args.len() > 3 {
            Change::Drops(args[3])
        } else {
            Change::Nothing
        },
        Os::Windows => if line.program == "route"@ && args.len() > 1 && args[0] == "add"@ {
            Change::Adds(args[1])
        } else if line.program == "route"@ && args.len() > 1 && args[0] == "delete"@ {
            Change::Drops(args[1])
        } else if line.program == "netsh"@ && args.len() > 4 && args[2] == "add"@ && args[3]
            == "route"@ && text::opens(args[4], "prefix="@) {
            Change::Adds(args[4].skip("prefix="@.len() as int))
        } else if line.program == "netsh"@ && args.len() > 4 && args[2] == "delete"@ && args[3]
            == "route"@ && text::opens(args[4], "prefix="@) {
            Change::Drops(args[4].skip("prefix="@.len() as int))
        } else {
            Change::Nothing
        },
        Os::MacOs => if line.program == "route"@ && args.len() > 3 && args[1] == "add"@ {
            Change::Adds(args[3])
        } else if line.program == "route"@ && args.len() > 3 && args[1] == "delete"@ {
            Change::Drops(args[3])
        } else {
            Change::Nothing
        },
    }
}

/// What running a command comes to: the destinations that are routed afterwards,
/// and whether it succeeded. One the system does not let through fails, and so
/// does one that routes a destination which is routed already, or drops one which
/// is not.
pub open spec fn ran(os: Os, table: Set<Seq<char>>, line: Line, lets: bool) -> (
    Set<Seq<char>>,
    bool,
) {
    if !lets {
        (table, false)
    } else {
        match change_of(os, line) {
            Change::Adds(to) => (table.insert(to), !table.contains(to)),
            Change::Drops(to) => (table.remove(to), table.contains(to)),
            Change::Nothing => (table, true),
        }
    }
}

/// What running some commands comes to, of which the system lets through only
/// those at the places in `lets`: the destinations that are routed afterwards, and
/// which commands succeeded.
pub open spec fn ran_all(os: Os, table: Set<Seq<char>>, lines: Seq<Line>, lets: Set<int>) -> (
    Set<Seq<char>>,
    Seq<bool>,
)
    decreases lines.len(),
{
    if lines.len() == 0 {
        (table, Seq::empty())
    } else {
        let (before, took) = ran_all(os, table, lines.drop_last(), lets);
        let (after, succeeded) = ran(os, before, lines.last(), lets.contains(lines.len() - 1));
        (after, took.push(succeeded))
    }
}

/// Whether a step routes that destination, and taking it back drops it.
pub open spec fn routes(os: Os, step: Move, to: Seq<char>) -> bool {
    change_of(os, step.line) == Change::Adds(to) && change_of(os, step.undo) == Change::Drops(to)
}

/// Whether a step routes a destination, and is taken back by dropping the same one.
spec fn is_routing(os: Os, step: Move) -> bool {
    exists|to: Seq<char>| routes(os, step, to)
}

spec fn all_route(os: Os, steps: Seq<Move>) -> bool {
    forall|i: int| 0 <= i < steps.len() ==> is_routing(os, #[trigger] steps[i])
}

/// Whether one of the steps that succeeded routes that destination.
spec fn added(os: Os, steps: Seq<Move>, took: Seq<bool>, to: Seq<char>) -> bool {
    exists|i: int|
        0 <= i < steps.len() && i < took.len() && took[i] && routes(os, #[trigger] steps[i], to)
}

/// Whether a destination is added by the steps without the last, or by the last.
proof fn lemma_added_step(os: Os, steps: Seq<Move>, took: Seq<bool>, to: Seq<char>)
    requires
        steps.len() > 0,
    ensures
        added(os, steps, took, to) == (added(os, steps.drop_last(), took, to) || (steps.len()
            <= took.len() && took[steps.len() - 1] && routes(os, steps.last(), to))),
{
    let less = steps.drop_last();
    if added(os, steps, took, to) {
        let i = choose|i: int|
            0 <= i < steps.len() && i < took.len() && took[i] && routes(os, #[trigger] steps[i], to);
        if i < less.len() {
            assert(less[i] == steps[i]);
        }
    }
    if added(os, less, took, to) {
        let i = choose|i: int|
            0 <= i < less.len() && i < took.len() && took[i] && routes(os, #[trigger] less[i], to);
        assert(less[i] == steps[i]);
    }
    if steps.len() <= took.len() && took[steps.len() - 1] && routes(os, steps.last(), to) {
        assert(steps[steps.len() - 1] == steps.last());
    }
}

/// Running steps that route gives exactly what was routed and what they added, and
/// they add nothing that was routed.
proof fn lemma_adds(
    os: Os,
    table: Set<Seq<char>>,
    steps: Seq<Move>,
    lets: Set<int>,
    to: Seq<char>,
)
    requires
        all_route(os, steps),
    ensures
        ran_all(os, table, lines_in(steps), lets).1.len() == steps.len(),
        ({
            let (after, took) = ran_all(os, table, lines_in(steps), lets);
            &&& after.contains(to) == (table.contains(to) || added(os, steps, took, to))
            &&& added(os, steps, took, to) ==> !table.contains(to)
        }),
    decreases steps.len(),
{
    if steps.len() > 0 {
        let less = steps.drop_last();
        assert(lines_in(less) =~= lines_in(steps).drop_last());
        assert forall|i: int| 0 <= i < less.len() implies is_routing(
            os,
            #[trigger] less[i],
        ) by {
            assert(less[i] == steps[i]);
        }
        lemma_adds(os, table, less, lets, to);
        let (before, took) = ran_all(os, table, lines_in(less), lets);
        let all = ran_all(os, table, lines_in(steps), lets).1;
        assert(lines_in(steps).last() == steps.last().line);
        let last = steps.last();
        assert(is_routing(os, steps[steps.len() - 1]));
        let d = choose|d: Seq<char>| routes(os, last, d);
        assert(routes(os, last, d));
        assert(all.take(took.len() as int) =~= took);
        lemma_added_prefix(os, less, took, all, to);
        lemma_added_step(os, steps, all, to);
    }
}

/// What was added hangs only on whether the steps themselves succeeded.
proof fn lemma_added_prefix(
    os: Os,
    steps: Seq<Move>,
    took: Seq<bool>,
    more: Seq<bool>,
    to: Seq<char>,
)
    requires
        took.len() == steps.len(),
        more.len() >= took.len(),
        more.take(took.len() as int) == took,
    ensures
        added(os, steps, took, to) == added(os, steps, more, to),
{
    assert forall|i: int| 0 <= i < steps.len() implies took[i] == more[i] by {
        assert(more.take(took.len() as int)[i] == more[i]);
    }
    if added(os, steps, took, to) {
        let i = choose|i: int|
            0 <= i < steps.len() && i < took.len() && took[i] && routes(os, #[trigger] steps[i], to);
        assert(more[i]);
    }
    if added(os, steps, more, to) {
        let i = choose|i: int|
            0 <= i < steps.len() && i < more.len() && more[i] && routes(os, #[trigger] steps[i], to);
        assert(took[i]);
    }
}

/// Taking back drops what was added and nothing else.
proof fn lemma_drops(
    os: Os,
    table: Set<Seq<char>>,
    steps: Seq<Move>,
    took: Seq<bool>,
    to: Seq<char>,
)
    requires
        all_route(os, steps),
    ensures
        ran_all(os, table, undone(steps, took), Set::full()).0.contains(to) == (table.contains(to)
            && !added(os, steps, took, to)),
    decreases steps.len(),
{
    if steps.len() > 0 {
        let less = steps.drop_last();
        assert forall|i: int| 0 <= i < less.len() implies is_routing(
            os,
            #[trigger] less[i],
        ) by {
            assert(less[i] == steps[i]);
        }
        lemma_drops(os, table, less, took, to);
        lemma_added_step(os, steps, took, to);
        let last = steps.last();
        assert(is_routing(os, steps[steps.len() - 1]));
        let d = choose|d: Seq<char>| routes(os, last, d);
        assert(routes(os, last, d));
        if steps.len() <= took.len() && took[steps.len() - 1] {
            let lines = undone(steps, took);
            assert(lines.drop_last() =~= undone(less, took));
            assert(lines.last() == steps.last().undo);
        }
    }
}

/// Whether steps only ever add to the routing table, and taking back those that
/// succeeded leaves it as it was before.
pub open spec fn leaves_no_trace(
    os: Os,
    table: Set<Seq<char>>,
    steps: Seq<Move>,
    lets: Set<int>,
) -> bool {
    let (after, took) = ran_all(os, table, lines_in(steps), lets);
    &&& table.subset_of(after)
    &&& ran_all(os, after, undone(steps, took), Set::full()).0 == table
}

proof fn lemma_leaves_no_trace(os: Os, table: Set<Seq<char>>, steps: Seq<Move>, lets: Set<int>)
    requires
        all_route(os, steps),
    ensures
        leaves_no_trace(os, table, steps, lets),
{
    let (after, took) = ran_all(os, table, lines_in(steps), lets);
    let end = ran_all(os, after, undone(steps, took), Set::full()).0;
    assert forall|to: Seq<char>| end.contains(to) == table.contains(to) by {
        lemma_adds(os, table, steps, lets, to);
        lemma_drops(os, after, steps, took, to);
    }
    assert forall|to: Seq<char>| table.contains(to) implies after.contains(to) by {
        lemma_adds(os, table, steps, lets, to);
    }
    assert(end =~= table);
}

proof fn lemma_linux_routes(
    name: Seq<char>,
    endpoint: Seq<char>,
    hop: Option<(Seq<char>, Seq<char>)>,
)
    ensures
        all_route(Os::Linux, linux_applied(name, endpoint, hop)),
        hop is Some ==> routes(
            Os::Linux,
            linux_applied(name, endpoint, hop)[0],
            host_route(endpoint),
        ),
{
    reveal_strlit("-6");
    reveal_strlit("route");
    reveal_strlit("add");
    reveal_strlit("del");
    assert("route"@[0] != "-6"@[0]);
    assert("add"@[0] != "del"@[0]);
    assert("route"@[0] != "add"@[0] && "route"@[0] != "del"@[0]);
    let steps = linux_applied(name, endpoint, hop);
    let from: int = if hop is Some {
        1
    } else {
        0
    };
    assert(hop is Some ==> routes(Os::Linux, steps[0], host_route(endpoint)));
    assert(routes(Os::Linux, steps[from], LOWER@));
    assert(routes(Os::Linux, steps[from + 1], UPPER@));
    assert(routes(Os::Linux, steps[from + 2], LOWER6@));
    assert(routes(Os::Linux, steps[from + 3], UPPER6@));
}

proof fn lemma_windows_routes(index: u32, endpoint: Seq<char>, gateway: Option<Seq<char>>)
    ensures
        all_route(Os::Windows, windows_applied(index, endpoint, gateway)),
        gateway is Some ==> routes(
            Os::Windows,
            windows_applied(index, endpoint, gateway)[0],
            endpoint,
        ),
{
    reveal_strlit("route");
    reveal_strlit("netsh");
    reveal_strlit("add");
    reveal_strlit("delete");
    assert("route"@[0] != "netsh"@[0]);
    assert("add"@[0] != "delete"@[0]);
    assert forall|half: Seq<char>| text::opens(#[trigger] ("prefix="@ + half), "prefix="@) && (
    "prefix="@ + half).skip("prefix="@.len() as int) == half by {
        assert(("prefix="@ + half).take("prefix="@.len() as int) =~= "prefix="@);
        assert(("prefix="@ + half).skip("prefix="@.len() as int) =~= half);
    }
    let steps = windows_applied(index, endpoint, gateway);
    let from: int = if gateway is Some {
        1
    } else {
        0
    };
    assert(gateway is Some ==> routes(Os::Windows, steps[0], endpoint));
    assert(routes(Os::Windows, steps[from], LOWER@));
    assert(routes(Os::Windows, steps[from + 1], UPPER@));
}

proof fn lemma_macos_routes(name: Seq<char>, endpoint: Seq<char>, gateway: Option<Seq<char>>)
    ensures
        all_route(Os::MacOs, macos_applied(name, endpoint, gateway)),
        gateway is Some ==> routes(Os::MacOs, macos_applied(name, endpoint, gateway)[0], endpoint),
{
    reveal_strlit("add");
    reveal_strlit("delete");
    assert("add"@[0] != "delete"@[0]);
    let steps = macos_applied(name, endpoint, gateway);
    let from: int = if gateway is Some {
        1
    } else {
        0
    };
    assert(gateway is Some ==> routes(Os::MacOs, steps[0], endpoint));
    assert(routes(Os::MacOs, steps[from], LOWER@));
    assert(routes(Os::MacOs, steps[from + 1], UPPER@));
}

/// Reverting is only ever removing what was added, on Linux: whatever was routed
/// before, whichever steps the system let through and wherever they stopped, nothing
/// that was routed is lost meanwhile, the default in place among it, and taking back
/// the steps that succeeded leaves everything as it was.
pub proof fn lemma_linux_revert_undoes_apply(
    table: Set<Seq<char>>,
    name: Seq<char>,
    endpoint: Seq<char>,
    hop: Option<(Seq<char>, Seq<char>)>,
    lets: Set<int>,
)
    ensures
        leaves_no_trace(Os::Linux, table, linux_applied(name, endpoint, hop), lets),
{
    lemma_linux_routes(name, endpoint, hop);
    lemma_leaves_no_trace(Os::Linux, table, linux_applied(name, endpoint, hop), lets);
}

/// Reverting is only ever removing what was added, on Windows, in the same sense.
pub proof fn lemma_windows_revert_undoes_apply(
    table: Set<Seq<char>>,
    index: u32,
    endpoint: Seq<char>,
    gateway: Option<Seq<char>>,
    lets: Set<int>,
)
    ensures
        leaves_no_trace(Os::Windows, table, windows_applied(index, endpoint, gateway), lets),
{
    lemma_windows_routes(index, endpoint, gateway);
    lemma_leaves_no_trace(Os::Windows, table, windows_applied(index, endpoint, gateway), lets);
}

/// Reverting is only ever removing what was added, on macOS, in the same sense.
pub proof fn lemma_macos_revert_undoes_apply(
    table: Set<Seq<char>>,
    name: Seq<char>,
    endpoint: Seq<char>,
    gateway: Option<Seq<char>>,
    lets: Set<int>,
)
    ensures
        leaves_no_trace(Os::MacOs, table, macos_applied(name, endpoint, gateway), lets),
{
    lemma_macos_routes(name, endpoint, gateway);
    lemma_leaves_no_trace(Os::MacOs, table, macos_applied(name, endpoint, gateway), lets);
}

/// Whether the first `n` of some steps, of which the system lets through those at
/// the places in `lets`, divert something into the tunnel only with `relay` routed:
/// wherever they stop, as soon as a destination is routed that was not before, so is
/// that one.
pub open spec fn pins_first(
    os: Os,
    table: Set<Seq<char>>,
    steps: Seq<Move>,
    lets: Set<int>,
    relay: Seq<char>,
    n: int,
) -> bool {
    let after = ran_all(os, table, lines_in(steps).take(n), lets).0;
    forall|to: Seq<char>| #[trigger]
        after.contains(to) && !table.contains(to) ==> after.contains(relay)
}

proof fn lemma_pins_first(
    os: Os,
    table: Set<Seq<char>>,
    steps: Seq<Move>,
    lets: Set<int>,
    relay: Seq<char>,
    n: int,
)
    requires
        0 <= n <= steps.len(),
        all_route(os, steps),
        n > 0 ==> routes(os, steps[0], relay),
        lets.contains(0),
    ensures
        pins_first(os, table, steps, lets, relay, n),
    decreases n,
{
    let lines = lines_in(steps).take(n);
    if n > 0 {
        lemma_pins_first(os, table, steps, lets, relay, n - 1);
        assert(lines.drop_last() =~= lines_in(steps).take(n - 1));
        assert(lines.last() == steps[n - 1].line);
        let last = steps[n - 1];
        assert(is_routing(os, last));
        let d = choose|d: Seq<char>| routes(os, last, d);
        assert(routes(os, last, d));
        lemma_first_stays(os, table, steps, lets, relay, n);
    }
}

/// The destination the first step routes is routed from then on.
proof fn lemma_first_stays(
    os: Os,
    table: Set<Seq<char>>,
    steps: Seq<Move>,
    lets: Set<int>,
    relay: Seq<char>,
    n: int,
)
    requires
        1 <= n <= steps.len(),
        all_route(os, steps),
        routes(os, steps[0], relay),
        lets.contains(0),
    ensures
        ran_all(os, table, lines_in(steps).take(n), lets).0.contains(relay),
    decreases n,
{
    let lines = lines_in(steps).take(n);
    assert(lines.drop_last() =~= lines_in(steps).take(n - 1));
    assert(lines.last() == steps[n - 1].line);
    if n > 1 {
        lemma_first_stays(os, table, steps, lets, relay, n - 1);
        let last = steps[n - 1];
        assert(is_routing(os, last));
        let d = choose|d: Seq<char>| routes(os, last, d);
        assert(routes(os, last, d));
    }
}

/// The relay is pinned off the tunnel before anything is diverted into it, on Linux:
/// when the way it is reached by is known and the system lets the pin through, then
/// wherever the steps stop, as soon as anything is routed that was not before, the
/// relay's own host route stands.
pub proof fn lemma_linux_pins_the_relay_first(
    table: Set<Seq<char>>,
    name: Seq<char>,
    endpoint: Seq<char>,
    hop: Option<(Seq<char>, Seq<char>)>,
    lets: Set<int>,
    n: int,
)
    requires
        hop is Some,
        lets.contains(0),
        0 <= n <= linux_applied(name, endpoint, hop).len(),
    ensures
        pins_first(
            Os::Linux,
            table,
            linux_applied(name, endpoint, hop),
            lets,
            host_route(endpoint),
            n,
        ),
{
    lemma_linux_routes(name, endpoint, hop);
    lemma_pins_first(
        Os::Linux,
        table,
        linux_applied(name, endpoint, hop),
        lets,
        host_route(endpoint),
        n,
    );
}

/// The relay is pinned off the tunnel before anything is diverted into it, on
/// Windows, in the same sense.
pub proof fn lemma_windows_pins_the_relay_first(
    table: Set<Seq<char>>,
    index: u32,
    endpoint: Seq<char>,
    gateway: Option<Seq<char>>,
    lets: Set<int>,
    n: int,
)
    requires
        gateway is Some,
        lets.contains(0),
        0 <= n <= windows_applied(index, endpoint, gateway).len(),
    ensures
        pins_first(
            Os::Windows,
            table,
            windows_applied(index, endpoint, gateway),
            lets,
            endpoint,
            n,
        ),
{
    lemma_windows_routes(index, endpoint, gateway);
    lemma_pins_first(
        Os::Windows,
        table,
        windows_applied(index, endpoint, gateway),
        lets,
        endpoint,
        n,
    );
}

/// The relay is pinned off the tunnel before anything is diverted into it, on macOS,
/// in the same sense.
pub proof fn lemma_macos_pins_the_relay_first(
    table: Set<Seq<char>>,
    name: Seq<char>,
    endpoint: Seq<char>,
    gateway: Option<Seq<char>>,
    lets: Set<int>,
    n: int,
)
    requires
        gateway is Some,
        lets.contains(0),
        0 <= n <= macos_applied(name, endpoint, gateway).len(),
    ensures
        pins_first(Os::MacOs, table, macos_applied(name, endpoint, gateway), lets, endpoint, n),
{
    lemma_macos_routes(name, endpoint, gateway);
    lemma_pins_first(Os::MacOs, table, macos_applied(name, endpoint, gateway), lets, endpoint, n);
}

// What the answers of the tools say

/// The value of a field is the word after the first that is its name, and there is none
/// when it is the last or does not occur.
pub proof fn lemma_the_value_of_a_field(fields: Seq<Seq<char>>, key: Seq<char>, k: int)
    requires
        0 <= k <= fields.len(),
        forall|i: int| 0 <= i < k ==> #[trigger] fields[i] != key,
        k < fields.len() ==> fields[k] == key,
    ensures
        k + 1 < fields.len() ==> value_after(fields, key) == Some(fields[k + 1]),
        k + 1 >= fields.len() ==> value_after(fields, key) is None,
    decreases k,
{
    if k > 0 {
        let rest = fields.drop_first();
        assert(fields[0] != key);
        assert forall|i: int| 0 <= i < k - 1 implies #[trigger] rest[i] != key by {
            assert(rest[i] == fields[i + 1]);
        }
        lemma_the_value_of_a_field(rest, key, k - 1);
    }
}

/// The way to the relay is the word after `via` and the word after `dev`, each its own;
/// an answer that lacks either has none.
pub proof fn lemma_the_way_to_the_relay(answer: Seq<char>, g: int, d: int)
    requires
        0 <= g <= text::words_of(answer).len(),
        0 <= d <= text::words_of(answer).len(),
        forall|i: int| 0 <= i < g ==> #[trigger] text::words_of(answer)[i] != "via"@,
        forall|i: int| 0 <= i < d ==> #[trigger] text::words_of(answer)[i] != "dev"@,
        g < text::words_of(answer).len() ==> text::words_of(answer)[g] == "via"@,
        d < text::words_of(answer).len() ==> text::words_of(answer)[d] == "dev"@,
    ensures
        g + 1 < text::words_of(answer).len() && d + 1 < text::words_of(answer).len() ==> hop_in(
            answer,
        ) == Some((text::words_of(answer)[g + 1], text::words_of(answer)[d + 1])),
        g + 1 >= text::words_of(answer).len() || d + 1 >= text::words_of(answer).len()
            ==> hop_in(answer) is None,
{
    lemma_the_value_of_a_field(text::words_of(answer), "via"@, g);
    lemma_the_value_of_a_field(text::words_of(answer), "dev"@, d);
}

/// The gateway on macOS is what stands after `gateway:` on the first line that opens
/// with it, without the white space around it, if anything does.
pub proof fn lemma_the_gateway_line(answer: Seq<char>, at: int)
    requires
        0 <= at <= text::lines_of(answer).len(),
        forall|i: int|
            0 <= i < at ==> !text::opens(
                text::trimmed(#[trigger] text::lines_of(answer)[i]),
                "gateway:"@,
            ),
        at < text::lines_of(answer).len() ==> text::opens(
            text::trimmed(text::lines_of(answer)[at]),
            "gateway:"@,
        ),
    ensures
        at == text::lines_of(answer).len() ==> gateway_line(answer) is None,
        at < text::lines_of(answer).len() ==> {
            let rest = text::trimmed(
                text::trimmed(text::lines_of(answer)[at]).skip("gateway:"@.len() as int),
            );
            &&& rest.len() > 0 ==> gateway_line(answer) == Some(rest)
            &&& rest.len() == 0 ==> gateway_line(answer) is None
        },
{
    text::lemma_first_after(text::lines_of(answer), "gateway:"@, at);
}

/// The services in use are the lines below the heading that name one, trimmed and in
/// order: a blank line names none, and one with an asterisk names one that is not in
/// use.
pub proof fn lemma_the_services_in_use(
    heading: Seq<char>,
    lines: Seq<Seq<char>>,
    a: Seq<char>,
    name: Seq<char>,
    b: Seq<char>,
)
    requires
        text::is_blank(a),
        text::is_blank(b),
        name.len() > 0 ==> !text::is_space(name[0]) && !text::is_space(name.last()),
    ensures
        below_heading(seq![heading] + lines) == lines,
        name.len() > 0 && name[0] != '*' ==> services_in(lines.push(a + name + b)) == services_in(
            lines,
        ).push(name),
        name.len() == 0 || name[0] == '*' ==> services_in(lines.push(a + name + b)) == services_in(
            lines,
        ),
        services_in(Seq::empty()).len() == 0,
{
    text::lemma_trimming(a, name, b);
    assert((seq![heading] + lines).drop_first() =~= lines);
    assert(lines.push(a + name + b).drop_last() =~= lines);
}

/// The resolver configuration names each server on a line of its own, in order.
pub proof fn lemma_the_resolvers_in_lines(dns: Seq<Seq<char>>, server: Seq<char>)
    ensures
        resolver_lines(dns.push(server)) == resolver_lines(dns) + ("nameserver "@ + server + "\n"@),
        resolver_lines(Seq::empty()).len() == 0,
{
    assert(dns.push(server).drop_last() =~= dns);
}

/// The servers Windows is pointed at over IPv4 are those that are IPv4 addresses, in
/// order.
pub proof fn lemma_the_v4_servers(dns: Seq<Seq<char>>)
    ensures
        v4_servers(dns) == dns.filter(
            |server: Seq<char>| crate::tunnel::address::v4_of(server) is Some,
        ),
    decreases dns.len(),
{
    reveal(Seq::filter);
    if dns.len() > 0 {
        lemma_the_v4_servers(dns.drop_last());
    }
}

/// The route to the relay is to that address alone: all 128 bits of an IPv6 one, which
/// has a colon in it, and all 32 of an IPv4 one.
pub proof fn lemma_the_route_to_one_address(endpoint: Seq<char>)
    ensures
        endpoint.contains(':') ==> host_route(endpoint) == endpoint + "/128"@,
        !endpoint.contains(':') ==> host_route(endpoint) == endpoint + "/32"@,
{
}

/// Everything goes into the tunnel by its own interface: but for the step that pins the
/// relay, each step on Linux and on macOS routes a half of the addresses there, and what
/// takes it back names the same half and the same interface. The relay's own step goes
/// by the gateway in use, and comes first.
pub proof fn lemma_everything_goes_into_the_tunnel(
    name: Seq<char>,
    endpoint: Seq<char>,
    gateway: Seq<char>,
    interface: Seq<char>,
)
    ensures
        ({
            let steps = linux_applied(name, endpoint, Some((gateway, interface)));
            &&& steps.len() == 5
            &&& steps[0].line.args == seq![
                "route"@,
                "add"@,
                host_route(endpoint),
                "via"@,
                gateway,
                "dev"@,
                interface,
            ]
            &&& steps[0].undo.args == seq!["route"@, "del"@, host_route(endpoint)]
            &&& forall|i: int|
                1 <= i < 5 ==> (#[trigger] steps[i]).line.args.last() == name
                    && steps[i].undo.args.last() == name
            &&& linux_applied(name, endpoint, None) == steps.drop_first()
        }),
        ({
            let steps = macos_applied(name, endpoint, Some(gateway));
            &&& steps.len() == 3
            &&& steps[0].line.args == seq!["-n"@, "add"@, "-host"@, endpoint, gateway]
            &&& steps[0].undo.args == seq!["-n"@, "delete"@, "-host"@, endpoint]
            &&& forall|i: int|
                1 <= i < 3 ==> (#[trigger] steps[i]).line.args.last() == name
                    && steps[i].undo.args.last() == name && steps[i].line.args[3]
                    == steps[i].undo.args[3]
            &&& steps[1].line.args[3] == LOWER@
            &&& steps[2].line.args[3] == UPPER@
            &&& macos_applied(name, endpoint, None) == steps.drop_first()
        }),
{
    assert(linux_applied(name, endpoint, None) =~= linux_applied(
        name,
        endpoint,
        Some((gateway, interface)),
    ).drop_first());
    assert(macos_applied(name, endpoint, None) =~= macos_applied(
        name,
        endpoint,
        Some(gateway),
    ).drop_first());
}

/// What is taken back is exactly what succeeded, in the order it was run: a step that
/// succeeded by its own opposite, and one that did not by nothing.
pub proof fn lemma_what_is_taken_back(steps: Seq<Move>, took: Seq<bool>, step: Move)
    requires
        steps.len() < took.len(),
    ensures
        took[steps.len() as int] ==> undone(steps.push(step), took) == undone(steps, took).push(
            step.undo,
        ),
        !took[steps.len() as int] ==> undone(steps.push(step), took) == undone(steps, took),
        undone(Seq::empty(), took).len() == 0,
{
    assert(steps.push(step).drop_last() =~= steps);
}

/// On Windows an interface is pointed at its resolvers one after the other: the first in
/// place of whatever was there, each that follows behind the ones before it.
pub proof fn lemma_resolvers_one_after_the_other(index: u32, server: Seq<char>, at: int)
    requires
        at >= 0,
    ensures
        ({
            let args = resolver_line(index, server, at).args;
            &&& args[3] == "dnsservers"@
            &&& args[4] == "name="@ + text::decimal(index as nat)
            &&& at == 0 ==> args[2] == "set"@ && args[5] == "static"@ && args[6] == server && args[7]
                == "primary"@
            &&& at > 0 ==> args[2] == "add"@ && args[5] == server && args[6] == "index="@
                + text::decimal((at + 1) as nat)
        }),
{
}

/// On Windows each half of the addresses goes to the tunnel's interface by its number,
/// and what takes it back names the same half and the same interface.
pub proof fn lemma_windows_routes_into_the_tunnel(
    index: u32,
    endpoint: Seq<char>,
    gateway: Seq<char>,
)
    ensures
        ({
            let steps = windows_applied(index, endpoint, Some(gateway));
            let interface = "interface="@ + text::decimal(index as nat);
            &&& steps.len() == 3
            &&& steps[0].line.args[1] == endpoint
            &&& steps[0].line.args[4] == gateway
            &&& steps[0].undo.args == seq!["delete"@, endpoint]
            &&& steps[1].line.args[4] == "prefix="@ + LOWER@
            &&& steps[2].line.args[4] == "prefix="@ + UPPER@
            &&& forall|i: int|
                1 <= i < 3 ==> (#[trigger] steps[i]).line.args[5] == interface
                    && steps[i].undo.args[5] == interface && steps[i].line.args[4]
                    == steps[i].undo.args[4]
            &&& windows_applied(index, endpoint, None) == steps.drop_first()
        }),
{
    assert(windows_applied(index, endpoint, None) =~= windows_applied(
        index,
        endpoint,
        Some(gateway),
    ).drop_first());
}

} // verus!
