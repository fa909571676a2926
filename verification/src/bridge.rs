//! The bridge that a host node starts, feeds with events and tears down.

use crate::addr::{
    address_with_port, description_text, ip_of_text, ipv4_of_text, ipv6_of_text, port_of_text,
    scope_of_text, scoped_ipv6_of_text, socket_addr_of_text, AddrParseError, AddressModel,
    IpAddress, ResolvedAddress,
};
use crate::addr_proofs::{
    is_ipv4_char, lemma_bracket_start, lemma_dotless_is_no_ipv4, lemma_ip_text_is_no_socket,
    lemma_ipv4_chars, lemma_ipv6_first_field, lemma_scoped_ipv6_joined,
    lemma_socket_v4_joined, lemma_socket_v6_joined,
};
use crate::text::{is_hex_digit, lemma_first_index_is};
use vstd::prelude::*;
use vstd::string::*;

verus! {

/// Why the bridge could not be set up.
#[derive(Debug, PartialEq, Eq)]
pub enum ChronikError {
    /// A configured host address is neither a socket address nor an IP
    /// address; holds the text as configured.
    InvalidChronikHost(String, AddrParseError),
    /// The runtime could not be created; holds what the system said.
    RuntimeCreation(String),
    /// An address could not be bound; holds the address and what the system
    /// said.
    Bind(ResolvedAddress, String),
}

/// What a `ChronikError` stands for.
pub enum ErrorModel {
    InvalidChronikHost(Seq<char>, AddrParseError),
    RuntimeCreation(Seq<char>),
    Bind(AddressModel, Seq<char>),
}

impl View for ChronikError {
    type V = ErrorModel;

    open spec fn view(&self) -> ErrorModel {
        match *self {
            ChronikError::InvalidChronikHost(host, err) => ErrorModel::InvalidChronikHost(
                host@,
                err,
            ),
            ChronikError::RuntimeCreation(diagnostic) => ErrorModel::RuntimeCreation(diagnostic@),
            ChronikError::Bind(address, diagnostic) => ErrorModel::Bind(address@, diagnostic@),
        }
    }
}

/// What `{:?}` writes for a string: the text between double quotes, with
/// escapes in place of quotes, backslashes and characters that do not print.
pub uninterp spec fn debug_text(s: Seq<char>) -> Seq<char>;

/// Formats a string as `<str as core::fmt::Debug>::fmt` does. The result is
/// taken on trust and only named: nothing else is claimed of it.
#[verifier::external_body]
fn debug_string(s: &str) -> (r: String)
    ensures
        r@ == debug_text(s@),
{
    format!("{:?}", s)
}

/// The message for a host text that did not resolve, around the text as
/// quoted.
pub open spec fn invalid_host_text(quoted: Seq<char>, err: AddrParseError) -> Seq<char> {
    "Invalid Chronik host address "@ + quoted + ": "@ + description_text(err)
}

/// What a setup error says to the host. The errors of the runtime and of
/// binding say what the system said.
pub open spec fn message_text(err: ErrorModel) -> Seq<char> {
    match err {
        ErrorModel::InvalidChronikHost(host, err) => invalid_host_text(debug_text(host), err),
        ErrorModel::RuntimeCreation(diagnostic) => diagnostic,
        ErrorModel::Bind(_, diagnostic) => diagnostic,
    }
}

/// Builds the message for a host text that did not resolve, around the text
/// as quoted.
pub fn invalid_host_message(quoted: &str, err: AddrParseError) -> (r: String)
    ensures
        r@ == invalid_host_text(quoted@, err),
{
    let mut message = String::from_str("Invalid Chronik host address ");
    message.append(quoted);
    message.append(": ");
    message.append(err.description());
    message
}

impl ChronikError {
    /// What to tell the host.
    pub fn message(&self) -> (r: String)
        ensures
            r@ == message_text(self@),
    {
        match self {
            ChronikError::InvalidChronikHost(host, err) => {
                let quoted = debug_string(host.as_str());
                invalid_host_message(quoted.as_str(), *err)
            },
            ChronikError::RuntimeCreation(diagnostic) => diagnostic.clone(),
            ChronikError::Bind(_, diagnostic) => diagnostic.clone(),
        }
    }
}

/// The address that a configured host text stands for: the socket address
/// that it spells out, or else the IP address that it spells out at the
/// default port.
pub open spec fn resolved_of_text(host: Seq<char>, default_port: u16) -> Option<AddressModel> {
    if socket_addr_of_text(host) is Some {
        socket_addr_of_text(host)
    } else if ip_of_text(host) is Some {
        Some(address_with_port(ip_of_text(host).unwrap(), default_port))
    } else {
        None
    }
}

/// Resolves a configured host text. A text that spells out a port keeps it;
/// a bare IP address gets `default_port`; any other text is an error that
/// holds the text.
pub fn parse_socket_addr(host: String, default_port: u16) -> (r: Result<
    ResolvedAddress,
    ChronikError,
>)
    ensures
        match resolved_of_text(host@, default_port) {
            Some(a) => r is Ok && r.unwrap()@ == a,
            None => r is Err && r.unwrap_err()@ == ErrorModel::InvalidChronikHost(
                host@,
                AddrParseError::Ip,
            ),
        },
{
    match ResolvedAddress::parse(host.as_str()) {
        Ok(address) => Ok(address),
        Err(_) => match IpAddress::parse(host.as_str()) {
            Ok(ip) => Ok(ResolvedAddress::new(ip, default_port)),
            Err(err) => Err(ChronikError::InvalidChronikHost(host, err)),
        },
    }
}

/// The texts of a list of strings.
pub open spec fn texts_of(hosts: Seq<String>) -> Seq<Seq<char>> {
    Seq::new(hosts.len(), |i: int| hosts[i]@)
}

/// What a list of addresses stands for.
pub open spec fn models_of(addresses: Seq<ResolvedAddress>) -> Seq<AddressModel> {
    Seq::new(addresses.len(), |i: int| addresses[i]@)
}

/// Index of the first text that does not resolve, or `hosts.len()` when all
/// resolve.
pub open spec fn first_unresolved(hosts: Seq<Seq<char>>, default_port: u16) -> int
    decreases hosts.len(),
{
    if hosts.len() == 0 || resolved_of_text(hosts[0], default_port) is None {
        0
    } else {
        1 + first_unresolved(hosts.drop_first(), default_port)
    }
}

/// The addresses that a list of host texts stands for, in the same order.
pub open spec fn resolved_all(hosts: Seq<Seq<char>>, default_port: u16) -> Seq<AddressModel> {
    Seq::new(hosts.len(), |i: int| resolved_of_text(hosts[i], default_port).unwrap())
}

/// `first_unresolved` is the least index whose text does not resolve.
pub proof fn lemma_first_unresolved(hosts: Seq<Seq<char>>, default_port: u16)
    ensures
        0 <= first_unresolved(hosts, default_port) <= hosts.len(),
        first_unresolved(hosts, default_port) < hosts.len() ==> resolved_of_text(
            hosts[first_unresolved(hosts, default_port)],
            default_port,
        ) is None,
        forall|j: int|
            0 <= j < first_unresolved(hosts, default_port) ==> resolved_of_text(
                #[trigger] hosts[j],
                default_port,
            ) is Some,
    decreases hosts.len(),
{
    if hosts.len() == 0 || resolved_of_text(hosts[0], default_port) is None {
    } else {
        let t = hosts.drop_first();
        lemma_first_unresolved(t, default_port);
        assert forall|j: int| 0 <= j < first_unresolved(hosts, default_port) implies resolved_of_text(
            #[trigger] hosts[j],
            default_port,
        ) is Some by {
            if j > 0 {
                assert(hosts[j] == t[j - 1]);
            }
        }
    }
}

/// Resolves every configured host text, in order. The first text that does
/// not resolve fails the whole list with the error for that text.
pub fn resolve_hosts(hosts: &Vec<String>, default_port: u16) -> (r: Result<
    Vec<ResolvedAddress>,
    ChronikError,
>)
    ensures
        ({
            let texts = texts_of(hosts@);
            let k = first_unresolved(texts, default_port);
            if k == texts.len() {
                r is Ok && models_of(r.unwrap()@) == resolved_all(texts, default_port)
            } else {
                r is Err && r.unwrap_err()@ == ErrorModel::InvalidChronikHost(
                    texts[k],
                    AddrParseError::Ip,
                )
            }
        }),
{
    let ghost texts = texts_of(hosts@);
    proof {
        lemma_first_unresolved(texts, default_port);
    }
    let mut resolved: Vec<ResolvedAddress> = Vec::new();
    let mut i: usize = 0;
    while i < hosts.len()
        invariant
            i <= hosts@.len(),
            texts == texts_of(hosts@),
            resolved@.len() == i,
            i <= first_unresolved(texts, default_port),
            forall|j: int|
                0 <= j < i ==> Some((#[trigger] resolved@[j])@) == resolved_of_text(
                    texts[j],
                    default_port,
                ),
        decreases hosts@.len() - i,
    {
        let ghost k = first_unresolved(texts, default_port);
        proof {
            lemma_first_unresolved(texts, default_port);
        }
        assert(texts[i as int] == hosts@[i as int]@);
        match parse_socket_addr(hosts[i].clone(), default_port) {
            Ok(address) => {
                proof {
                    if k == i {
                        assert(resolved_of_text(texts[k], default_port) is None);
                    }
                }
                resolved.push(address);
            },
            Err(err) => {
                proof {
                    if i < k {
                        assert(resolved_of_text(texts[i as int], default_port) is Some);
                    }
                }
                return Err(err);
            },
        }
        i += 1;
    }
    proof {
        let k = first_unresolved(texts, default_port);
        assert(models_of(resolved@) =~= resolved_all(texts, default_port));
    }
    Ok(resolved)
}

/// A dotted quad, a colon and a port numeral resolve to that address at that
/// port, whatever the default port is.
pub proof fn law_explicit_port_v4(h: Seq<char>, p: Seq<char>, default_port: u16)
    requires
        ipv4_of_text(h) is Some,
        port_of_text(p) is Some,
    ensures
        resolved_of_text(h + seq![':'] + p, default_port) == Some(
            AddressModel::V4 { octets: ipv4_of_text(h).unwrap(), port: port_of_text(p).unwrap() },
        ),
{
    lemma_socket_v4_joined(h, p);
}

/// An IPv6 address in square brackets, a colon and a port numeral resolve to
/// that address at that port with scope 0, whatever the default port is.
pub proof fn law_explicit_port_v6(h: Seq<char>, p: Seq<char>, default_port: u16)
    requires
        ipv6_of_text(h) is Some,
        port_of_text(p) is Some,
    ensures
        resolved_of_text(seq!['['] + h + seq![']', ':'] + p, default_port) == Some(
            AddressModel::V6 {
                segments: ipv6_of_text(h).unwrap(),
                port: port_of_text(p).unwrap(),
                scope_id: 0,
            },
        ),
{
    let s = seq!['['] + h + seq![']', ':'] + p;
    lemma_scoped_ipv6_joined(h, Seq::empty());
    lemma_socket_v6_joined(h, p);
    lemma_bracket_start(s);
}

/// An IPv6 address with a percent sign and a scope numeral, in square
/// brackets, then a colon and a port numeral resolve to that address at that
/// port in that scope, whatever the default port is.
pub proof fn law_explicit_port_scoped_v6(
    h: Seq<char>,
    scope: Seq<char>,
    p: Seq<char>,
    default_port: u16,
)
    requires
        ipv6_of_text(h) is Some,
        scope_of_text(scope) is Some,
        port_of_text(p) is Some,
    ensures
        resolved_of_text(
            seq!['['] + (h + seq!['%'] + scope) + seq![']', ':'] + p,
            default_port,
        ) == Some(
            AddressModel::V6 {
                segments: ipv6_of_text(h).unwrap(),
                port: port_of_text(p).unwrap(),
                scope_id: scope_of_text(scope).unwrap(),
            },
        ),
{
    let inner = h + seq!['%'] + scope;
    let s = seq!['['] + inner + seq![']', ':'] + p;
    lemma_scoped_ipv6_joined(h, scope);
    lemma_socket_v6_joined(inner, p);
    lemma_bracket_start(s);
}

/// A bare IP address text resolves to that address at the default port.
pub proof fn law_default_port(s: Seq<char>, default_port: u16)
    requires
        ip_of_text(s) is Some,
    ensures
        resolved_of_text(s, default_port) == Some(
            address_with_port(ip_of_text(s).unwrap(), default_port),
        ),
{
    lemma_ip_text_is_no_socket(s);
}

/// A dotted quad and a colon before anything but a port numeral do not
/// resolve: a malformed port is never replaced by the default port.
pub proof fn law_malformed_port_v4(h: Seq<char>, p: Seq<char>, default_port: u16)
    requires
        ipv4_of_text(h) is Some,
        port_of_text(p) is None,
    ensures
        resolved_of_text(h + seq![':'] + p, default_port) is None,
{
    let s = h + seq![':'] + p;
    let k = h.len() as int;
    lemma_socket_v4_joined(h, p);
    lemma_ipv4_chars(h);
    if h.len() == 0 {
        lemma_dotless_is_no_ipv4(h);
    }
    assert(s[0] == h[0]);
    assert(is_ipv4_char(h[0]));
    assert(s[k] == ':');
    if ipv4_of_text(s) is Some {
        lemma_ipv4_chars(s);
        assert(is_ipv4_char(s[k]));
    }
    if ipv6_of_text(s) is Some {
        assert forall|i: int| 0 <= i < k implies s[i] != ':' by {
            assert(s[i] == h[i]);
            assert(is_ipv4_char(h[i]));
        }
        lemma_first_index_is(s, ':', k);
        lemma_ipv6_first_field(s);
        assert(s.subrange(0, k) =~= h);
        assert forall|i: int| 0 <= i < h.len() implies h[i] != '.' by {
            assert(is_hex_digit(h[i]));
        }
        lemma_dotless_is_no_ipv4(h);
    }
}

/// A bracketed IPv6 address and a colon before anything but a port numeral
/// do not resolve.
pub proof fn law_malformed_port_v6(inner: Seq<char>, p: Seq<char>, default_port: u16)
    requires
        scoped_ipv6_of_text(inner) is Some,
        port_of_text(p) is None,
    ensures
        resolved_of_text(seq!['['] + inner + seq![']', ':'] + p, default_port) is None,
{
    let s = seq!['['] + inner + seq![']', ':'] + p;
    lemma_socket_v6_joined(inner, p);
    lemma_bracket_start(s);
}

/// What the host configures: the addresses to listen on, as texts, and the
/// port for those that name none.
pub struct SetupParams {
    pub hosts: Vec<String>,
    pub default_port: u16,
}

/// Where the bridge stands between the host's first call and its last.
#[derive(Clone, Copy, Debug, PartialEq, Eq)]
pub enum Phase {
    /// Nothing is set up, or setup failed: no runtime, no listener, no handle.
    Uninitialized,
    /// The addresses are resolved and the runtime was asked for.
    AwaitingRuntime,
    /// The runtime exists and the addresses are being bound, one by one.
    Binding,
    /// Every address listens and the host holds the handle.
    Running,
    /// The host gave the handle back and the background work is stopping.
    Stopping,
    /// All background work has stopped.
    Terminated,
}

/// The handle that the host holds while the bridge runs. Only a completed
/// setup makes one.
#[derive(Debug)]
pub struct Chronik {
    listeners: usize,
}

/// The line that tells of a transaction added to the mempool.
pub open spec fn tx_added_line() -> Seq<char> {
    "Chronik: transaction added to mempool\n"@
}

/// The line that tells of a transaction removed from the mempool.
pub open spec fn tx_removed_line() -> Seq<char> {
    "Chronik: transaction removed from mempool\n"@
}

/// The line that tells of a block connected to the longest chain.
pub open spec fn block_connected_line() -> Seq<char> {
    "Chronik: block connected\n"@
}

/// The line that tells of a block disconnected from the longest chain.
pub open spec fn block_disconnected_line() -> Seq<char> {
    "Chronik: block disconnected\n"@
}

impl Chronik {
    /// The number of addresses that listen for this handle.
    pub closed spec fn listener_count(&self) -> nat {
        self.listeners as nat
    }

    /// The number of addresses that listen for this handle.
    pub fn listeners(&self) -> (r: usize)
        ensures
            r == self.listener_count(),
    {
        self.listeners
    }

    /// Tx added to the node's mempool: gives the line to log.
    pub fn handle_tx_added_to_mempool(&self) -> (line: &'static str)
        ensures
            line@ == tx_added_line(),
    {
        "Chronik: transaction added to mempool\n"
    }

    /// Tx removed from the node's mempool: gives the line to log.
    pub fn handle_tx_removed_from_mempool(&self) -> (line: &'static str)
        ensures
            line@ == tx_removed_line(),
    {
        "Chronik: transaction removed from mempool\n"
    }

    /// Block connected to the longest chain: gives the line to log.
    pub fn handle_block_connected(&self) -> (line: &'static str)
        ensures
            line@ == block_connected_line(),
    {
        "Chronik: block connected\n"
    }

    /// Block disconnected from the longest chain: gives the line to log.
    pub fn handle_block_disconnected(&self) -> (line: &'static str)
        ensures
            line@ == block_disconnected_line(),
    {
        "Chronik: block disconnected\n"
    }
}

/// The decisions of the bridge's life cycle. The caller does the outside work
/// that each `Action` names and reports how it went as the next `Event`.
#[derive(Debug)]
pub struct Bridge {
    phase: Phase,
    hosts: Vec<ResolvedAddress>,
    bound: usize,
}

/// What a `Bridge` stands for: its phase, the addresses to listen on and how
/// many of them listen.
pub struct BridgeModel {
    pub phase: Phase,
    pub hosts: Seq<AddressModel>,
    pub bound: nat,
}

/// What happened outside since the last action.
#[derive(Debug)]
pub enum Event {
    /// The runtime was created.
    RuntimeCreated,
    /// The runtime could not be created; holds what the system said.
    RuntimeFailed(String),
    /// The address of the last `Action::Bind` listens.
    Bound,
    /// The address of the last `Action::Bind` could not be bound; holds what
    /// the system said.
    BindFailed(String),
    /// The serve loop ended with an error; holds what it said.
    ServeFailed(String),
    /// The host gave the handle back.
    DestroyRequested(Chronik),
    /// Every background task has ended.
    BackgroundStopped,
}

/// What an `Event` stands for.
pub enum EventModel {
    RuntimeCreated,
    RuntimeFailed(Seq<char>),
    Bound,
    BindFailed(Seq<char>),
    ServeFailed(Seq<char>),
    DestroyRequested,
    BackgroundStopped,
}

impl View for Event {
    type V = EventModel;

    open spec fn view(&self) -> EventModel {
        match *self {
            Event::RuntimeCreated => EventModel::RuntimeCreated,
            Event::RuntimeFailed(diagnostic) => EventModel::RuntimeFailed(diagnostic@),
            Event::Bound => EventModel::Bound,
            Event::BindFailed(diagnostic) => EventModel::BindFailed(diagnostic@),
            Event::ServeFailed(diagnostic) => EventModel::ServeFailed(diagnostic@),
            Event::DestroyRequested(_) => EventModel::DestroyRequested,
            Event::BackgroundStopped => EventModel::BackgroundStopped,
        }
    }
}

/// The outside work to do next.
#[derive(Debug)]
pub enum Action {
    /// Create the runtime.
    CreateRuntime,
    /// Bind this address and wait until it listens.
    Bind(ResolvedAddress),
    /// Every address listens: start the serve loop in the background, give
    /// the handle to the host and tell it that setup succeeded.
    Serve(Chronik),
    /// Setup failed: close every listener that was bound, drop the runtime
    /// and tell the host why. No handle is made.
    Fail(ChronikError),
    /// Stop all background work and wait until it has ended.
    Shutdown,
    /// The handle is destroyed; return to the host.
    Finished,
    /// The serve loop failed after setup succeeded: end the process; holds
    /// what the serve loop said.
    AbortNode(String),
    /// The event does not belong to the current phase; nothing is to do.
    Ignore,
}

/// What an `Action` stands for. `Serve` holds the number of listeners of the
/// handle.
pub enum ActionModel {
    CreateRuntime,
    Bind(AddressModel),
    Serve(nat),
    Fail(ErrorModel),
    Shutdown,
    Finished,
    AbortNode(Seq<char>),
    Ignore,
}

impl View for Action {
    type V = ActionModel;

    open spec fn view(&self) -> ActionModel {
        match *self {
            Action::CreateRuntime => ActionModel::CreateRuntime,
            Action::Bind(address) => ActionModel::Bind(address@),
            Action::Serve(handle) => ActionModel::Serve(handle.listener_count()),
            Action::Fail(err) => ActionModel::Fail(err@),
            Action::Shutdown => ActionModel::Shutdown,
            Action::Finished => ActionModel::Finished,
            Action::AbortNode(diagnostic) => ActionModel::AbortNode(diagnostic@),
            Action::Ignore => ActionModel::Ignore,
        }
    }
}

/// The phases and the listeners that go together: none listens before
/// binding starts or after the end, all listen while the bridge runs.
pub open spec fn well_formed(b: BridgeModel) -> bool {
    match b.phase {
        Phase::Uninitialized | Phase::AwaitingRuntime | Phase::Terminated => b.bound == 0,
        Phase::Binding => b.bound < b.hosts.len(),
        Phase::Running | Phase::Stopping => b.bound == b.hosts.len(),
    }
}

/// The bridge after an event, and the work to do next. Addresses are bound
/// one by one, in the order configured, and the first that fails ends setup.
/// A configuration without addresses is served without listeners.
pub open spec fn step_model(b: BridgeModel, e: EventModel) -> (BridgeModel, ActionModel) {
    match (b.phase, e) {
        (Phase::AwaitingRuntime, EventModel::RuntimeCreated) => if b.hosts.len() == 0 {
            (BridgeModel { phase: Phase::Running, ..b }, ActionModel::Serve(0))
        } else {
            (BridgeModel { phase: Phase::Binding, ..b }, ActionModel::Bind(b.hosts[0]))
        },
        (Phase::AwaitingRuntime, EventModel::RuntimeFailed(diagnostic)) => (
            BridgeModel { phase: Phase::Uninitialized, ..b },
            ActionModel::Fail(ErrorModel::RuntimeCreation(diagnostic)),
        ),
        (Phase::Binding, EventModel::Bound) => if b.bound + 1 == b.hosts.len() {
            (
                BridgeModel { phase: Phase::Running, bound: b.bound + 1, ..b },
                ActionModel::Serve(b.bound + 1),
            )
        } else {
            (
                BridgeModel { bound: b.bound + 1, ..b },
                ActionModel::Bind(b.hosts[b.bound as int + 1]),
            )
        },
        (Phase::Binding, EventModel::BindFailed(diagnostic)) => (
            BridgeModel { phase: Phase::Uninitialized, bound: 0, ..b },
            ActionModel::Fail(ErrorModel::Bind(b.hosts[b.bound as int], diagnostic)),
        ),
        (Phase::Running, EventModel::ServeFailed(diagnostic)) => (
            BridgeModel { phase: Phase::Terminated, bound: 0, ..b },
            ActionModel::AbortNode(diagnostic),
        ),
        (Phase::Running, EventModel::DestroyRequested) => (
            BridgeModel { phase: Phase::Stopping, ..b },
            ActionModel::Shutdown,
        ),
        (Phase::Stopping, EventModel::BackgroundStopped) => (
            BridgeModel { phase: Phase::Terminated, bound: 0, ..b },
            ActionModel::Finished,
        ),
        _ => (b, ActionModel::Ignore),
    }
}

/// The bridge and the first action for a configuration: with every address
/// resolved, the runtime is asked for; else setup fails with the error of
/// the first text that does not resolve.
pub open spec fn setup_model(hosts: Seq<Seq<char>>, default_port: u16) -> (
    BridgeModel,
    ActionModel,
) {
    let k = first_unresolved(hosts, default_port);
    if k == hosts.len() {
        (
            BridgeModel {
                phase: Phase::AwaitingRuntime,
                hosts: resolved_all(hosts, default_port),
                bound: 0,
            },
            ActionModel::CreateRuntime,
        )
    } else {
        (
            BridgeModel { phase: Phase::Uninitialized, hosts: Seq::empty(), bound: 0 },
            ActionModel::Fail(ErrorModel::InvalidChronikHost(hosts[k], AddrParseError::Ip)),
        )
    }
}

impl View for Bridge {
    type V = BridgeModel;

    closed spec fn view(&self) -> BridgeModel {
        BridgeModel { phase: self.phase, hosts: models_of(self.hosts@), bound: self.bound as nat }
    }
}

impl Bridge {
    #[verifier::type_invariant]
    spec fn inv(self) -> bool {
        well_formed(self@)
    }

    /// The current phase.
    pub fn phase(&self) -> (r: Phase)
        ensures
            r == self@.phase,
    {
        self.phase
    }

    /// The number of addresses to listen on.
    pub fn configured(&self) -> (r: usize)
        ensures
            r == self@.hosts.len(),
    {
        self.hosts.len()
    }

    /// The number of addresses that listen.
    pub fn listeners(&self) -> (r: usize)
        ensures
            r == self@.bound,
    {
        self.bound
    }

    /// Takes in what happened outside and says what to do next.
    pub fn step(self, event: Event) -> (r: (Bridge, Action))
        ensures
            well_formed(self@),
            well_formed(r.0@),
            r.0@ == step_model(self@, event@).0,
            r.1@ == step_model(self@, event@).1,
    {
        proof {
            use_type_invariant(&self);
        }
        let Bridge { phase, hosts, bound } = self;
        let total = hosts.len();
        assert(models_of(hosts@).len() == total);
        match phase {
            Phase::AwaitingRuntime => match event {
                Event::RuntimeCreated => {
                    if total == 0 {
                        (
                            Bridge { phase: Phase::Running, hosts, bound },
                            Action::Serve(Chronik { listeners: 0 }),
                        )
                    } else {
                        let first = hosts[0];
                        (Bridge { phase: Phase::Binding, hosts, bound }, Action::Bind(first))
                    }
                },
                Event::RuntimeFailed(diagnostic) => (
                    Bridge { phase: Phase::Uninitialized, hosts, bound },
                    Action::Fail(ChronikError::RuntimeCreation(diagnostic)),
                ),
                _ => (Bridge { phase, hosts, bound }, Action::Ignore),
            },
            Phase::Binding => match event {
                Event::Bound => {
                    if bound + 1 == total {
                        (
                            Bridge { phase: Phase::Running, hosts, bound: bound + 1 },
                            Action::Serve(Chronik { listeners: bound + 1 }),
                        )
                    } else {
                        let next = hosts[bound + 1];
                        (
                            Bridge { phase: Phase::Binding, hosts, bound: bound + 1 },
                            Action::Bind(next),
                        )
                    }
                },
                Event::BindFailed(diagnostic) => {
                    let failed = hosts[bound];
                    (
                        Bridge { phase: Phase::Uninitialized, hosts, bound: 0 },
                        Action::Fail(ChronikError::Bind(failed, diagnostic)),
                    )
                },
                _ => (Bridge { phase, hosts, bound }, Action::Ignore),
            },
            Phase::Running => match event {
                Event::ServeFailed(diagnostic) => (
                    Bridge { phase: Phase::Terminated, hosts, bound: 0 },
                    Action::AbortNode(diagnostic),
                ),
                Event::DestroyRequested(_) => (
                    Bridge { phase: Phase::Stopping, hosts, bound },
                    Action::Shutdown,
                ),
                _ => (Bridge { phase, hosts, bound }, Action::Ignore),
            },
            Phase::Stopping => match event {
                Event::BackgroundStopped => (
                    Bridge { phase: Phase::Terminated, hosts, bound: 0 },
                    Action::Finished,
                ),
                _ => (Bridge { phase, hosts, bound }, Action::Ignore),
            },
            _ => (Bridge { phase, hosts, bound }, Action::Ignore),
        }
    }
}

/// Starts the setup of the bridge: resolves the configured addresses and
/// says what to do first.
pub fn setup_chronik(params: SetupParams) -> (r: (Bridge, Action))
    ensures
        well_formed(r.0@),
        r.0@ == setup_model(texts_of(params.hosts@), params.default_port).0,
        r.1@ == setup_model(texts_of(params.hosts@), params.default_port).1,
{
    match resolve_hosts(&params.hosts, params.default_port) {
        Ok(hosts) => (Bridge { phase: Phase::AwaitingRuntime, hosts, bound: 0 }, Action::CreateRuntime),
        Err(err) => {
            let bridge = Bridge { phase: Phase::Uninitialized, hosts: Vec::new(), bound: 0 };
            assert(bridge@.hosts =~= Seq::empty());
            (bridge, Action::Fail(err))
        },
    }
}

/// Every step keeps the phases and the listeners together.
pub proof fn law_step_keeps_well_formed(b: BridgeModel, e: EventModel)
    requires
        well_formed(b),
    ensures
        well_formed(step_model(b, e).0),
{
}

/// Setup starts well formed, and with no listener.
pub proof fn law_setup_starts_well_formed(hosts: Seq<Seq<char>>, default_port: u16)
    ensures
        well_formed(setup_model(hosts, default_port).0),
        setup_model(hosts, default_port).0.bound == 0,
{
}

/// Binding is all or nothing: when an address cannot be bound, setup fails
/// with the error for that address, and the bridge is back where nothing is
/// set up and no address listens.
pub proof fn law_bind_failure_leaves_no_listener(b: BridgeModel, diagnostic: Seq<char>)
    requires
        well_formed(b),
        b.phase == Phase::Binding,
    ensures
        step_model(b, EventModel::BindFailed(diagnostic)).0.phase == Phase::Uninitialized,
        step_model(b, EventModel::BindFailed(diagnostic)).0.bound == 0,
        step_model(b, EventModel::BindFailed(diagnostic)).1 == ActionModel::Fail(
            ErrorModel::Bind(b.hosts[b.bound as int], diagnostic),
        ),
{
}

/// Whenever setup fails, nothing is set up afterwards and no address
/// listens.
pub proof fn law_failure_leaves_nothing(b: BridgeModel, e: EventModel)
    requires
        well_formed(b),
        step_model(b, e).1 is Fail,
    ensures
        step_model(b, e).0.phase == Phase::Uninitialized,
        step_model(b, e).0.bound == 0,
{
}

/// A handle is made only in the step that brings the bridge to run, and then
/// every configured address listens.
pub proof fn law_handle_means_all_listen(b: BridgeModel, e: EventModel)
    requires
        well_formed(b),
    ensures
        step_model(b, e).1 is Serve <==> b.phase != Phase::Running && step_model(b, e).0.phase
            == Phase::Running,
        step_model(b, e).1 is Serve ==> step_model(b, e).1 == ActionModel::Serve(b.hosts.len())
            && step_model(b, e).0.bound == b.hosts.len(),
{
}

/// Destroying the handle is done only when all background work has
/// stopped: the bridge ends the destruction in answer to that event alone,
/// and only after the handle was given back.
pub proof fn law_destroy_waits_for_background(b: BridgeModel, e: EventModel)
    ensures
        step_model(b, e).1 is Finished <==> b.phase == Phase::Stopping
            && e is BackgroundStopped,
        step_model(b, e).0.phase == Phase::Stopping ==> b.phase == Phase::Stopping || (b.phase
            == Phase::Running && e is DestroyRequested),
{
}

/// The handle is given back once: the bridge takes that event while it runs
/// and ignores it ever after.
pub proof fn law_destroy_once(b: BridgeModel, e: EventModel)
    requires
        b.phase == Phase::Running,
    ensures
        step_model(b, EventModel::DestroyRequested).1 == ActionModel::Shutdown,
        step_model(step_model(b, EventModel::DestroyRequested).0, EventModel::DestroyRequested)
            == (step_model(b, EventModel::DestroyRequested).0, ActionModel::Ignore),
        step_model(step_model(b, EventModel::DestroyRequested).0, e).0.phase != Phase::Running,
{
}

/// After the end nothing happens any more.
pub proof fn law_terminated_is_final(b: BridgeModel, e: EventModel)
    requires
        b.phase == Phase::Terminated,
    ensures
        step_model(b, e) == (b, ActionModel::Ignore),
{
}

} // verus!
