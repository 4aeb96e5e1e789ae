//! What a node is told on its command line.
use crate::node::printed;
use crate::peer::{address_form, Address};
use crate::span::{push_span, span_text};
use crate::text::{
    decimal, number_fault, number_in, number_up_to, parse_number, push_decimal, texts, trim_text,
    trimmed, NumberFault,
};
use crate::utf8::same_text;
use vstd::prelude::*;

verus! {

/// How often a node announces that it is still here.
///
/// Must be comfortably shorter than the detection threshold, so that losing a
/// single heartbeat to ordinary packet loss does not look like a dead machine.
pub const DEFAULT_HEARTBEAT_MS: u64 = 1_000;

/// How long a node may go silent before it is presumed gone.
///
/// Deliberately generous: the cost of deciding too early is that the mesh
/// migrates work every time a wifi link stutters.
pub const DEFAULT_DETECT_MS: u64 = 3_000;

/// How often a quiet connection is poked to stop a router forgetting it.
///
/// The mobile connection tested forgot an idle mapping somewhere between 120 and
/// 300 seconds, so this leaves better than a twofold margin.
///
/// This is a different job from the heartbeat, and the separation is the point.
/// Heartbeats run every second because that is what makes an unannounced
/// disappearance visible within three; keepalives run rarely because their only
/// purpose is stopping a router forgetting a path.
pub const DEFAULT_KEEPALIVE_MS: u64 = 55_000;

/// How often the node running a job advances it.
pub const DEFAULT_JOB_TICK_MS: u64 = 200;

/// The port a node listens on unless told otherwise.
///
/// Fixed rather than chosen by the system, and that is what makes a node
/// findable. A router that preserves port numbers then maps this to the same
/// external port every time, so a peer's address survives restarts and can be
/// remembered.
pub const DEFAULT_PORT: u16 = 4001;

/// How often a node repeats what it can see, for anyone who has since arrived,
/// in seconds.
pub const ANNOUNCE_EVERY_SECS: u64 = 30;

/// How often to try a peer that has not answered yet, in seconds.
pub const DIAL_RETRY_SECS: u64 = 2;

/// How many ticks a job is run for locally unless told otherwise.
pub const DEFAULT_TICKS: u64 = 20;

/// The topic nodes of one mesh publish to.
pub open spec fn topic(mesh: Seq<char>) -> Seq<char> {
    "machine-elves/"@ + mesh + "/heartbeat/0.1"@
}

/// The topic nodes of one mesh publish to, namespaced by the mesh's name.
///
/// Nodes only ever see each other through this topic, so two meshes on the same
/// network with different names are genuinely separate: they discover each
/// other's addresses and then ignore each other entirely.
pub fn heartbeat_topic(mesh: &str) -> (text: String)
    ensures
        text@ == topic(mesh@),
{
    let mut text = "machine-elves/".to_owned();
    text.push_str(mesh);
    text.push_str("/heartbeat/0.1");
    text
}

/// Different meshes never share a topic.
pub proof fn different_meshes_never_share_a_topic(a: Seq<char>, b: Seq<char>)
    requires
        a != b,
    ensures
        topic(a) != topic(b),
{
    let (head, tail) = ("machine-elves/"@, "/heartbeat/0.1"@);
    if topic(a) == topic(b) {
        assert(topic(a).len() == head.len() + a.len() + tail.len());
        assert(topic(b).len() == head.len() + b.len() + tail.len());
        assert(topic(a).subrange(head.len() as int, (head.len() + a.len()) as int) =~= a);
        assert(topic(b).subrange(head.len() as int, (head.len() + a.len()) as int) =~= b);
    }
}

/// The name of a node that was given none: that of its machine, if the machine
/// has one.
pub open spec fn default_label(hostname: Option<Seq<char>>) -> Seq<char> {
    match hostname {
        Some(name) => trimmed(name),
        None => "unlabelled"@,
    }
}

/// The name of a node that was given none.
pub fn label_from(hostname: Option<String>) -> (label: String)
    ensures
        label@ == default_label(
            match hostname {
                Some(name) => Some(name@),
                None => None,
            },
        ),
{
    match hostname {
        Some(name) => trim_text(&name),
        None => "unlabelled".to_owned(),
    }
}

/// What a node is told.
pub struct Config {
    pub label: String,
    pub listen: Vec<Address>,
    pub dial: Vec<Address>,
    pub heartbeat_ms: u64,
    pub detect_ms: u64,
    pub json: bool,
    /// A job every node in the mesh holds. One of them runs it; the rest stand
    /// ready to continue it.
    pub job: Option<String>,
    pub job_tick_ms: u64,
    pub keepalive_ms: u64,
    /// Which mesh this node belongs to. Nodes in different meshes ignore one
    /// another completely.
    pub mesh: String,
    pub port: u16,
    /// Whether to ask the router to forward this node's port.
    ///
    /// On by default. A mesh where nobody is reachable cannot admit anyone it
    /// is not already connected to, so a node that never asks makes the whole
    /// arrangement depend on somebody else having asked.
    pub map_port: bool,
    /// Local-network discovery. Off is a supported way to run: many machines
    /// disable it.
    pub mdns: bool,
    /// Whether this node starts as the one running the job.
    pub own: bool,
}

/// What a node is told, as values.
#[verifier::ext_equal]
pub struct Settings {
    pub label: Seq<char>,
    pub listen: Seq<Seq<char>>,
    pub dial: Seq<Seq<char>>,
    pub heartbeat_ms: u64,
    pub detect_ms: u64,
    pub json: bool,
    pub job: Option<Seq<char>>,
    pub job_tick_ms: u64,
    pub keepalive_ms: u64,
    pub mesh: Seq<char>,
    pub port: u16,
    pub map_port: bool,
    pub mdns: bool,
    pub own: bool,
}

impl View for Config {
    type V = Settings;

    open spec fn view(&self) -> Settings {
        Settings {
            label: self.label@,
            listen: printed(self.listen@),
            dial: printed(self.dial@),
            heartbeat_ms: self.heartbeat_ms,
            detect_ms: self.detect_ms,
            json: self.json,
            job: match self.job {
                Some(job) => Some(job@),
                None => None,
            },
            job_tick_ms: self.job_tick_ms,
            keepalive_ms: self.keepalive_ms,
            mesh: self.mesh@,
            port: self.port,
            map_port: self.map_port,
            mdns: self.mdns,
            own: self.own,
        }
    }
}

/// Why a node cannot be told this.
#[derive(Debug)]
pub enum SettingsError {
    /// A word that wants something behind it has nothing there.
    Missing(String),
    BadAddress(String),
    BadNumber(NumberFault),
    Unknown(String),
    /// A single lost heartbeat would look like a dead machine.
    TooRare { heartbeat_ms: u64, detect_ms: u64 },
}

/// Why a node cannot be told this, as values.
#[verifier::ext_equal]
pub enum Fault {
    Missing(Seq<char>),
    BadAddress(Seq<char>),
    BadNumber(NumberFault),
    Unknown(Seq<char>),
    TooRare { heartbeat_ms: u64, detect_ms: u64 },
}

impl View for SettingsError {
    type V = Fault;

    open spec fn view(&self) -> Fault {
        match self {
            SettingsError::Missing(what) => Fault::Missing(what@),
            SettingsError::BadAddress(why) => Fault::BadAddress(why@),
            SettingsError::BadNumber(fault) => Fault::BadNumber(*fault),
            SettingsError::Unknown(arg) => Fault::Unknown(arg@),
            SettingsError::TooRare { heartbeat_ms, detect_ms } => Fault::TooRare {
                heartbeat_ms: *heartbeat_ms,
                detect_ms: *detect_ms,
            },
        }
    }
}

impl Fault {
    /// The reason in words.
    pub open spec fn message(self) -> Seq<char> {
        match self {
            Fault::Missing(what) => what,
            Fault::BadAddress(why) => why,
            Fault::BadNumber(fault) => fault.spec_message(),
            Fault::Unknown(arg) => "unknown argument: "@ + arg,
            Fault::TooRare { heartbeat_ms, detect_ms } => "heartbeat ("@ + span_text(
                heartbeat_ms as nat * 1_000_000,
            ) + ") must be at most half the detection threshold ("@ + span_text(
                detect_ms as nat * 1_000_000,
            ) + "), or a single lost packet looks like a dead machine"@,
        }
    }
}

impl SettingsError {
    /// The reason in words.
    pub fn message(&self) -> (text: String)
        ensures
            text@ == self@.message(),
    {
        match self {
            SettingsError::Missing(what) => what.clone(),
            SettingsError::BadAddress(why) => why.clone(),
            SettingsError::BadNumber(fault) => fault.message().to_owned(),
            SettingsError::Unknown(arg) => {
                let mut text = "unknown argument: ".to_owned();
                text.push_str(arg);
                text
            },
            SettingsError::TooRare { heartbeat_ms, detect_ms } => {
                let mut text = "heartbeat (".to_owned();
                push_span(&mut text, *heartbeat_ms as u128 * 1_000_000);
                text.push_str(") must be at most half the detection threshold (");
                push_span(&mut text, *detect_ms as u128 * 1_000_000);
                text.push_str("), or a single lost packet looks like a dead machine");
                text
            },
        }
    }
}

/// What is said where a word that wants something behind it has nothing there;
/// nothing where the word wants nothing.
pub open spec fn wanted(word: Seq<char>) -> Option<Seq<char>> {
    if word == "--label"@ {
        Some("--label needs a name"@)
    } else if word == "--listen"@ {
        Some("--listen needs an address"@)
    } else if word == "--peer"@ {
        Some("--peer needs an address"@)
    } else if word == "--heartbeat-ms"@ {
        Some("--heartbeat-ms needs a number"@)
    } else if word == "--detect-ms"@ {
        Some("--detect-ms needs a number"@)
    } else if word == "--job"@ {
        Some("--job needs a path"@)
    } else if word == "--mesh"@ {
        Some("--mesh needs a name"@)
    } else if word == "--port"@ {
        Some("--port needs a number"@)
    } else if word == "--keepalive-ms"@ {
        Some("--keepalive-ms needs a number"@)
    } else if word == "--job-tick-ms"@ {
        Some("--job-tick-ms needs a number"@)
    } else {
        None
    }
}

/// Whether `word` asks for help.
pub open spec fn asks_help(word: Seq<char>) -> bool {
    word == "--help"@ || word == "-h"@
}

/// What a word that stands alone changes.
pub open spec fn switched(c: Settings, word: Seq<char>) -> Result<Settings, Fault> {
    if word == "--json"@ {
        Ok(Settings { json: true, ..c })
    } else if word == "--own"@ {
        Ok(Settings { own: true, ..c })
    } else if word == "--no-mdns"@ {
        Ok(Settings { mdns: false, ..c })
    } else if word == "--no-map-port"@ {
        Ok(Settings { map_port: false, ..c })
    } else {
        Err(Fault::Unknown(word))
    }
}

/// A number up to `max`, or why there is none.
pub open spec fn number_for(value: Seq<char>, max: nat) -> Result<nat, Fault> {
    match number_in(value, 10, max) {
        Ok(n) => Ok(n),
        Err(fault) => Err(Fault::BadNumber(fault)),
    }
}

/// What a word changes with `value` behind it.
pub open spec fn told(c: Settings, word: Seq<char>, value: Seq<char>) -> Result<Settings, Fault> {
    let count = number_for(value, u64::MAX as nat);
    if word == "--label"@ {
        Ok(Settings { label: value, ..c })
    } else if word == "--listen"@ {
        match address_form(value) {
            Ok(addr) => Ok(Settings { listen: c.listen.push(addr), ..c }),
            Err(why) => Err(Fault::BadAddress(why)),
        }
    } else if word == "--peer"@ {
        match address_form(value) {
            Ok(addr) => Ok(Settings { dial: c.dial.push(addr), ..c }),
            Err(why) => Err(Fault::BadAddress(why)),
        }
    } else if word == "--job"@ {
        Ok(Settings { job: Some(value), ..c })
    } else if word == "--mesh"@ {
        Ok(Settings { mesh: value, ..c })
    } else if word == "--port"@ {
        match number_for(value, u16::MAX as nat) {
            Ok(n) => Ok(Settings { port: n as u16, ..c }),
            Err(fault) => Err(fault),
        }
    } else {
        match count {
            Err(fault) => Err(fault),
            Ok(n) => if word == "--heartbeat-ms"@ {
                Ok(Settings { heartbeat_ms: n as u64, ..c })
            } else if word == "--detect-ms"@ {
                Ok(Settings { detect_ms: n as u64, ..c })
            } else if word == "--keepalive-ms"@ {
                Ok(Settings { keepalive_ms: n as u64, ..c })
            } else {
                Ok(Settings { job_tick_ms: n as u64, ..c })
            },
        }
    }
}

/// What the words from `at` on make of `c`: settings, a call for help, or the
/// first thing that is wrong.
pub open spec fn understood(c: Settings, args: Seq<Seq<char>>, at: int) -> Result<
    Option<Settings>,
    Fault,
>
    decreases args.len() - at,
{
    if at < 0 || at >= args.len() {
        Ok(Some(c))
    } else if asks_help(args[at]) {
        Ok(None)
    } else {
        match wanted(args[at]) {
            Some(what) => if at + 1 >= args.len() {
                Err(Fault::Missing(what))
            } else {
                match told(c, args[at], args[at + 1]) {
                    Ok(next) => understood(next, args, at + 2),
                    Err(fault) => Err(fault),
                }
            },
            None => match switched(c, args[at]) {
                Ok(next) => understood(next, args, at + 1),
                Err(fault) => Err(fault),
            },
        }
    }
}

/// Where a node listens unless told otherwise.
///
/// QUIC first: it establishes in fewer round trips and is friendlier to the
/// address translation most players sit behind. TCP is kept as the fallback for
/// networks that block or mangle UDP. And both families: a peer with a global
/// IPv6 address has no translation in front of it, and the two families cannot
/// address each other at all.
pub open spec fn default_listen(port: u16) -> Seq<Seq<char>> {
    seq![
        "/ip4/0.0.0.0/udp/"@ + decimal(port as nat) + "/quic-v1"@,
        "/ip4/0.0.0.0/tcp/"@ + decimal(port as nat),
        "/ip6/::/udp/"@ + decimal(port as nat) + "/quic-v1"@,
        "/ip6/::/tcp/"@ + decimal(port as nat),
    ]
}

/// Addresses read one after the other, or the first thing that is wrong.
pub open spec fn addresses_in(from: Seq<Seq<char>>) -> Result<Seq<Seq<char>>, Fault>
    decreases from.len(),
{
    if from.len() == 0 {
        Ok(Seq::empty())
    } else {
        match addresses_in(from.drop_last()) {
            Err(fault) => Err(fault),
            Ok(before) => match address_form(from.last()) {
                Ok(addr) => Ok(before.push(addr)),
                Err(why) => Err(Fault::BadAddress(why)),
            },
        }
    }
}

/// Settings with everything filled in and checked: somewhere to listen, and
/// heartbeats that leave room for a lost packet.
pub open spec fn completed(c: Settings) -> Result<Settings, Fault> {
    let listen = if c.listen.len() == 0 {
        addresses_in(default_listen(c.port))
    } else {
        Ok(c.listen)
    };
    match listen {
        Err(fault) => Err(fault),
        Ok(listen) => if c.heartbeat_ms * 2 <= c.detect_ms {
            Ok(Settings { listen, ..c })
        } else {
            Err(Fault::TooRare { heartbeat_ms: c.heartbeat_ms, detect_ms: c.detect_ms })
        },
    }
}

/// What a node does that is told nothing.
pub open spec fn untold(label: Seq<char>) -> Settings {
    Settings {
        label,
        listen: Seq::empty(),
        dial: Seq::empty(),
        heartbeat_ms: DEFAULT_HEARTBEAT_MS,
        detect_ms: DEFAULT_DETECT_MS,
        json: false,
        job: None,
        job_tick_ms: DEFAULT_JOB_TICK_MS,
        keepalive_ms: DEFAULT_KEEPALIVE_MS,
        mesh: "default"@,
        port: DEFAULT_PORT,
        map_port: true,
        mdns: true,
        own: false,
    }
}

/// What a command line says: settings, a call for help, or what is wrong with
/// it.
pub open spec fn command(label: Seq<char>, args: Seq<Seq<char>>) -> Result<
    Option<Settings>,
    Fault,
> {
    match understood(untold(label), args, 0) {
        Err(fault) => Err(fault),
        Ok(None) => Ok(None),
        Ok(Some(c)) => match completed(c) {
            Ok(c) => Ok(Some(c)),
            Err(fault) => Err(fault),
        },
    }
}

/// What was read of a command line, as values.
pub open spec fn command_read(res: Result<Option<Config>, SettingsError>) -> Result<
    Option<Settings>,
    Fault,
> {
    match res {
        Ok(Some(config)) => Ok(Some(config@)),
        Ok(None) => Ok(None),
        Err(error) => Err(error@),
    }
}

/// The literal that `wanted` has for a word.
fn want(word: &str) -> (what: Option<&'static str>)
    ensures
        match what {
            Some(what) => wanted(word@) == Some(what@),
            None => wanted(word@) is None,
        },
{
    if same_text(word, "--label") {
        Some("--label needs a name")
    } else if same_text(word, "--listen") {
        Some("--listen needs an address")
    } else if same_text(word, "--peer") {
        Some("--peer needs an address")
    } else if same_text(word, "--heartbeat-ms") {
        Some("--heartbeat-ms needs a number")
    } else if same_text(word, "--detect-ms") {
        Some("--detect-ms needs a number")
    } else if same_text(word, "--job") {
        Some("--job needs a path")
    } else if same_text(word, "--mesh") {
        Some("--mesh needs a name")
    } else if same_text(word, "--port") {
        Some("--port needs a number")
    } else if same_text(word, "--keepalive-ms") {
        Some("--keepalive-ms needs a number")
    } else if same_text(word, "--job-tick-ms") {
        Some("--job-tick-ms needs a number")
    } else {
        None
    }
}

/// Reads an address into a list.
fn add_address(list: &mut Vec<Address>, text: &str) -> (res: Result<(), SettingsError>)
    ensures
        match res {
            Ok(_) => {
                &&& address_form(text@) is Ok
                &&& printed(final(list)@) == printed(old(list)@).push(address_form(text@)->Ok_0)
            },
            Err(error) => {
                &&& address_form(text@) is Err
                &&& error@ == Fault::BadAddress(address_form(text@)->Err_0)
            },
        },
{
    match Address::parse(text) {
        Ok(addr) => {
            list.push(addr);
            assert(printed(list@) =~= printed(old(list)@).push(addr@));
            Ok(())
        },
        Err(why) => Err(SettingsError::BadAddress(why)),
    }
}

/// Reads a number up to `max`.
fn read_count(text: &str, max: u64) -> (res: Result<u64, SettingsError>)
    ensures
        match res {
            Ok(n) => number_for(text@, max as nat) == Ok::<_, Fault>(n as nat) && n <= max,
            Err(error) => number_for(text@, max as nat) == Err::<nat, _>(error@),
        },
{
    match parse_number(text, 10, max) {
        Ok(n) => Ok(n),
        Err(fault) => Err(SettingsError::BadNumber(fault)),
    }
}

/// Changes what a word with `value` behind it changes.
fn tell(config: &mut Config, word: &str, value: &str) -> (res: Result<(), SettingsError>)
    requires
        wanted(word@) is Some,
    ensures
        match res {
            Ok(_) => told(old(config)@, word@, value@) == Ok::<_, Fault>(final(config)@),
            Err(error) => told(old(config)@, word@, value@) == Err::<Settings, _>(error@),
        },
{
    if same_text(word, "--label") {
        config.label = value.to_owned();
        Ok(())
    } else if same_text(word, "--listen") {
        add_address(&mut config.listen, value)
    } else if same_text(word, "--peer") {
        add_address(&mut config.dial, value)
    } else if same_text(word, "--job") {
        config.job = Some(value.to_owned());
        Ok(())
    } else if same_text(word, "--mesh") {
        config.mesh = value.to_owned();
        Ok(())
    } else if same_text(word, "--port") {
        match read_count(value, u16::MAX as u64) {
            Ok(n) => {
                config.port = n as u16;
                Ok(())
            },
            Err(error) => Err(error),
        }
    } else {
        match read_count(value, u64::MAX) {
            Ok(n) => {
                if same_text(word, "--heartbeat-ms") {
                    config.heartbeat_ms = n;
                } else if same_text(word, "--detect-ms") {
                    config.detect_ms = n;
                } else if same_text(word, "--keepalive-ms") {
                    config.keepalive_ms = n;
                } else {
                    config.job_tick_ms = n;
                }
                Ok(())
            },
            Err(error) => Err(error),
        }
    }
}

/// Changes what a word that stands alone changes.
fn switch(config: &mut Config, word: &str) -> (res: Result<(), SettingsError>)
    ensures
        match res {
            Ok(_) => switched(old(config)@, word@) == Ok::<_, Fault>(final(config)@),
            Err(error) => switched(old(config)@, word@) == Err::<Settings, _>(error@),
        },
{
    if same_text(word, "--json") {
        config.json = true;
    } else if same_text(word, "--own") {
        config.own = true;
    } else if same_text(word, "--no-mdns") {
        config.mdns = false;
    } else if same_text(word, "--no-map-port") {
        config.map_port = false;
    } else {
        return Err(SettingsError::Unknown(word.to_owned()));
    }
    Ok(())
}

/// Fills in what was not told, and checks what was.
fn complete(given: Config) -> (res: Result<Config, SettingsError>)
    ensures
        match res {
            Ok(done) => completed(given@) == Ok::<_, Fault>(done@),
            Err(error) => completed(given@) == Err::<Settings, _>(error@),
        },
{
    let ghost before = given@;
    let mut config = given;
    if config.listen.len() == 0 {
        let port = config.port;
        let ghost all = default_listen(port);
        let mut quic4 = "/ip4/0.0.0.0/udp/".to_owned();
        push_decimal(&mut quic4, port as u128);
        quic4.push_str("/quic-v1");
        let mut tcp4 = "/ip4/0.0.0.0/tcp/".to_owned();
        push_decimal(&mut tcp4, port as u128);
        let mut quic6 = "/ip6/::/udp/".to_owned();
        push_decimal(&mut quic6, port as u128);
        quic6.push_str("/quic-v1");
        let mut tcp6 = "/ip6/::/tcp/".to_owned();
        push_decimal(&mut tcp6, port as u128);
        let defaults: Vec<String> = vec![quic4, tcp4, quic6, tcp6];
        assert(texts(defaults@) =~= all);
        let mut at: usize = 0;
        assert(all.take(0) =~= Seq::<Seq<char>>::empty());
        assert(printed(config.listen@) =~= Seq::<Seq<char>>::empty());
        while at < defaults.len()
            invariant
                at <= defaults@.len(),
                texts(defaults@) == all,
                all == default_listen(before.port),
                before == given@,
                before.listen.len() == 0,
                config@ == (Settings { listen: printed(config.listen@), ..before }),
                addresses_in(all.take(at as int)) == Ok::<_, Fault>(printed(config.listen@)),
                completed(before) == (match addresses_in(all) {
                    Err(fault) => Err::<Settings, Fault>(fault),
                    Ok(listen) => if before.heartbeat_ms * 2 <= before.detect_ms {
                        Ok(Settings { listen, ..before })
                    } else {
                        Err(
                            Fault::TooRare {
                                heartbeat_ms: before.heartbeat_ms,
                                detect_ms: before.detect_ms,
                            },
                        )
                    },
                }),
            decreases defaults@.len() - at,
        {
            proof {
                assert(all.take(at + 1).drop_last() =~= all.take(at as int));
                assert(texts(defaults@)[at as int] == defaults@[at as int]@);
                assert(all.take(at + 1).last() == defaults@[at as int]@);
            }
            match add_address(&mut config.listen, &defaults[at]) {
                Ok(_) => {},
                Err(error) => {
                    proof {
                        lemma_first_fault_counts(all, at + 1);
                    }
                    return Err(error);
                },
            }
            at += 1;
        }
        assert(all.take(at as int) =~= all);
    }
    if config.heartbeat_ms as u128 * 2 <= config.detect_ms as u128 {
        Ok(config)
    } else {
        Err(
            SettingsError::TooRare {
                heartbeat_ms: config.heartbeat_ms,
                detect_ms: config.detect_ms,
            },
        )
    }
}

/// Where the first addresses of a list are wrong, the list is wrong in the same
/// way.
proof fn lemma_first_fault_counts(from: Seq<Seq<char>>, k: int)
    requires
        0 <= k <= from.len(),
        addresses_in(from.take(k)) is Err,
    ensures
        addresses_in(from) == addresses_in(from.take(k)),
    decreases from.len(),
{
    if k == from.len() {
        assert(from.take(k) =~= from);
    } else {
        assert(from.drop_last().take(k) =~= from.take(k));
        lemma_first_fault_counts(from.drop_last(), k);
    }
}

/// Reads a command line, without the name of the program. `label` is what the
/// node is called unless told otherwise. Gives nothing where help is asked for.
pub fn parse_args(label: String, args: &[String]) -> (res: Result<Option<Config>, SettingsError>)
    ensures
        command_read(res) == command(label@, texts(args@)),
{
    let mut config = Config {
        label,
        listen: Vec::new(),
        dial: Vec::new(),
        heartbeat_ms: DEFAULT_HEARTBEAT_MS,
        detect_ms: DEFAULT_DETECT_MS,
        json: false,
        job: None,
        job_tick_ms: DEFAULT_JOB_TICK_MS,
        keepalive_ms: DEFAULT_KEEPALIVE_MS,
        mesh: "default".to_owned(),
        port: DEFAULT_PORT,
        map_port: true,
        mdns: true,
        own: false,
    };
    let ghost start = untold(label@);
    let ghost words = texts(args@);
    assert(config@ =~= start);
    let end = args.len();
    let mut at: usize = 0;
    while at < end
        invariant
            end == args@.len(),
            at <= end,
            words == texts(args@),
            start == untold(label@),
            understood(start, words, 0) == understood(config@, words, at as int),
        decreases end - at,
    {
        let word: &str = args[at].as_str();
        assert(words[at as int] == word@);
        if same_text(word, "--help") || same_text(word, "-h") {
            return Ok(None);
        }
        match want(word) {
            Some(what) => {
                if end - at < 2 {
                    return Err(SettingsError::Missing(what.to_owned()));
                }
                assert(words[at + 1] == args@[at + 1]@);
                match tell(&mut config, word, args[at + 1].as_str()) {
                    Ok(_) => {},
                    Err(error) => return Err(error),
                }
                at += 2;
            },
            None => {
                match switch(&mut config, word) {
                    Ok(_) => {},
                    Err(error) => return Err(error),
                }
                at += 1;
            },
        }
    }
    match complete(config) {
        Ok(config) => Ok(Some(config)),
        Err(error) => Err(error),
    }
}

/// Whatever a command line says, the settings that come of it leave room for a
/// lost packet: at least two heartbeats fit into the detection window.
pub proof fn heartbeats_leave_room_for_a_lost_packet(label: Seq<char>, args: Seq<Seq<char>>)
    ensures
        command(label, args) matches Ok(Some(c)) ==> c.heartbeat_ms * 2 <= c.detect_ms,
{
}

/// What is to be run locally: a path, and for how many ticks.
pub open spec fn local_run(args: Seq<Seq<char>>) -> Result<Option<(Seq<char>, u64)>, Fault> {
    if !args.contains("--run-job"@) {
        Ok(None)
    } else {
        let at = first_of(args, "--run-job"@);
        if at + 1 >= args.len() {
            Err(Fault::Missing("--run-job needs a path to a .wasm"@))
        } else {
            let path = args[at + 1];
            let count = first_of(args, "--ticks"@);
            if count + 1 >= args.len() {
                Ok(Some((path, DEFAULT_TICKS)))
            } else {
                match number_for(args[count + 1], u64::MAX as nat) {
                    Ok(n) => Ok(Some((path, n as u64))),
                    Err(fault) => Err(fault),
                }
            }
        }
    }
}

/// Where `word` first stands among `args`, and behind their end if it does not.
pub open spec fn first_of(args: Seq<Seq<char>>, word: Seq<char>) -> int
    decreases args.len(),
{
    if args.len() == 0 {
        0
    } else if args[0] == word {
        0
    } else {
        1 + first_of(args.drop_first(), word)
    }
}

fn find_word(args: &[String], word: &str) -> (at: usize)
    ensures
        at == first_of(texts(args@), word@),
        at <= args@.len(),
        at < args@.len() <==> texts(args@).contains(word@),
{
    let ghost words = texts(args@);
    let mut at: usize = 0;
    assert(words.skip(0) =~= words);
    while at < args.len()
        invariant
            at <= args@.len(),
            words == texts(args@),
            first_of(words, word@) == at + first_of(words.skip(at as int), word@),
            forall|i: int| 0 <= i < at ==> #[trigger] words[i] != word@,
        decreases args@.len() - at,
    {
        proof {
            assert(words.skip(at as int).drop_first() =~= words.skip(at + 1));
            assert(words.skip(at as int)[0] == args@[at as int]@);
        }
        if same_text(args[at].as_str(), word) {
            assert(words[at as int] == word@);
            return at;
        }
        at += 1;
    }
    at
}

/// What was read of a local run, as values.
pub open spec fn local_run_read(res: Result<Option<(String, u64)>, SettingsError>) -> Result<
    Option<(Seq<char>, u64)>,
    Fault,
> {
    match res {
        Ok(Some((path, ticks))) => Ok(Some((path@, ticks))),
        Ok(None) => Ok(None),
        Err(error) => Err(error@),
    }
}

/// Reads whether a job is to be run locally, and how. Running a job takes no
/// network and no peers, so it is asked for before anything else is looked at.
pub fn parse_local_run(args: &[String]) -> (res: Result<Option<(String, u64)>, SettingsError>)
    ensures
        local_run_read(res) == local_run(texts(args@)),
{
    let at = find_word(args, "--run-job");
    let end = args.len();
    if at >= end {
        return Ok(None);
    }
    if end - at < 2 {
        return Err(SettingsError::Missing("--run-job needs a path to a .wasm".to_owned()));
    }
    let path = args[at + 1].clone();
    assert(texts(args@)[at + 1] == path@);
    let count = find_word(args, "--ticks");
    if count >= end || end - count < 2 {
        return Ok(Some((path, DEFAULT_TICKS)));
    }
    assert(texts(args@)[count + 1] == args@[count + 1]@);
    match read_count(args[count + 1].as_str(), u64::MAX) {
        Ok(n) => Ok(Some((path, n))),
        Err(error) => Err(error),
    }
}

/// No two of the words are the same.
proof fn lemma_words_differ()
    ensures
        "--label"@ != "--listen"@,
        "--label"@ != "--peer"@,
        "--label"@ != "--heartbeat-ms"@,
        "--label"@ != "--detect-ms"@,
        "--label"@ != "--job"@,
        "--label"@ != "--mesh"@,
        "--label"@ != "--port"@,
        "--label"@ != "--keepalive-ms"@,
        "--label"@ != "--job-tick-ms"@,
        "--label"@ != "--json"@,
        "--label"@ != "--own"@,
        "--label"@ != "--no-mdns"@,
        "--label"@ != "--no-map-port"@,
        "--label"@ != "--help"@,
        "--label"@ != "-h"@,
        "--listen"@ != "--peer"@,
        "--listen"@ != "--heartbeat-ms"@,
        "--listen"@ != "--detect-ms"@,
        "--listen"@ != "--job"@,
        "--listen"@ != "--mesh"@,
        "--listen"@ != "--port"@,
        "--listen"@ != "--keepalive-ms"@,
        "--listen"@ != "--job-tick-ms"@,
        "--listen"@ != "--json"@,
        "--listen"@ != "--own"@,
        "--listen"@ != "--no-mdns"@,
        "--listen"@ != "--no-map-port"@,
        "--listen"@ != "--help"@,
        "--listen"@ != "-h"@,
        "--peer"@ != "--heartbeat-ms"@,
        "--peer"@ != "--detect-ms"@,
        "--peer"@ != "--job"@,
        "--peer"@ != "--mesh"@,
        "--peer"@ != "--port"@,
        "--peer"@ != "--keepalive-ms"@,
        "--peer"@ != "--job-tick-ms"@,
        "--peer"@ != "--json"@,
        "--peer"@ != "--own"@,
        "--peer"@ != "--no-mdns"@,
        "--peer"@ != "--no-map-port"@,
        "--peer"@ != "--help"@,
        "--peer"@ != "-h"@,
        "--heartbeat-ms"@ != "--detect-ms"@,
        "--heartbeat-ms"@ != "--job"@,
        "--heartbeat-ms"@ != "--mesh"@,
        "--heartbeat-ms"@ != "--port"@,
        "--heartbeat-ms"@ != "--keepalive-ms"@,
        "--heartbeat-ms"@ != "--job-tick-ms"@,
        "--heartbeat-ms"@ != "--json"@,
        "--heartbeat-ms"@ != "--own"@,
        "--heartbeat-ms"@ != "--no-mdns"@,
        "--heartbeat-ms"@ != "--no-map-port"@,
        "--heartbeat-ms"@ != "--help"@,
        "--heartbeat-ms"@ != "-h"@,
        "--detect-ms"@ != "--job"@,
        "--detect-ms"@ != "--mesh"@,
        "--detect-ms"@ != "--port"@,
        "--detect-ms"@ != "--keepalive-ms"@,
        "--detect-ms"@ != "--job-tick-ms"@,
        "--detect-ms"@ != "--json"@,
        "--detect-ms"@ != "--own"@,
        "--detect-ms"@ != "--no-mdns"@,
        "--detect-ms"@ != "--no-map-port"@,
        "--detect-ms"@ != "--help"@,
        "--detect-ms"@ != "-h"@,
        "--job"@ != "--mesh"@,
        "--job"@ != "--port"@,
        "--job"@ != "--keepalive-ms"@,
        "--job"@ != "--job-tick-ms"@,
        "--job"@ != "--json"@,
        "--job"@ != "--own"@,
        "--job"@ != "--no-mdns"@,
        "--job"@ != "--no-map-port"@,
        "--job"@ != "--help"@,
        "--job"@ != "-h"@,
        "--mesh"@ != "--port"@,
        "--mesh"@ != "--keepalive-ms"@,
        "--mesh"@ != "--job-tick-ms"@,
        "--mesh"@ != "--json"@,
        "--mesh"@ != "--own"@,
        "--mesh"@ != "--no-mdns"@,
        "--mesh"@ != "--no-map-port"@,
        "--mesh"@ != "--help"@,
        "--mesh"@ != "-h"@,
        "--port"@ != "--keepalive-ms"@,
        "--port"@ != "--job-tick-ms"@,
        "--port"@ != "--json"@,
        "--port"@ != "--own"@,
        "--port"@ != "--no-mdns"@,
        "--port"@ != "--no-map-port"@,
        "--port"@ != "--help"@,
        "--port"@ != "-h"@,
        "--keepalive-ms"@ != "--job-tick-ms"@,
        "--keepalive-ms"@ != "--json"@,
        "--keepalive-ms"@ != "--own"@,
        "--keepalive-ms"@ != "--no-mdns"@,
        "--keepalive-ms"@ != "--no-map-port"@,
        "--keepalive-ms"@ != "--help"@,
        "--keepalive-ms"@ != "-h"@,
        "--job-tick-ms"@ != "--json"@,
        "--job-tick-ms"@ != "--own"@,
        "--job-tick-ms"@ != "--no-mdns"@,
        "--job-tick-ms"@ != "--no-map-port"@,
        "--job-tick-ms"@ != "--help"@,
        "--job-tick-ms"@ != "-h"@,
        "--json"@ != "--own"@,
        "--json"@ != "--no-mdns"@,
        "--json"@ != "--no-map-port"@,
        "--json"@ != "--help"@,
        "--json"@ != "-h"@,
        "--own"@ != "--no-mdns"@,
        "--own"@ != "--no-map-port"@,
        "--own"@ != "--help"@,
        "--own"@ != "-h"@,
        "--no-mdns"@ != "--no-map-port"@,
        "--no-mdns"@ != "--help"@,
        "--no-mdns"@ != "-h"@,
        "--no-map-port"@ != "--help"@,
        "--no-map-port"@ != "-h"@,
        "--help"@ != "-h"@,
{
    reveal_strlit("--label");
    reveal_strlit("--listen");
    reveal_strlit("--peer");
    reveal_strlit("--heartbeat-ms");
    reveal_strlit("--detect-ms");
    reveal_strlit("--job");
    reveal_strlit("--mesh");
    reveal_strlit("--port");
    reveal_strlit("--keepalive-ms");
    reveal_strlit("--job-tick-ms");
    reveal_strlit("--json");
    reveal_strlit("--own");
    reveal_strlit("--no-mdns");
    reveal_strlit("--no-map-port");
    reveal_strlit("--help");
    reveal_strlit("-h");
    assert("--label"@.len() == 7);
    assert("--listen"@.len() == 8);
    assert("--peer"@.len() == 6);
    assert("--heartbeat-ms"@.len() == 14);
    assert("--detect-ms"@.len() == 11);
    assert("--job"@.len() == 5);
    assert("--mesh"@.len() == 6);
    assert("--port"@.len() == 6);
    assert("--keepalive-ms"@.len() == 14);
    assert("--job-tick-ms"@.len() == 13);
    assert("--json"@.len() == 6);
    assert("--own"@.len() == 5);
    assert("--no-mdns"@.len() == 9);
    assert("--no-map-port"@.len() == 13);
    assert("--help"@.len() == 6);
    assert("-h"@.len() == 2);
    assert("--peer"@[2] == 'p' && "--mesh"@[2] == 'm');
    assert("--peer"@[3] == 'e' && "--port"@[3] == 'o');
    assert("--peer"@[2] == 'p' && "--json"@[2] == 'j');
    assert("--peer"@[2] == 'p' && "--help"@[2] == 'h');
    assert("--mesh"@[2] == 'm' && "--port"@[2] == 'p');
    assert("--mesh"@[2] == 'm' && "--json"@[2] == 'j');
    assert("--mesh"@[2] == 'm' && "--help"@[2] == 'h');
    assert("--port"@[2] == 'p' && "--json"@[2] == 'j');
    assert("--port"@[2] == 'p' && "--help"@[2] == 'h');
    assert("--json"@[2] == 'j' && "--help"@[2] == 'h');
    assert("--heartbeat-ms"@[2] == 'h' && "--keepalive-ms"@[2] == 'k');
    assert("--job"@[2] == 'j' && "--own"@[2] == 'o');
    assert("--job-tick-ms"@[2] == 'j' && "--no-map-port"@[2] == 'n');
}

/// What the words from `at` on make of settings does not depend on the words
/// before them.
proof fn lemma_words_stand_alone(c: Settings, args: Seq<Seq<char>>, at: int)
    requires
        0 <= at <= args.len(),
    ensures
        understood(c, args, at) == understood(c, args.skip(at), 0),
{
    assert(args.skip(at).skip(0) =~= args.skip(at));
    lemma_shifted(c, args, args.skip(at), at, 0);
}

proof fn lemma_shifted(c: Settings, a: Seq<Seq<char>>, b: Seq<Seq<char>>, at: int, i: int)
    requires
        0 <= i <= b.len(),
        0 <= at <= a.len(),
        a.skip(at) == b.skip(i),
    ensures
        understood(c, a, at) == understood(c, b, i),
    decreases a.len() - at,
{
    assert(a.len() - at == b.len() - i) by {
        assert(a.skip(at).len() == b.skip(i).len());
    }
    if at < a.len() {
        assert(a[at] == a.skip(at)[0]);
        assert(b[i] == b.skip(i)[0]);
        if at + 1 < a.len() {
            assert(a[at + 1] == a.skip(at)[1]);
            assert(b[i + 1] == b.skip(i)[1]);
        }
        assert(a.skip(at + 1) =~= a.skip(at).skip(1));
        assert(b.skip(i + 1) =~= b.skip(i).skip(1));
        if wanted(a[at]) is Some {
            if at + 1 < a.len() {
                assert(a.skip(at + 2) =~= a.skip(at).skip(2));
                assert(b.skip(i + 2) =~= b.skip(i).skip(2));
                if let Ok(next) = told(c, a[at], a[at + 1]) {
                    lemma_shifted(next, a, b, at + 2, i + 2);
                }
            }
        } else if let Ok(next) = switched(c, a[at]) {
            lemma_shifted(next, a, b, at + 1, i + 1);
        }
    }
}

proof fn lemma_first_words(c: Settings, word: Seq<char>, v: Seq<char>, rest: Seq<Seq<char>>)
    ensures
        !asks_help(word) && wanted(word) is None && switched(c, word) is Ok ==> understood(
            c,
            seq![word] + rest,
            0,
        ) == understood(switched(c, word)->Ok_0, rest, 0),
        !asks_help(word) && wanted(word) is Some ==> understood(c, seq![word, v] + rest, 0)
            == match told(c, word, v) {
            Ok(next) => understood(next, rest, 0),
            Err(fault) => Err(fault),
        },
{
    let (one, two) = (seq![word] + rest, seq![word, v] + rest);
    if !asks_help(word) && wanted(word) is None && switched(c, word) is Ok {
        lemma_words_stand_alone(switched(c, word)->Ok_0, one, 1);
        assert(one.skip(1) =~= rest);
    }
    if !asks_help(word) && wanted(word) is Some {
        if let Ok(next) = told(c, word, v) {
            lemma_words_stand_alone(next, two, 2);
            assert(two.skip(2) =~= rest);
        }
    }
}

/// Each word that stands alone changes what it is about and nothing else, and
/// what follows is understood as if it came first.
pub proof fn switches_change_one_thing(c: Settings, rest: Seq<Seq<char>>)
    ensures
        understood(c, seq!["--json"@] + rest, 0) == understood(Settings { json: true, ..c }, rest, 0),
        understood(c, seq!["--own"@] + rest, 0) == understood(Settings { own: true, ..c }, rest, 0),
        understood(c, seq!["--no-mdns"@] + rest, 0) == understood(Settings { mdns: false, ..c }, rest, 0),
        understood(c, seq!["--no-map-port"@] + rest, 0) == understood(Settings { map_port: false, ..c }, rest, 0),
        understood(c, seq!["--help"@] + rest, 0) == Ok::<_, Fault>(None::<Settings>),
        understood(c, seq!["-h"@] + rest, 0) == Ok::<_, Fault>(None::<Settings>),
        understood(c, Seq::empty(), 0) == Ok::<_, Fault>(Some(c)),
{
    lemma_words_differ();
    let none = Seq::<char>::empty();
    lemma_first_words(c, "--json"@, none, rest);
    lemma_first_words(c, "--own"@, none, rest);
    lemma_first_words(c, "--no-mdns"@, none, rest);
    lemma_first_words(c, "--no-map-port"@, none, rest);
    assert((seq!["--help"@] + rest)[0] == "--help"@);
    assert((seq!["-h"@] + rest)[0] == "-h"@);
}

/// A name that is said replaces the one before it; an address that is said is
/// added behind those before it, and one that cannot be read is refused with the
/// reason. Nothing else changes.
pub proof fn names_and_addresses_are_taken_as_said(
    c: Settings,
    v: Seq<char>,
    rest: Seq<Seq<char>>,
)
    ensures
        understood(c, seq!["--label"@, v] + rest, 0) == understood(Settings { label: v, ..c }, rest, 0),
        understood(c, seq!["--mesh"@, v] + rest, 0) == understood(Settings { mesh: v, ..c }, rest, 0),
        understood(c, seq!["--job"@, v] + rest, 0) == understood(Settings { job: Some(v), ..c }, rest, 0),
        address_form(v) matches Ok(a) ==> understood(c, seq!["--listen"@, v] + rest, 0) == understood(
            Settings { listen: c.listen.push(a), ..c },
            rest,
            0,
        ),
        address_form(v) matches Err(why) ==> understood(c, seq!["--listen"@, v] + rest, 0) == Err::<
            Option<Settings>,
            _,
        >(Fault::BadAddress(why)),
        address_form(v) matches Ok(a) ==> understood(c, seq!["--peer"@, v] + rest, 0) == understood(
            Settings { dial: c.dial.push(a), ..c },
            rest,
            0,
        ),
        address_form(v) matches Err(why) ==> understood(c, seq!["--peer"@, v] + rest, 0) == Err::<
            Option<Settings>,
            _,
        >(Fault::BadAddress(why)),
{
    lemma_words_differ();
    lemma_first_words(c, "--label"@, v, rest);
    lemma_first_words(c, "--mesh"@, v, rest);
    lemma_first_words(c, "--job"@, v, rest);
    lemma_first_words(c, "--listen"@, v, rest);
    lemma_first_words(c, "--peer"@, v, rest);
}

/// A number that is said replaces the one before it, and what is no number, or is
/// too large, is refused. Nothing else changes.
pub proof fn numbers_are_taken_as_said(c: Settings, v: Seq<char>, n: u64, rest: Seq<Seq<char>>)
    ensures
        number_up_to(v, 10, 0xffff_ffff_ffff_ffff) == Some(n as nat) ==> understood(c, seq!["--heartbeat-ms"@, v] + rest, 0)
            == understood(Settings { heartbeat_ms: n, ..c }, rest, 0),
        number_up_to(v, 10, 0xffff_ffff_ffff_ffff) is None ==> understood(c, seq!["--heartbeat-ms"@, v] + rest, 0)
            == Err::<Option<Settings>, _>(Fault::BadNumber(number_fault(v, 10, 0xffff_ffff_ffff_ffff))),
        number_up_to(v, 10, 0xffff_ffff_ffff_ffff) == Some(n as nat) ==> understood(c, seq!["--detect-ms"@, v] + rest, 0)
            == understood(Settings { detect_ms: n, ..c }, rest, 0),
        number_up_to(v, 10, 0xffff_ffff_ffff_ffff) is None ==> understood(c, seq!["--detect-ms"@, v] + rest, 0)
            == Err::<Option<Settings>, _>(Fault::BadNumber(number_fault(v, 10, 0xffff_ffff_ffff_ffff))),
        number_up_to(v, 10, 0xffff_ffff_ffff_ffff) == Some(n as nat) ==> understood(c, seq!["--keepalive-ms"@, v] + rest, 0)
            == understood(Settings { keepalive_ms: n, ..c }, rest, 0),
        number_up_to(v, 10, 0xffff_ffff_ffff_ffff) is None ==> understood(c, seq!["--keepalive-ms"@, v] + rest, 0)
            == Err::<Option<Settings>, _>(Fault::BadNumber(number_fault(v, 10, 0xffff_ffff_ffff_ffff))),
        number_up_to(v, 10, 0xffff_ffff_ffff_ffff) == Some(n as nat) ==> understood(c, seq!["--job-tick-ms"@, v] + rest, 0)
            == understood(Settings { job_tick_ms: n, ..c }, rest, 0),
        number_up_to(v, 10, 0xffff_ffff_ffff_ffff) is None ==> understood(c, seq!["--job-tick-ms"@, v] + rest, 0)
            == Err::<Option<Settings>, _>(Fault::BadNumber(number_fault(v, 10, 0xffff_ffff_ffff_ffff))),
        number_up_to(v, 10, 0xffff) == Some(n as nat) ==> understood(c, seq!["--port"@, v] + rest, 0)
            == understood(Settings { port: n as u16, ..c }, rest, 0),
        number_up_to(v, 10, 0xffff) is None ==> understood(c, seq!["--port"@, v] + rest, 0)
            == Err::<Option<Settings>, _>(Fault::BadNumber(number_fault(v, 10, 0xffff))),
{
    lemma_words_differ();
    lemma_first_words(c, "--heartbeat-ms"@, v, rest);
    lemma_first_words(c, "--detect-ms"@, v, rest);
    lemma_first_words(c, "--keepalive-ms"@, v, rest);
    lemma_first_words(c, "--job-tick-ms"@, v, rest);
    lemma_first_words(c, "--port"@, v, rest);
}

/// A word that wants something behind it is refused where nothing is there, and a
/// word that nobody knows is refused by its name.
pub proof fn what_is_missing_or_unknown_is_refused(c: Settings, word: Seq<char>)
    ensures
        understood(c, seq!["--label"@], 0) == Err::<Option<Settings>, _>(
            Fault::Missing("--label needs a name"@),
        ),
        understood(c, seq!["--listen"@], 0) == Err::<Option<Settings>, _>(
            Fault::Missing("--listen needs an address"@),
        ),
        understood(c, seq!["--peer"@], 0) == Err::<Option<Settings>, _>(
            Fault::Missing("--peer needs an address"@),
        ),
        understood(c, seq!["--heartbeat-ms"@], 0) == Err::<Option<Settings>, _>(
            Fault::Missing("--heartbeat-ms needs a number"@),
        ),
        understood(c, seq!["--detect-ms"@], 0) == Err::<Option<Settings>, _>(
            Fault::Missing("--detect-ms needs a number"@),
        ),
        understood(c, seq!["--job"@], 0) == Err::<Option<Settings>, _>(
            Fault::Missing("--job needs a path"@),
        ),
        understood(c, seq!["--mesh"@], 0) == Err::<Option<Settings>, _>(
            Fault::Missing("--mesh needs a name"@),
        ),
        understood(c, seq!["--port"@], 0) == Err::<Option<Settings>, _>(
            Fault::Missing("--port needs a number"@),
        ),
        understood(c, seq!["--keepalive-ms"@], 0) == Err::<Option<Settings>, _>(
            Fault::Missing("--keepalive-ms needs a number"@),
        ),
        understood(c, seq!["--job-tick-ms"@], 0) == Err::<Option<Settings>, _>(
            Fault::Missing("--job-tick-ms needs a number"@),
        ),
        !asks_help(word) && wanted(word) is None && word != "--json"@ && word != "--own"@ && word
            != "--no-mdns"@ && word != "--no-map-port"@ ==> understood(c, seq![word], 0) == Err::<
            Option<Settings>,
            _,
        >(Fault::Unknown(word)),
{
    lemma_words_differ();
}

/// What a command line comes to is what its words say, filled up: where nothing
/// is said of listening, the node listens on its port in both families and over
/// both transports, as far as those addresses can be read; and it is refused
/// exactly where two heartbeats do not fit into the detection window.
pub proof fn settings_are_filled_up_and_checked(c: Settings)
    ensures
        c.listen.len() > 0 && c.heartbeat_ms * 2 <= c.detect_ms ==> completed(c) == Ok::<_, Fault>(
            c,
        ),
        c.listen.len() > 0 && c.heartbeat_ms * 2 > c.detect_ms ==> completed(c) == Err::<
            Settings,
            _,
        >(Fault::TooRare { heartbeat_ms: c.heartbeat_ms, detect_ms: c.detect_ms }),
        completed(c) matches Ok(d) ==> d == (Settings { listen: d.listen, ..c }),
        completed(c) matches Ok(d) ==> c.listen.len() == 0 ==> {
            let port = decimal(c.port as nat);
            &&& d.listen.len() == 4
            &&& address_form("/ip4/0.0.0.0/udp/"@ + port + "/quic-v1"@) == Ok::<_, Seq<char>>(
                d.listen[0],
            )
            &&& address_form("/ip4/0.0.0.0/tcp/"@ + port) == Ok::<_, Seq<char>>(d.listen[1])
            &&& address_form("/ip6/::/udp/"@ + port + "/quic-v1"@) == Ok::<_, Seq<char>>(
                d.listen[2],
            )
            &&& address_form("/ip6/::/tcp/"@ + port) == Ok::<_, Seq<char>>(d.listen[3])
        },
{
    reveal_with_fuel(addresses_in, 5);
    let from = default_listen(c.port);
    assert(from.drop_last() =~= from.take(3));
    assert(from.take(3).drop_last() =~= from.take(2));
    assert(from.take(2).drop_last() =~= from.take(1));
    assert(from.take(1).drop_last() =~= from.take(0));
    if c.listen.len() > 0 {
        assert((Settings { listen: c.listen, ..c }) == c);
    }
}

/// A node that is told nothing beats every second, takes three seconds of silence
/// for absence, looks around on the local network, asks its router for its port,
/// and runs no job.
pub proof fn a_node_that_is_told_nothing(label: Seq<char>)
    ensures
        ({
            let c = untold(label);
            &&& c.label == label && c.mesh == "default"@
            &&& c.heartbeat_ms == 1_000 && c.detect_ms == 3_000
            &&& c.keepalive_ms == 55_000 && c.job_tick_ms == 200
            &&& c.port == 4001
            &&& c.mdns && c.map_port && !c.own && !c.json
            &&& c.job is None && c.listen.len() == 0 && c.dial.len() == 0
        }),
{
}

proof fn lemma_first_of(args: Seq<Seq<char>>, word: Seq<char>, k: int)
    requires
        0 <= k <= args.len(),
        forall|i: int| 0 <= i < k ==> #[trigger] args[i] != word,
        k < args.len() ==> args[k] == word,
    ensures
        first_of(args, word) == k,
    decreases k,
{
    if k > 0 {
        let rest = args.drop_first();
        assert(args[0] != word);
        assert forall|i: int| 0 <= i < k - 1 implies #[trigger] rest[i] != word by {
            assert(rest[i] == args[i + 1]);
        }
        lemma_first_of(rest, word, k - 1);
    }
}

/// A job is run locally where that is asked for: the one at the path behind the
/// first such word, for as many ticks as the word behind the first count says, or
/// twenty where none is said.
pub proof fn a_local_run_is_read(args: Seq<Seq<char>>, at: int, count: int)
    requires
        0 <= at <= args.len(),
        0 <= count <= args.len(),
        forall|i: int| 0 <= i < at ==> #[trigger] args[i] != "--run-job"@,
        forall|i: int| 0 <= i < count ==> #[trigger] args[i] != "--ticks"@,
        at < args.len() ==> args[at] == "--run-job"@,
        count < args.len() ==> args[count] == "--ticks"@,
    ensures
        at == args.len() ==> local_run(args) == Ok::<_, Fault>(None::<(Seq<char>, u64)>),
        at + 1 == args.len() ==> local_run(args) == Err::<Option<(Seq<char>, u64)>, _>(
            Fault::Missing("--run-job needs a path to a .wasm"@),
        ),
        at + 1 < args.len() && count + 1 >= args.len() ==> local_run(args) == Ok::<_, Fault>(
            Some((args[at + 1], 20u64)),
        ),
        at + 1 < args.len() && count + 1 < args.len() && number_up_to(
            args[count + 1],
            10,
            0xffff_ffff_ffff_ffff,
        ) is Some ==> local_run(args) == Ok::<_, Fault>(
            Some(
                (
                    args[at + 1],
                    number_up_to(args[count + 1], 10, 0xffff_ffff_ffff_ffff)->0 as u64,
                ),
            ),
        ),
        at + 1 < args.len() && count + 1 < args.len() && number_up_to(
            args[count + 1],
            10,
            0xffff_ffff_ffff_ffff,
        ) is None ==> local_run(args) is Err,
{
    lemma_first_of(args, "--run-job"@, at);
    lemma_first_of(args, "--ticks"@, count);
    if at < args.len() {
        assert(args.contains("--run-job"@));
    }
    if args.contains("--run-job"@) {
        let i = args.index_of("--run-job"@);
        assert(args[i] == "--run-job"@);
    }
}

/// A node that was given no name has that of its machine, without the white space
/// around it; what it can see it repeats every half minute, and whom it has not
/// reached it tries again every other second.
pub proof fn what_goes_without_saying(hostname: Seq<char>)
    ensures
        default_label(None) == "unlabelled"@,
        default_label(Some(hostname)) == trimmed(hostname),
        topic(hostname) == "machine-elves/"@ + hostname + "/heartbeat/0.1"@,
        ANNOUNCE_EVERY_SECS == 30,
        DIAL_RETRY_SECS == 2,
        DEFAULT_TICKS == 20,
{
}

} // verus!
