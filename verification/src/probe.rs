//! What the probe is told on its command line.
use crate::addr::{place_in, Endpoint, Place};
use crate::text::{number_up_to, read_number, texts};
use crate::utf8::same_text;
use vstd::prelude::*;

verus! {

/// How long two machines try to meet unless told otherwise, in seconds.
pub const DEFAULT_PUNCH_SECS: u64 = 60;

/// What the probe is told.
pub struct ProbeConfig {
    pub json: bool,
    pub label: String,
    pub mapping_lifetime: bool,
    pub idle: Option<u64>,
    pub punch: bool,
    pub peer: Option<Endpoint>,
}

/// What the probe is told, as values.
#[verifier::ext_equal]
pub struct Orders {
    pub json: bool,
    pub label: Seq<char>,
    pub mapping_lifetime: bool,
    pub idle: Option<u64>,
    pub punch: bool,
    pub peer: Option<Place>,
}

impl View for ProbeConfig {
    type V = Orders;

    open spec fn view(&self) -> Orders {
        Orders {
            json: self.json,
            label: self.label@,
            mapping_lifetime: self.mapping_lifetime,
            idle: self.idle,
            punch: self.punch,
            peer: place_in(self.peer),
        }
    }
}

impl ProbeConfig {
    /// How long to try to meet another machine, in seconds.
    pub fn punch_seconds(&self) -> (seconds: u64)
        ensures
            seconds == match self@.idle {
                Some(seconds) => seconds,
                None => DEFAULT_PUNCH_SECS,
            },
    {
        match self.idle {
            Some(seconds) => seconds,
            None => DEFAULT_PUNCH_SECS,
        }
    }
}

/// Why the probe cannot be told this.
#[derive(Debug)]
pub enum ProbeError {
    BadPeer,
    BadIdle,
    Unknown(String),
}

/// Why the probe cannot be told this, as values.
#[verifier::ext_equal]
pub enum Objection {
    BadPeer,
    BadIdle,
    Unknown(Seq<char>),
}

impl View for ProbeError {
    type V = Objection;

    open spec fn view(&self) -> Objection {
        match self {
            ProbeError::BadPeer => Objection::BadPeer,
            ProbeError::BadIdle => Objection::BadIdle,
            ProbeError::Unknown(word) => Objection::Unknown(word@),
        }
    }
}

impl Objection {
    /// The reason in words.
    pub open spec fn message(self) -> Seq<char> {
        match self {
            Objection::BadPeer => "--peer needs an address:port"@,
            Objection::BadIdle => "--idle needs a number of seconds"@,
            Objection::Unknown(word) => "unknown argument: "@ + word,
        }
    }
}

impl ProbeError {
    /// The reason in words.
    pub fn message(&self) -> (text: String)
        ensures
            text@ == self@.message(),
    {
        match self {
            ProbeError::BadPeer => "--peer needs an address:port".to_owned(),
            ProbeError::BadIdle => "--idle needs a number of seconds".to_owned(),
            ProbeError::Unknown(word) => {
                let mut text = "unknown argument: ".to_owned();
                text.push_str(word);
                text
            },
        }
    }
}

/// Endpoints, as values.
pub open spec fn places_in(endpoints: Seq<Option<Endpoint>>) -> Seq<Option<Place>> {
    Seq::new(endpoints.len(), |i: int| place_in(endpoints[i]))
}

/// What the words from `at` on make of `c`, where `read` tells which of them are
/// endpoints: orders, a call for help, or the first thing that is wrong.
pub open spec fn ordered(c: Orders, args: Seq<Seq<char>>, read: Seq<Option<Place>>, at: int) -> Result<
    Option<Orders>,
    Objection,
>
    decreases args.len() - at,
{
    if at < 0 || at >= args.len() {
        Ok(Some(c))
    } else if args[at] == "--json"@ {
        ordered(Orders { json: true, ..c }, args, read, at + 1)
    } else if args[at] == "--label"@ {
        if at + 1 < args.len() {
            ordered(Orders { label: args[at + 1], ..c }, args, read, at + 2)
        } else {
            Ok(Some(Orders { label: "unlabelled"@, ..c }))
        }
    } else if args[at] == "--mapping-lifetime"@ {
        ordered(Orders { mapping_lifetime: true, ..c }, args, read, at + 1)
    } else if args[at] == "--punch"@ {
        ordered(Orders { punch: true, ..c }, args, read, at + 1)
    } else if args[at] == "--peer"@ {
        if at + 1 < args.len() && read[at + 1] is Some {
            ordered(Orders { peer: read[at + 1], ..c }, args, read, at + 2)
        } else {
            Err(Objection::BadPeer)
        }
    } else if args[at] == "--idle"@ {
        if at + 1 < args.len() && number_up_to(args[at + 1], 10, u64::MAX as nat) is Some {
            let idle = number_up_to(args[at + 1], 10, u64::MAX as nat)->0 as u64;
            ordered(Orders { idle: Some(idle), ..c }, args, read, at + 2)
        } else {
            Err(Objection::BadIdle)
        }
    } else if args[at] == "--help"@ || args[at] == "-h"@ {
        Ok(None)
    } else {
        Err(Objection::Unknown(args[at]))
    }
}

/// What the probe does that is told nothing.
pub open spec fn no_orders() -> Orders {
    Orders {
        json: false,
        label: "unlabelled"@,
        mapping_lifetime: false,
        idle: None,
        punch: false,
        peer: None,
    }
}

/// What was read of a command line, as values.
pub open spec fn orders_read(res: Result<Option<ProbeConfig>, ProbeError>) -> Result<
    Option<Orders>,
    Objection,
> {
    match res {
        Ok(Some(config)) => Ok(Some(config@)),
        Ok(None) => Ok(None),
        Err(error) => Err(error@),
    }
}

/// Reads a command line, without the name of the program. `endpoints` tells of
/// each word which endpoint it is, if it is one. Gives nothing where help is
/// asked for.
pub fn parse_probe_args(args: &[String], endpoints: &[Option<Endpoint>]) -> (res: Result<
    Option<ProbeConfig>,
    ProbeError,
>)
    requires
        endpoints@.len() == args@.len(),
    ensures
        orders_read(res) == ordered(no_orders(), texts(args@), places_in(endpoints@), 0),
{
    let mut config = ProbeConfig {
        json: false,
        label: "unlabelled".to_owned(),
        mapping_lifetime: false,
        idle: None,
        punch: false,
        peer: None,
    };
    let ghost words = texts(args@);
    let ghost read = places_in(endpoints@);
    let end = args.len();
    let mut at: usize = 0;
    assert(config@ == no_orders());
    while at < end
        invariant
            end == args@.len(),
            at <= end,
            endpoints@.len() == args@.len(),
            words == texts(args@),
            read == places_in(endpoints@),
            ordered(no_orders(), words, read, 0) == ordered(config@, words, read, at as int),
        decreases end - at,
    {
        let word: &str = args[at].as_str();
        let more = end - at >= 2;
        assert(words[at as int] == word@);
        if same_text(word, "--json") {
            config.json = true;
            at += 1;
        } else if same_text(word, "--label") {
            if !more {
                config.label = "unlabelled".to_owned();
                return Ok(Some(config));
            }
            assert(words[at + 1] == args@[at + 1]@);
            config.label = args[at + 1].clone();
            at += 2;
        } else if same_text(word, "--mapping-lifetime") {
            config.mapping_lifetime = true;
            at += 1;
        } else if same_text(word, "--punch") {
            config.punch = true;
            at += 1;
        } else if same_text(word, "--peer") {
            if !more {
                return Err(ProbeError::BadPeer);
            }
            assert(read[at + 1] == place_in(endpoints@[at + 1]));
            match endpoints[at + 1] {
                Some(endpoint) => {
                    config.peer = Some(endpoint);
                },
                None => return Err(ProbeError::BadPeer),
            }
            at += 2;
        } else if same_text(word, "--idle") {
            if !more {
                return Err(ProbeError::BadIdle);
            }
            assert(words[at + 1] == args@[at + 1]@);
            match read_number(args[at + 1].as_str(), 10, u64::MAX) {
                Some(n) => {
                    config.idle = Some(n);
                },
                None => return Err(ProbeError::BadIdle),
            }
            at += 2;
        } else if same_text(word, "--help") || same_text(word, "-h") {
            return Ok(None);
        } else {
            return Err(ProbeError::Unknown(word.to_owned()));
        }
    }
    Ok(Some(config))
}

/// No two of the words are the same.
proof fn lemma_words_differ()
    ensures
        "--json"@ != "--label"@,
        "--json"@ != "--mapping-lifetime"@,
        "--json"@ != "--punch"@,
        "--json"@ != "--peer"@,
        "--json"@ != "--idle"@,
        "--json"@ != "--help"@,
        "--json"@ != "-h"@,
        "--label"@ != "--mapping-lifetime"@,
        "--label"@ != "--punch"@,
        "--label"@ != "--peer"@,
        "--label"@ != "--idle"@,
        "--label"@ != "--help"@,
        "--label"@ != "-h"@,
        "--mapping-lifetime"@ != "--punch"@,
        "--mapping-lifetime"@ != "--peer"@,
        "--mapping-lifetime"@ != "--idle"@,
        "--mapping-lifetime"@ != "--help"@,
        "--mapping-lifetime"@ != "-h"@,
        "--punch"@ != "--peer"@,
        "--punch"@ != "--idle"@,
        "--punch"@ != "--help"@,
        "--punch"@ != "-h"@,
        "--peer"@ != "--idle"@,
        "--peer"@ != "--help"@,
        "--peer"@ != "-h"@,
        "--idle"@ != "--help"@,
        "--idle"@ != "-h"@,
        "--help"@ != "-h"@,
{
    reveal_strlit("--json");
    reveal_strlit("--label");
    reveal_strlit("--mapping-lifetime");
    reveal_strlit("--punch");
    reveal_strlit("--peer");
    reveal_strlit("--idle");
    reveal_strlit("--help");
    reveal_strlit("-h");
    assert("--json"@.len() == 6);
    assert("--label"@.len() == 7);
    assert("--mapping-lifetime"@.len() == 18);
    assert("--punch"@.len() == 7);
    assert("--peer"@.len() == 6);
    assert("--idle"@.len() == 6);
    assert("--help"@.len() == 6);
    assert("-h"@.len() == 2);
    assert("--json"@[2] == 'j' && "--peer"@[2] == 'p');
    assert("--json"@[2] == 'j' && "--idle"@[2] == 'i');
    assert("--json"@[2] == 'j' && "--help"@[2] == 'h');
    assert("--peer"@[2] == 'p' && "--idle"@[2] == 'i');
    assert("--peer"@[2] == 'p' && "--help"@[2] == 'h');
    assert("--idle"@[2] == 'i' && "--help"@[2] == 'h');
    assert("--label"@[2] == 'l' && "--punch"@[2] == 'p');
}

/// What the words from `at` on make of orders does not depend on the words before
/// them.
proof fn lemma_shifted(
    c: Orders,
    a: Seq<Seq<char>>,
    x: Seq<Option<Place>>,
    b: Seq<Seq<char>>,
    y: Seq<Option<Place>>,
    at: int,
    i: int,
)
    requires
        0 <= i <= b.len(),
        0 <= at <= a.len(),
        x.len() == a.len(),
        y.len() == b.len(),
        a.skip(at) == b.skip(i),
        x.skip(at) == y.skip(i),
    ensures
        ordered(c, a, x, at) == ordered(c, b, y, i),
    decreases a.len() - at,
{
    assert(a.len() - at == b.len() - i) by {
        assert(a.skip(at).len() == b.skip(i).len());
    }
    if at < a.len() {
        assert(a[at] == a.skip(at)[0]);
        assert(b[i] == b.skip(i)[0]);
        assert(a.skip(at + 1) =~= a.skip(at).skip(1));
        assert(b.skip(i + 1) =~= b.skip(i).skip(1));
        assert(x.skip(at + 1) =~= x.skip(at).skip(1));
        assert(y.skip(i + 1) =~= y.skip(i).skip(1));
        lemma_shifted(Orders { json: true, ..c }, a, x, b, y, at + 1, i + 1);
        lemma_shifted(Orders { mapping_lifetime: true, ..c }, a, x, b, y, at + 1, i + 1);
        lemma_shifted(Orders { punch: true, ..c }, a, x, b, y, at + 1, i + 1);
        if at + 1 < a.len() {
            assert(a[at + 1] == a.skip(at)[1]);
            assert(b[i + 1] == b.skip(i)[1]);
            assert(x[at + 1] == x.skip(at)[1]);
            assert(y[i + 1] == y.skip(i)[1]);
            assert(a.skip(at + 2) =~= a.skip(at).skip(2));
            assert(b.skip(i + 2) =~= b.skip(i).skip(2));
            assert(x.skip(at + 2) =~= x.skip(at).skip(2));
            assert(y.skip(i + 2) =~= y.skip(i).skip(2));
            let idle = number_up_to(a[at + 1], 10, u64::MAX as nat)->0 as u64;
            lemma_shifted(Orders { label: a[at + 1], ..c }, a, x, b, y, at + 2, i + 2);
            lemma_shifted(Orders { peer: x[at + 1], ..c }, a, x, b, y, at + 2, i + 2);
            lemma_shifted(Orders { idle: Some(idle), ..c }, a, x, b, y, at + 2, i + 2);
        }
    }
}

proof fn lemma_behind(
    c: Orders,
    head: Seq<Seq<char>>,
    rest: Seq<Seq<char>>,
    first: Seq<Option<Place>>,
    read: Seq<Option<Place>>,
)
    requires
        first.len() == head.len(),
        read.len() == rest.len(),
    ensures
        ordered(c, head + rest, first + read, head.len() as int) == ordered(c, rest, read, 0),
{
    let n = head.len() as int;
    assert((head + rest).skip(n) =~= rest.skip(0));
    assert((first + read).skip(n) =~= read.skip(0));
    lemma_shifted(c, head + rest, first + read, rest, read, n, 0);
}

/// Each word that stands alone changes what it is about and nothing else, and
/// what follows is understood as if it came first. A call for help ends it all,
/// and a word that nobody knows is refused by its name.
pub proof fn orders_are_followed_one_by_one(
    c: Orders,
    word: Seq<char>,
    p: Option<Place>,
    rest: Seq<Seq<char>>,
    read: Seq<Option<Place>>,
)
    requires
        read.len() == rest.len(),
    ensures
        ({
            let made = |c: Orders, word: Seq<char>| ordered(c, seq![word] + rest, seq![p] + read, 0);
            &&& made(c, "--json"@) == ordered(Orders { json: true, ..c }, rest, read, 0)
            &&& made(c, "--mapping-lifetime"@) == ordered(
                Orders { mapping_lifetime: true, ..c },
                rest,
                read,
                0,
            )
            &&& made(c, "--punch"@) == ordered(Orders { punch: true, ..c }, rest, read, 0)
            &&& made(c, "--help"@) == Ok::<_, Objection>(None::<Orders>)
            &&& made(c, "-h"@) == Ok::<_, Objection>(None::<Orders>)
            &&& word != "--json"@ && word != "--label"@ && word != "--mapping-lifetime"@ && word
                != "--punch"@ && word != "--peer"@ && word != "--idle"@ && word != "--help"@ && word
                != "-h"@ ==> made(c, word) == Err::<Option<Orders>, _>(Objection::Unknown(word))
        }),
        ordered(c, Seq::empty(), Seq::empty(), 0) == Ok::<_, Objection>(Some(c)),
{
    lemma_words_differ();
    let one = seq![p];
    assert((seq!["--json"@] + rest)[0] == "--json"@);
    assert((seq!["--mapping-lifetime"@] + rest)[0] == "--mapping-lifetime"@);
    assert((seq!["--punch"@] + rest)[0] == "--punch"@);
    assert((seq!["--help"@] + rest)[0] == "--help"@);
    assert((seq!["-h"@] + rest)[0] == "-h"@);
    assert((seq![word] + rest)[0] == word);
    lemma_behind(Orders { json: true, ..c }, seq!["--json"@], rest, one, read);
    lemma_behind(
        Orders { mapping_lifetime: true, ..c },
        seq!["--mapping-lifetime"@],
        rest,
        one,
        read,
    );
    lemma_behind(Orders { punch: true, ..c }, seq!["--punch"@], rest, one, read);
}

/// A name, an address or a number of seconds that is said replaces the one before
/// it; what is no address or no number is refused. Nothing else changes.
pub proof fn orders_are_taken_as_said(
    c: Orders,
    v: Seq<char>,
    p: Option<Place>,
    q: Option<Place>,
    rest: Seq<Seq<char>>,
    read: Seq<Option<Place>>,
)
    requires
        read.len() == rest.len(),
    ensures
        ({
            let made = |c: Orders, word: Seq<char>|
                ordered(c, seq![word, v] + rest, seq![p, q] + read, 0);
            let seconds = number_up_to(v, 10, 0xffff_ffff_ffff_ffff);
            &&& made(c, "--label"@) == ordered(Orders { label: v, ..c }, rest, read, 0)
            &&& q is Some ==> made(c, "--peer"@) == ordered(Orders { peer: q, ..c }, rest, read, 0)
            &&& q is None ==> made(c, "--peer"@) == Err::<Option<Orders>, _>(Objection::BadPeer)
            &&& seconds is Some ==> made(c, "--idle"@) == ordered(
                Orders { idle: Some(seconds->0 as u64), ..c },
                rest,
                read,
                0,
            )
            &&& seconds is None ==> made(c, "--idle"@) == Err::<Option<Orders>, _>(
                Objection::BadIdle,
            )
        }),
        ordered(c, seq!["--peer"@], seq![p], 0) == Err::<Option<Orders>, _>(Objection::BadPeer),
        ordered(c, seq!["--idle"@], seq![p], 0) == Err::<Option<Orders>, _>(Objection::BadIdle),
        ordered(c, seq!["--label"@], seq![p], 0) == Ok::<_, Objection>(
            Some(Orders { label: "unlabelled"@, ..c }),
        ),
        no_orders() == (Orders {
            json: false,
            label: "unlabelled"@,
            mapping_lifetime: false,
            idle: None,
            punch: false,
            peer: None,
        }),
        DEFAULT_PUNCH_SECS == 60,
{
    lemma_words_differ();
    let two = seq![p, q];
    let (a, b, d) = (seq!["--label"@, v], seq!["--peer"@, v], seq!["--idle"@, v]);
    assert((a + rest)[0] == "--label"@ && (a + rest)[1] == v);
    assert((b + rest)[0] == "--peer"@ && (b + rest)[1] == v);
    assert((d + rest)[0] == "--idle"@ && (d + rest)[1] == v);
    assert((two + read)[1] == q);
    lemma_behind(Orders { label: v, ..c }, a, rest, two, read);
    lemma_behind(Orders { peer: q, ..c }, b, rest, two, read);
    let idle = number_up_to(v, 10, u64::MAX as nat)->0 as u64;
    lemma_behind(Orders { idle: Some(idle), ..c }, d, rest, two, read);
}

} // verus!
