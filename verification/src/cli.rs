//! Command-line handling of the broker binary: the argument scan and the
//! decimal numbers it reads. The process arguments themselves are read by
//! the binary and handed in as a vector of strings.

use vstd::prelude::*;
use vstd::string::*;

verus! {

/// Whether `c` is an ASCII decimal digit.
pub open spec fn is_digit(c: char) -> bool {
    '0' <= c && c <= '9'
}

/// Whether every character of `s` is a decimal digit.
pub open spec fn all_digits(s: Seq<char>) -> bool {
    forall|k: int| 0 <= k < s.len() ==> is_digit(#[trigger] s[k])
}

/// The value of a string of decimal digits, read most significant first.
pub open spec fn digits_value(s: Seq<char>) -> nat
    decreases s.len(),
{
    if s.len() == 0 {
        0
    } else {
        digits_value(s.drop_last()) * 10 + ((s.last() as int - '0' as int) as nat)
    }
}

/// The digits of an unsigned number: one leading `+` is allowed.
pub open spec fn unsigned_digits(s: Seq<char>) -> Seq<char> {
    if s.len() > 0 && s[0] == '+' {
        s.skip(1)
    } else {
        s
    }
}

/// What the standard library's parse of an unsigned integer with largest
/// value `max` gives on `s`: an optional `+`, then one or more decimal
/// digits whose value is at most `max`; anything else is refused.
pub open spec fn decimal_value(s: Seq<char>, max: nat) -> Option<nat> {
    let d = unsigned_digits(s);
    if d.len() > 0 && all_digits(d) && digits_value(d) <= max {
        Some(digits_value(d))
    } else {
        None
    }
}

/// Whether two strings hold the same characters.
pub fn text_eq(a: &str, b: &str) -> (r: bool)
    ensures
        r == (a@ == b@),
{
    let n = a.unicode_len();
    if n != b.unicode_len() {
        return false;
    }
    let mut i: usize = 0;
    while i < n
        invariant
            n == a@.len(),
            n == b@.len(),
            i <= n,
            a@.take(i as int) == b@.take(i as int),
        decreases n - i,
    {
        if a.get_char(i) != b.get_char(i) {
            return false;
        }
        assert(a@.take(i + 1) =~= a@.take(i as int).push(a@[i as int]));
        assert(b@.take(i + 1) =~= b@.take(i as int).push(b@[i as int]));
        i = i + 1;
    }
    assert(a@.take(n as int) =~= a@);
    assert(b@.take(n as int) =~= b@);
    true
}

/// Reads an unsigned decimal number of value at most `max`, as the
/// standard library's `parse` does for an unsigned integer type whose
/// largest value is `max`.
pub fn parse_decimal(s: &str, max: u64) -> (r: Option<u64>)
    ensures
        match decimal_value(s@, max as nat) {
            Some(v) => r == Some(v as u64),
            None => r is None,
        },
{
    let n = s.unicode_len();
    let start: usize = if n > 0 && s.get_char(0) == '+' {
        1
    } else {
        0
    };
    let ghost d = unsigned_digits(s@);
    assert(d =~= s@.skip(start as int));
    if start >= n {
        return None;
    }
    let cap: u128 = max as u128 + 1;
    let mut acc: u128 = 0;
    let mut k: usize = start;
    while k < n
        invariant
            n == s@.len(),
            start <= k <= n,
            d == s@.skip(start as int),
            d == unsigned_digits(s@),
            cap == max + 1,
            all_digits(d.take(k - start)),
            acc == (if digits_value(d.take(k - start)) < cap {
                digits_value(d.take(k - start))
            } else {
                cap as nat
            }),
        decreases n - k,
    {
        let c = s.get_char(k);
        if c < '0' || c > '9' {
            assert(d[k - start] == c);
            assert(!is_digit(d[k - start]));
            assert(!all_digits(d));
            return None;
        }
        let digit: u128 = (c as u32 - '0' as u32) as u128;
        let ghost prev = d.take(k - start);
        let ghost next = d.take(k - start + 1);
        assert(next.drop_last() =~= prev);
        assert(next.last() == c);
        assert(digits_value(next) == digits_value(prev) * 10 + digit);
        let grown: u128 = acc * 10 + digit;
        acc = if grown < cap {
            grown
        } else {
            cap
        };
        k = k + 1;
        assert(all_digits(next)) by {
            assert forall|j: int| 0 <= j < next.len() implies is_digit(#[trigger] next[j]) by {
                if j < prev.len() {
                    assert(next[j] == prev[j]);
                }
            }
        }
    }
    assert(d.take(n - start) =~= d);
    if acc < cap {
        Some(acc as u64)
    } else {
        None
    }
}

/// How the binary is asked to run as a client.
#[derive(Debug)]
pub enum ClientMode {
    Subscribe { topic: String },
    Publish { topic: String, message: String },
}

/// The settings read from the command line. The bind address is
/// `host:port`, which the binary resolves.
#[derive(Debug)]
pub struct CliConfig {
    pub host: String,
    pub port: u16,
    pub client: Option<ClientMode>,
}

/// Why the command line was refused.
#[derive(Debug)]
pub enum CliError {
    /// The value after `--port` is not a port number (the value is kept;
    /// the message does not show it).
    InvalidPort(String),
    /// The value after `--client` names no client mode (the value is kept).
    UnknownClientMode(String),
}

/// The settings gathered by the scan so far.
pub struct CliScan {
    pub port: u16,
    pub host: Seq<char>,
    pub mode: Seq<char>,
    pub topic: Seq<char>,
    pub message: Seq<char>,
}

/// The settings before any argument is read.
pub open spec fn cli_defaults() -> CliScan {
    CliScan {
        port: 7777,
        host: "0.0.0.0"@,
        mode: Seq::empty(),
        topic: Seq::empty(),
        message: Seq::empty(),
    }
}

/// Whether `a` is a flag that takes the next argument as its value.
pub open spec fn is_cli_flag(a: Seq<char>) -> bool {
    a == "--port"@ || a == "--host"@ || a == "--client"@ || a == "--topic"@ || a == "--message"@
}

/// The scan from argument `i` on: `None` where a flag is the last argument
/// (it has no value to read), an error with the text after `--port` where
/// that is no port number, else the settings. Arguments that are not flags
/// are skipped.
pub open spec fn cli_scan(args: Seq<Seq<char>>, i: int, st: CliScan) -> Option<Result<CliScan, Seq<char>>>
    decreases args.len() - i,
{
    if i < 0 || i >= args.len() {
        Some(Ok(st))
    } else if is_cli_flag(args[i]) {
        if i + 1 >= args.len() {
            None
        } else {
            let v = args[i + 1];
            if args[i] == "--port"@ {
                match decimal_value(v, 65535) {
                    Some(p) => cli_scan(args, i + 2, CliScan { port: p as u16, ..st }),
                    None => Some(Err(v)),
                }
            } else if args[i] == "--host"@ {
                cli_scan(args, i + 2, CliScan { host: v, ..st })
            } else if args[i] == "--client"@ {
                cli_scan(args, i + 2, CliScan { mode: v, ..st })
            } else if args[i] == "--topic"@ {
                cli_scan(args, i + 2, CliScan { topic: v, ..st })
            } else {
                cli_scan(args, i + 2, CliScan { message: v, ..st })
            }
        }
    } else {
        cli_scan(args, i + 1, st)
    }
}

/// Port law: `--port v` sets the port to any value that the standard
/// library's `u16` parse gives for `v`, that is every decimal value from 0
/// to 65535 (with an optional `+`), and refuses `v` exactly when that parse
/// fails; the other settings keep their defaults.
pub proof fn lemma_port_flag_accepts_every_port(v: Seq<char>)
    ensures
        decimal_value(v, u16::MAX as nat) matches Some(p) ==> cli_scan(
            seq!["--port"@, v],
            0,
            cli_defaults(),
        ) == Some(Ok::<CliScan, Seq<char>>(CliScan { port: p as u16, ..cli_defaults() })),
        decimal_value(v, u16::MAX as nat) is None ==> cli_scan(seq!["--port"@, v], 0, cli_defaults())
            == Some(Err::<CliScan, Seq<char>>(v)),
{
    let args = seq!["--port"@, v];
    assert(args[0] == "--port"@);
    assert(args[1] == v);
    assert(is_cli_flag(args[0]));
    if let Some(p) = decimal_value(v, u16::MAX as nat) {
        let st = CliScan { port: p as u16, ..cli_defaults() };
        assert(cli_scan(args, 2, st) == Some(Ok::<CliScan, Seq<char>>(st)));
    }
}

/// The texts of the arguments.
pub open spec fn arg_texts(args: Seq<String>) -> Seq<Seq<char>> {
    args.map_values(|a: String| a@)
}

/// Whether a parsed client mode is the one the scan settings name.
pub open spec fn client_mode_is(m: ClientMode, st: CliScan) -> bool {
    match m {
        ClientMode::Subscribe { topic } => st.mode == "subscribe"@ && topic@ == st.topic,
        ClientMode::Publish { topic, message } => st.mode == "publish"@ && topic@ == st.topic
            && message@ == st.message,
    }
}

/// Whether the result of `parse_cli` is the one the scan settings call for.
pub open spec fn cli_result_is(r: Result<CliConfig, CliError>, st: CliScan) -> bool {
    if st.mode.len() == 0 {
        &&& r matches Ok(c)
        &&& c.host@ == st.host
        &&& c.port == st.port
        &&& c.client is None
    } else if st.mode == "subscribe"@ || st.mode == "publish"@ {
        &&& r matches Ok(c)
        &&& c.host@ == st.host
        &&& c.port == st.port
        &&& c.client matches Some(m)
        &&& client_mode_is(m, st)
    } else {
        &&& r matches Err(CliError::UnknownClientMode(v))
        &&& v@ == st.mode
    }
}

/// Whether every flag in `args` has a value after it, so that `parse_cli`
/// can read them.
pub fn cli_args_complete(args: &Vec<String>) -> (r: bool)
    ensures
        r == cli_scan(arg_texts(args@), 0, cli_defaults()) is Some,
{
    let ghost a = arg_texts(args@);
    let ghost mut st = cli_defaults();
    let mut i: usize = 0;
    while i < args.len()
        invariant
            a == arg_texts(args@),
            i <= args.len() + 1,
            cli_scan(a, 0, cli_defaults()) == cli_scan(a, i as int, st),
        decreases args.len() + 1 - i,
    {
        let arg = args[i].as_str();
        assert(arg@ == a[i as int]);
        if text_eq(arg, "--port") || text_eq(arg, "--host") || text_eq(arg, "--client")
            || text_eq(arg, "--topic") || text_eq(arg, "--message") {
            if i + 1 >= args.len() {
                return false;
            }
            let v = args[i + 1].as_str();
            assert(v@ == a[i + 1]);
            if text_eq(arg, "--port") {
                match parse_decimal(v, 65535) {
                    Some(p) => {
                        proof {
                            st = CliScan { port: p as u16, ..st };
                        }
                    },
                    None => {
                        return true;
                    },
                }
            } else if text_eq(arg, "--host") {
                proof {
                    st = CliScan { host: v@, ..st };
                }
            } else if text_eq(arg, "--client") {
                proof {
                    st = CliScan { mode: v@, ..st };
                }
            } else if text_eq(arg, "--topic") {
                proof {
                    st = CliScan { topic: v@, ..st };
                }
            } else {
                proof {
                    st = CliScan { message: v@, ..st };
                }
            }
            i = i + 2;
        } else {
            i = i + 1;
        }
    }
    true
}

/// Reads the broker's command line: `--port N` (default 7777), `--host H`
/// (default `0.0.0.0`), `--client subscribe|publish`, `--topic T`,
/// `--message M`; other arguments are ignored, and a later flag overrides
/// an earlier one. Without `--client` the broker serves.
pub fn parse_cli(args: &Vec<String>) -> (r: Result<CliConfig, CliError>)
    requires
        cli_scan(arg_texts(args@), 0, cli_defaults()) is Some,
    ensures
        match cli_scan(arg_texts(args@), 0, cli_defaults()) {
            Some(Ok(st)) => cli_result_is(r, st),
            Some(Err(v)) => (r matches Err(CliError::InvalidPort(t)) && t@ == v),
            None => false,
        },
{
    let ghost a = arg_texts(args@);
    let mut port: u16 = 7777;
    let mut host = String::from_str("0.0.0.0");
    let mut mode = String::new();
    let mut topic = String::new();
    let mut message = String::new();
    let mut i: usize = 0;
    while i < args.len()
        invariant
            a == arg_texts(args@),
            i <= args.len() + 1,
            cli_scan(a, 0, cli_defaults()) is Some,
            cli_scan(a, 0, cli_defaults()) == cli_scan(
                a,
                i as int,
                CliScan { port, host: host@, mode: mode@, topic: topic@, message: message@ },
            ),
        decreases args.len() + 1 - i,
    {
        let arg = args[i].as_str();
        assert(arg@ == a[i as int]);
        if text_eq(arg, "--port") || text_eq(arg, "--host") || text_eq(arg, "--client")
            || text_eq(arg, "--topic") || text_eq(arg, "--message") {
            let value = &args[i + 1];
            assert(value@ == a[i + 1]);
            if text_eq(arg, "--port") {
                match parse_decimal(value.as_str(), 65535) {
                    Some(p) => {
                        port = p as u16;
                    },
                    None => {
                        return Err(CliError::InvalidPort(value.clone()));
                    },
                }
            } else if text_eq(arg, "--host") {
                host = value.clone();
            } else if text_eq(arg, "--client") {
                mode = value.clone();
            } else if text_eq(arg, "--topic") {
                topic = value.clone();
            } else {
                message = value.clone();
            }
            i = i + 2;
        } else {
            i = i + 1;
        }
    }
    proof {
        reveal_strlit("subscribe");
        reveal_strlit("publish");
    }
    if mode.as_str().unicode_len() == 0 {
        Ok(CliConfig { host, port, client: None })
    } else if text_eq(mode.as_str(), "subscribe") {
        Ok(CliConfig { host, port, client: Some(ClientMode::Subscribe { topic }) })
    } else if text_eq(mode.as_str(), "publish") {
        Ok(CliConfig { host, port, client: Some(ClientMode::Publish { topic, message }) })
    } else {
        Err(CliError::UnknownClientMode(mode))
    }
}

impl CliError {
    /// The message shown for the error.
    pub fn message(&self) -> (r: String)
        ensures
            r@ == (match self {
                CliError::InvalidPort(_) => "invalid port"@,
                CliError::UnknownClientMode(v) => "unknown client mode: "@ + v@,
            }),
    {
        match self {
            CliError::InvalidPort(_) => String::from_str("invalid port"),
            CliError::UnknownClientMode(v) => {
                let mut s = String::from_str("unknown client mode: ");
                s.append(v.as_str());
                s
            },
        }
    }
}

} // verus!
