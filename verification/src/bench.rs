//! The publishing benchmark: its command line and how its messages are
//! shared out among parallel connections.

use vstd::prelude::*;
use vstd::string::*;
use crate::cli::{arg_texts, decimal_value, parse_decimal, text_eq};

verus! {

/// Settings of a benchmark run. The server address is resolved by the
/// binary.
#[derive(Debug)]
pub struct BenchConfig {
    pub server: String,
    pub topics: usize,
    pub messages: usize,
    pub parallel: usize,
    pub payload_size: usize,
}

/// Why the benchmark's command line was refused.
#[derive(Debug)]
pub enum BenchArgError {
    InvalidTopics,
    InvalidMessages,
    InvalidParallel,
    InvalidPayloadSize,
    /// An argument that is not one of the flags (the argument is kept).
    UnknownArgument(String),
}

/// The settings gathered by the scan so far.
pub struct BenchScan {
    pub server: Seq<char>,
    pub topics: usize,
    pub messages: usize,
    pub parallel: usize,
    pub payload_size: usize,
}

/// The benchmark's settings before any argument is read.
pub open spec fn bench_defaults() -> BenchScan {
    BenchScan {
        server: "127.0.0.1:7777"@,
        topics: 1000,
        messages: 100000,
        parallel: 4,
        payload_size: 64,
    }
}

/// A refusal of the scan: which numeric flag had a bad value, or the
/// unknown argument.
pub enum BenchRefusal {
    Topics,
    Messages,
    Parallel,
    PayloadSize,
    Unknown(Seq<char>),
}

/// Which of the benchmark's flags `a` is: 0 for `--server`, then
/// `--topics`, `--messages`, `--parallel`, `--payload-size`; 5 for none.
pub open spec fn bench_flag(a: Seq<char>) -> nat {
    if a == "--server"@ {
        0
    } else if a == "--topics"@ {
        1
    } else if a == "--messages"@ {
        2
    } else if a == "--parallel"@ {
        3
    } else if a == "--payload-size"@ {
        4
    } else {
        5
    }
}

/// The refusal for a bad value after numeric flag `f`.
pub open spec fn bad_number(f: nat) -> BenchRefusal {
    if f == 1 {
        BenchRefusal::Topics
    } else if f == 2 {
        BenchRefusal::Messages
    } else if f == 3 {
        BenchRefusal::Parallel
    } else {
        BenchRefusal::PayloadSize
    }
}

/// The settings with the value `n` of numeric flag `f` recorded.
pub open spec fn with_number(st: BenchScan, f: nat, n: usize) -> BenchScan {
    if f == 1 {
        BenchScan { topics: n, ..st }
    } else if f == 2 {
        BenchScan { messages: n, ..st }
    } else if f == 3 {
        BenchScan { parallel: n, ..st }
    } else {
        BenchScan { payload_size: n, ..st }
    }
}

/// The scan from argument `i` on: each flag takes the next argument as
/// its value; `None` where a flag is the last argument; a refusal for a
/// numeric value that is not a `usize` or for any other argument.
pub open spec fn bench_scan(args: Seq<Seq<char>>, i: int, st: BenchScan) -> Option<
    Result<BenchScan, BenchRefusal>,
>
    decreases args.len() - i,
{
    if i < 0 || i >= args.len() {
        Some(Ok(st))
    } else if bench_flag(args[i]) == 5 {
        Some(Err(BenchRefusal::Unknown(args[i])))
    } else if i + 1 >= args.len() {
        None
    } else if bench_flag(args[i]) == 0 {
        bench_scan(args, i + 2, BenchScan { server: args[i + 1], ..st })
    } else {
        match decimal_value(args[i + 1], usize::MAX as nat) {
            None => Some(Err(bad_number(bench_flag(args[i])))),
            Some(n) => bench_scan(args, i + 2, with_number(st, bench_flag(args[i]), n as usize)),
        }
    }
}

/// Numeric-flag law: each of `--topics`, `--messages`, `--parallel` and
/// `--payload-size` followed by `v` sets its setting to any value that the
/// standard library's `usize` parse gives for `v` (every decimal value that
/// fits a `usize`, with an optional `+`), leaving the others at their
/// defaults, and is refused with that flag's error exactly when the parse
/// fails.
pub proof fn lemma_numeric_flags_accept_every_usize(v: Seq<char>)
    ensures
        decimal_value(v, usize::MAX as nat) matches Some(n) ==> {
            &&& bench_scan(seq!["--topics"@, v], 0, bench_defaults()) == Some(
                Ok::<BenchScan, BenchRefusal>(BenchScan { topics: n as usize, ..bench_defaults() }),
            )
            &&& bench_scan(seq!["--messages"@, v], 0, bench_defaults()) == Some(
                Ok::<BenchScan, BenchRefusal>(BenchScan { messages: n as usize, ..bench_defaults() }),
            )
            &&& bench_scan(seq!["--parallel"@, v], 0, bench_defaults()) == Some(
                Ok::<BenchScan, BenchRefusal>(BenchScan { parallel: n as usize, ..bench_defaults() }),
            )
            &&& bench_scan(seq!["--payload-size"@, v], 0, bench_defaults()) == Some(
                Ok::<BenchScan, BenchRefusal>(
                    BenchScan { payload_size: n as usize, ..bench_defaults() },
                ),
            )
        },
        decimal_value(v, usize::MAX as nat) is None ==> {
            &&& bench_scan(seq!["--topics"@, v], 0, bench_defaults()) == Some(
                Err::<BenchScan, BenchRefusal>(BenchRefusal::Topics),
            )
            &&& bench_scan(seq!["--messages"@, v], 0, bench_defaults()) == Some(
                Err::<BenchScan, BenchRefusal>(BenchRefusal::Messages),
            )
            &&& bench_scan(seq!["--parallel"@, v], 0, bench_defaults()) == Some(
                Err::<BenchScan, BenchRefusal>(BenchRefusal::Parallel),
            )
            &&& bench_scan(seq!["--payload-size"@, v], 0, bench_defaults()) == Some(
                Err::<BenchScan, BenchRefusal>(BenchRefusal::PayloadSize),
            )
        },
{
    reveal_strlit("--server");
    reveal_strlit("--topics");
    reveal_strlit("--messages");
    reveal_strlit("--parallel");
    reveal_strlit("--payload-size");
    assert("--topics"@ != "--server"@) by {
        assert("--topics"@[2] != "--server"@[2]);
    }
    assert("--messages"@ != "--server"@) by {
        assert("--messages"@.len() != "--server"@.len());
    }
    assert("--messages"@ != "--topics"@) by {
        assert("--messages"@.len() != "--topics"@.len());
    }
    assert("--parallel"@ != "--server"@) by {
        assert("--parallel"@.len() != "--server"@.len());
    }
    assert("--parallel"@ != "--topics"@) by {
        assert("--parallel"@.len() != "--topics"@.len());
    }
    assert("--parallel"@ != "--messages"@) by {
        assert("--parallel"@[2] != "--messages"@[2]);
    }
    assert("--payload-size"@ != "--server"@) by {
        assert("--payload-size"@.len() != "--server"@.len());
    }
    assert("--payload-size"@ != "--topics"@) by {
        assert("--payload-size"@.len() != "--topics"@.len());
    }
    assert("--payload-size"@ != "--messages"@) by {
        assert("--payload-size"@.len() != "--messages"@.len());
    }
    assert("--payload-size"@ != "--parallel"@) by {
        assert("--payload-size"@.len() != "--parallel"@.len());
    }
    assert(bench_flag("--topics"@) == 1);
    assert(bench_flag("--messages"@) == 2);
    assert(bench_flag("--parallel"@) == 3);
    assert(bench_flag("--payload-size"@) == 4);
    let a1 = seq!["--topics"@, v];
    let a2 = seq!["--messages"@, v];
    let a3 = seq!["--parallel"@, v];
    let a4 = seq!["--payload-size"@, v];
    assert(a1[0] == "--topics"@ && a1[1] == v);
    assert(a2[0] == "--messages"@ && a2[1] == v);
    assert(a3[0] == "--parallel"@ && a3[1] == v);
    assert(a4[0] == "--payload-size"@ && a4[1] == v);
    if let Some(n) = decimal_value(v, usize::MAX as nat) {
        let d = bench_defaults();
        assert(bench_scan(a1, 2, with_number(d, 1, n as usize)) == Some(Ok::<BenchScan, BenchRefusal>(with_number(d, 1, n as usize))));
        assert(bench_scan(a2, 2, with_number(d, 2, n as usize)) == Some(Ok::<BenchScan, BenchRefusal>(with_number(d, 2, n as usize))));
        assert(bench_scan(a3, 2, with_number(d, 3, n as usize)) == Some(Ok::<BenchScan, BenchRefusal>(with_number(d, 3, n as usize))));
        assert(bench_scan(a4, 2, with_number(d, 4, n as usize)) == Some(Ok::<BenchScan, BenchRefusal>(with_number(d, 4, n as usize))));
    }
}

/// Whether the result of `parse_bench_args` is the one the scan calls for.
pub open spec fn bench_result_is(r: Result<BenchConfig, BenchArgError>, o: Result<BenchScan, BenchRefusal>) -> bool {
    match o {
        Ok(st) => {
            &&& r matches Ok(c)
            &&& c.server@ == st.server
            &&& c.topics == st.topics
            &&& c.messages == st.messages
            &&& c.parallel == st.parallel
            &&& c.payload_size == st.payload_size
        },
        Err(BenchRefusal::Topics) => r matches Err(BenchArgError::InvalidTopics),
        Err(BenchRefusal::Messages) => r matches Err(BenchArgError::InvalidMessages),
        Err(BenchRefusal::Parallel) => r matches Err(BenchArgError::InvalidParallel),
        Err(BenchRefusal::PayloadSize) => r matches Err(BenchArgError::InvalidPayloadSize),
        Err(BenchRefusal::Unknown(a)) => (r matches Err(BenchArgError::UnknownArgument(t)) && t@ == a),
    }
}

/// Which of the benchmark's flags `a` is (see `bench_flag`).
fn bench_flag_index(a: &str) -> (r: u8)
    ensures
        r == bench_flag(a@),
{
    if text_eq(a, "--server") {
        0
    } else if text_eq(a, "--topics") {
        1
    } else if text_eq(a, "--messages") {
        2
    } else if text_eq(a, "--parallel") {
        3
    } else if text_eq(a, "--payload-size") {
        4
    } else {
        5
    }
}

/// Whether every flag in `args` has a value after it, so that
/// `parse_bench_args` can read them.
pub fn bench_args_complete(args: &Vec<String>) -> (r: bool)
    ensures
        r == bench_scan(arg_texts(args@), 0, bench_defaults()) is Some,
{
    let ghost a = arg_texts(args@);
    let ghost mut st = bench_defaults();
    let mut i: usize = 0;
    while i < args.len()
        invariant
            a == arg_texts(args@),
            i <= args.len() + 1,
            bench_scan(a, 0, bench_defaults()) == bench_scan(a, i as int, st),
        decreases args.len() + 1 - i,
    {
        let arg = args[i].as_str();
        assert(arg@ == a[i as int]);
        let flag = bench_flag_index(arg);
        if flag == 5 {
            return true;
        }
        if i + 1 >= args.len() {
            return false;
        }
        let v = args[i + 1].as_str();
        assert(v@ == a[i + 1]);
        if flag == 0 {
            proof {
                st = BenchScan { server: v@, ..st };
            }
        } else {
            match parse_decimal(v, usize::MAX as u64) {
                None => {
                    return true;
                },
                Some(n) => {
                    proof {
                        st = with_number(st, flag as nat, n as usize);
                    }
                },
            }
        }
        i = i + 2;
    }
    true
}

/// Reads the benchmark's command line: `--server ADDR` (default
/// `127.0.0.1:7777`), `--topics N` (1000), `--messages N` (100000),
/// `--parallel N` (4), `--payload-size N` (64). Any other argument is
/// refused.
pub fn parse_bench_args(args: &Vec<String>) -> (r: Result<BenchConfig, BenchArgError>)
    requires
        bench_scan(arg_texts(args@), 0, bench_defaults()) is Some,
    ensures
        match bench_scan(arg_texts(args@), 0, bench_defaults()) {
            Some(o) => bench_result_is(r, o),
            None => false,
        },
{
    let ghost a = arg_texts(args@);
    let mut server = String::from_str("127.0.0.1:7777");
    let mut topics: usize = 1000;
    let mut messages: usize = 100000;
    let mut parallel: usize = 4;
    let mut payload_size: usize = 64;
    let mut i: usize = 0;
    while i < args.len()
        invariant
            a == arg_texts(args@),
            i <= args.len() + 1,
            bench_scan(a, 0, bench_defaults()) is Some,
            bench_scan(a, 0, bench_defaults()) == bench_scan(
                a,
                i as int,
                BenchScan { server: server@, topics, messages, parallel, payload_size },
            ),
        decreases args.len() + 1 - i,
    {
        let arg = args[i].as_str();
        assert(arg@ == a[i as int]);
        let flag = bench_flag_index(arg);
        if flag == 5 {
            return Err(BenchArgError::UnknownArgument(args[i].clone()));
        }
        let value = &args[i + 1];
        assert(value@ == a[i + 1]);
        if flag == 0 {
            server = value.clone();
        } else {
            match parse_decimal(value.as_str(), usize::MAX as u64) {
                None => {
                    return Err(
                        if flag == 1 {
                            BenchArgError::InvalidTopics
                        } else if flag == 2 {
                            BenchArgError::InvalidMessages
                        } else if flag == 3 {
                            BenchArgError::InvalidParallel
                        } else {
                            BenchArgError::InvalidPayloadSize
                        },
                    );
                },
                Some(n) => {
                    if flag == 1 {
                        topics = n as usize;
                    } else if flag == 2 {
                        messages = n as usize;
                    } else if flag == 3 {
                        parallel = n as usize;
                    } else {
                        payload_size = n as usize;
                    }
                },
            }
        }
        i = i + 2;
    }
    Ok(BenchConfig { server, topics, messages, parallel, payload_size })
}

impl BenchArgError {
    /// The message shown for the error.
    pub fn message(&self) -> (r: String)
        ensures
            r@ == (match self {
                BenchArgError::InvalidTopics => "invalid topics"@,
                BenchArgError::InvalidMessages => "invalid messages"@,
                BenchArgError::InvalidParallel => "invalid parallel count"@,
                BenchArgError::InvalidPayloadSize => "invalid payload size"@,
                BenchArgError::UnknownArgument(a) => "unknown argument: "@ + a@,
            }),
    {
        match self {
            BenchArgError::InvalidTopics => String::from_str("invalid topics"),
            BenchArgError::InvalidMessages => String::from_str("invalid messages"),
            BenchArgError::InvalidParallel => String::from_str("invalid parallel count"),
            BenchArgError::InvalidPayloadSize => String::from_str("invalid payload size"),
            BenchArgError::UnknownArgument(a) => {
                let mut s = String::from_str("unknown argument: ");
                s.append(a.as_str());
                s
            },
        }
    }
}

/// How many of `messages` the worker `worker` of `parallel` sends: an
/// equal share, and one more for each of the first `messages % parallel`
/// workers.
pub open spec fn share(messages: nat, parallel: nat, worker: nat) -> nat
    recommends
        parallel > 0,
{
    messages / parallel + (if worker < messages % parallel {
        1nat
    } else {
        0nat
    })
}

/// The messages sent by the workers before `k`.
pub open spec fn shares_before(messages: nat, parallel: nat, k: nat) -> nat
    decreases k,
{
    if k == 0 {
        0
    } else {
        shares_before(messages, parallel, (k - 1) as nat) + share(
            messages,
            parallel,
            (k - 1) as nat,
        )
    }
}

/// The number of messages worker `worker_id` sends.
pub fn worker_message_count(messages: usize, parallel: usize, worker_id: usize) -> (r: usize)
    requires
        parallel > 0,
    ensures
        r == share(messages as nat, parallel as nat, worker_id as nat),
{
    let per_worker = messages / parallel;
    let remainder = messages % parallel;
    if worker_id < remainder {
        proof {
            vstd::arithmetic::div_mod::lemma_fundamental_div_mod(messages as int, parallel as int);
            assert(per_worker * 2 <= per_worker * parallel) by (nonlinear_arith)
                requires
                    parallel >= 2,
            ;
        }
        per_worker + 1
    } else {
        per_worker
    }
}

/// The first `k` workers send `k` equal shares plus one message for each
/// of them that comes before the remainder runs out.
proof fn lemma_shares_before(messages: nat, parallel: nat, k: nat)
    requires
        parallel > 0,
    ensures
        shares_before(messages, parallel, k) == k * (messages / parallel) + (if k < messages
            % parallel {
            k
        } else {
            messages % parallel
        }),
    decreases k,
{
    let q = messages / parallel;
    if k > 0 {
        lemma_shares_before(messages, parallel, (k - 1) as nat);
        assert(k * q == (k - 1) * q + q) by (nonlinear_arith);
    } else {
        assert(k * q == 0) by (nonlinear_arith)
            requires
                k == 0,
        ;
    }
}

/// The workers' shares add up to the requested number of messages.
pub proof fn lemma_shares_cover_messages(messages: nat, parallel: nat)
    requires
        parallel > 0,
    ensures
        shares_before(messages, parallel, parallel) == messages,
{
    lemma_shares_before(messages, parallel, parallel);
    vstd::arithmetic::div_mod::lemma_fundamental_div_mod(messages as int, parallel as int);
    assert(messages % parallel < parallel) by {
        vstd::arithmetic::div_mod::lemma_mod_bound(messages as int, parallel as int);
    }
    assert(parallel * (messages / parallel) == (messages / parallel) * parallel) by (nonlinear_arith);
}

/// No two workers' shares differ by more than one message.
pub proof fn lemma_shares_balanced(messages: nat, parallel: nat, a: nat, b: nat)
    requires
        parallel > 0,
    ensures
        share(messages, parallel, a) <= share(messages, parallel, b) + 1,
{
}

} // verus!
