use vstd::prelude::*;
use crate::command::Command;
use crate::decimal::{decimal, decimal_string};

verus! {

/// How many times the performance measurement runs each way of writing.
pub const PERFORMANCE_ROUNDS: usize = 10;

/// The ways of writing that the performance measurement compares, in the order it runs them.
pub open spec fn measured_commands() -> Seq<Command> {
    seq![
        Command::Batch,
        Command::Channel,
        Command::ForkJoin,
        Command::MapReduce,
        Command::Pipeline,
        Command::ParallelLoop,
        Command::Worker,
    ]
}

/// The runs of the performance measurement: each way of writing `rounds` times in a row,
/// one way after the other. Before each run the table is emptied.
pub fn performance_runs(rounds: usize) -> (r: Vec<Command>)
    requires
        rounds <= usize::MAX / 7,
    ensures
        r@.len() == 7 * rounds,
        forall|i: int| 0 <= i < r@.len() ==> #[trigger] r@[i] == measured_commands()[i / rounds as int],
{
    let order = vec![
        Command::Batch,
        Command::Channel,
        Command::ForkJoin,
        Command::MapReduce,
        Command::Pipeline,
        Command::ParallelLoop,
        Command::Worker,
    ];
    assert(order@ =~= measured_commands());
    let mut r: Vec<Command> = Vec::new();
    let mut s: usize = 0;
    while s < 7
        invariant
            order@ == measured_commands(),
            rounds <= usize::MAX / 7,
            s <= 7,
            r@.len() == s * rounds,
            forall|i: int| 0 <= i < r@.len() ==> #[trigger] r@[i] == measured_commands()[i / rounds as int],
        decreases 7 - s,
    {
        let mut k: usize = 0;
        while k < rounds
            invariant
                order@ == measured_commands(),
                rounds <= usize::MAX / 7,
                s < 7,
                k <= rounds,
                r@.len() == s * rounds + k,
                forall|i: int| 0 <= i < r@.len() ==> #[trigger] r@[i] == measured_commands()[i / rounds as int],
            decreases rounds - k,
        {
            proof {
                assert((s * rounds + k) / (rounds as int) == s) by (nonlinear_arith)
                    requires
                        0 <= k < rounds,
                        0 <= s,
                {
                }
                assert(s * rounds + k + 1 <= 7 * rounds) by (nonlinear_arith)
                    requires
                        k < rounds,
                        s < 7,
                {
                }
            }
            r.push(order[s]);
            k = k + 1;
        }
        proof {
            assert(s * rounds + rounds == (s + 1) * rounds) by (nonlinear_arith);
        }
        s = s + 1;
    }
    r
}

/// The label a way of writing files its measurements under, when it records them.
pub open spec fn label_for(c: Command) -> Option<Seq<char>> {
    match c {
        Command::Batch => Some("Batch sequential processing"@),
        Command::Channel => Some("Channel parallel processing"@),
        Command::MapReduce => Some("Map reduce parallel processing"@),
        Command::ParallelLoop => Some("Parallel loop processing"@),
        Command::Worker => Some("Worker/Master pattern processing"@),
        _ => None,
    }
}

/// The label `command`'s measurements are recorded under; fork-join, the pipeline and the
/// commands that write no batches record none.
pub fn record_label(command: Command) -> (l: Option<&'static str>)
    ensures
        match label_for(command) {
            Some(s) => l matches Some(x) && x@ == s,
            None => l is None,
        },
{
    proof {
        reveal_strlit("Batch sequential processing");
        reveal_strlit("Channel parallel processing");
        reveal_strlit("Map reduce parallel processing");
        reveal_strlit("Parallel loop processing");
        reveal_strlit("Worker/Master pattern processing");
    }
    match command {
        Command::Batch => Some("Batch sequential processing"),
        Command::Channel => Some("Channel parallel processing"),
        Command::MapReduce => Some("Map reduce parallel processing"),
        Command::ParallelLoop => Some("Parallel loop processing"),
        Command::Worker => Some("Worker/Master pattern processing"),
        _ => None,
    }
}

/// The texts of a vector of strings.
pub open spec fn texts_of(v: Seq<String>) -> Seq<Seq<char>> {
    v.map_values(|s: String| s@)
}

/// One measurement as a record: the process, the item count and the execution time in
/// milliseconds, the numbers in decimal.
pub fn benchmark_record(process_type: &str, item_count: usize, execution_time: u128) -> (r: Vec<String>)
    ensures
        texts_of(r@) == seq![process_type@, decimal(item_count as nat), decimal(execution_time as nat)],
{
    let r = vec![
        String::from_str(process_type),
        decimal_string(item_count as u128),
        decimal_string(execution_time),
    ];
    assert(texts_of(r@) =~= seq![process_type@, decimal(item_count as nat), decimal(execution_time as nat)]);
    r
}

/// The header record of the measurements file.
pub fn benchmark_header() -> (r: Vec<String>)
    ensures
        texts_of(r@) == seq!["process"@, "item count"@, "execution time"@],
{
    let r = vec![
        String::from_str("process"),
        String::from_str("item count"),
        String::from_str("execution time"),
    ];
    assert(texts_of(r@) =~= seq!["process"@, "item count"@, "execution time"@]);
    r
}

} // verus!
