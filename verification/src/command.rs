use vstd::prelude::*;
use crate::decimal::{
    decimal, lemma_digits_value_nonneg, lemma_parse_decimal, parse_usize, parse_usize_spec,
    unsigned_digits,
};

verus! {

/// What the program is asked to do.
#[derive(Debug, Clone, Copy, PartialEq, Eq, Structural)]
pub enum Command {
    /// Scan all items of the table and print them.
    Scan,
    /// Count the items of the table.
    Count,
    /// Write items in sequential batches.
    Batch,
    /// Put one item.
    SeriesPut,
    /// Get one item.
    SeriesGet,
    /// Delete all items of the table.
    Delete,
    /// Write batches in parallel, collecting results over a channel.
    Channel,
    /// Write batches in parallel and join them.
    ForkJoin,
    /// Write batches in spawned tasks and reduce their results.
    MapReduce,
    /// Write batches through a pipeline of tasks.
    Pipeline,
    /// Write batches in a parallel loop.
    ParallelLoop,
    /// Write batches with a worker/master pattern.
    Worker,
    /// Measure every way of writing batches.
    ParallelPerformance,
}

/// The item count used when none is given, or when the one given is not a number.
pub const DEFAULT_ITEM_COUNT: usize = 100;

/// The command a name selects.
pub open spec fn command_for(name: Seq<char>) -> Option<Command> {
    if name == "scan"@ {
        Some(Command::Scan)
    } else if name == "count"@ {
        Some(Command::Count)
    } else if name == "batch"@ {
        Some(Command::Batch)
    } else if name == "series_put"@ {
        Some(Command::SeriesPut)
    } else if name == "series_get"@ {
        Some(Command::SeriesGet)
    } else if name == "delete"@ {
        Some(Command::Delete)
    } else if name == "channel"@ {
        Some(Command::Channel)
    } else if name == "fork_join"@ {
        Some(Command::ForkJoin)
    } else if name == "map_reduce"@ {
        Some(Command::MapReduce)
    } else if name == "pipeline"@ {
        Some(Command::Pipeline)
    } else if name == "parallel_loop"@ {
        Some(Command::ParallelLoop)
    } else if name == "worker"@ {
        Some(Command::Worker)
    } else if name == "parallel_performance"@ {
        Some(Command::ParallelPerformance)
    } else {
        None
    }
}

/// The command that `name` selects, if any.
pub fn parse_command(name: &String) -> (c: Option<Command>)
    ensures
        c == command_for(name@),
{
    proof {
        reveal_strlit("scan");
        reveal_strlit("count");
        reveal_strlit("batch");
        reveal_strlit("series_put");
        reveal_strlit("series_get");
        reveal_strlit("delete");
        reveal_strlit("channel");
        reveal_strlit("fork_join");
        reveal_strlit("map_reduce");
        reveal_strlit("pipeline");
        reveal_strlit("parallel_loop");
        reveal_strlit("worker");
        reveal_strlit("parallel_performance");
    }
    if *name == String::from_str("scan") {
        return Some(Command::Scan);
    }
    if *name == String::from_str("count") {
        return Some(Command::Count);
    }
    if *name == String::from_str("batch") {
        return Some(Command::Batch);
    }
    if *name == String::from_str("series_put") {
        return Some(Command::SeriesPut);
    }
    if *name == String::from_str("series_get") {
        return Some(Command::SeriesGet);
    }
    if *name == String::from_str("delete") {
        return Some(Command::Delete);
    }
    if *name == String::from_str("channel") {
        return Some(Command::Channel);
    }
    if *name == String::from_str("fork_join") {
        return Some(Command::ForkJoin);
    }
    if *name == String::from_str("map_reduce") {
        return Some(Command::MapReduce);
    }
    if *name == String::from_str("pipeline") {
        return Some(Command::Pipeline);
    }
    if *name == String::from_str("parallel_loop") {
        return Some(Command::ParallelLoop);
    }
    if *name == String::from_str("worker") {
        return Some(Command::Worker);
    }
    if *name == String::from_str("parallel_performance") {
        return Some(Command::ParallelPerformance);
    }
    None
}

/// What the arguments ask for.
pub struct Invocation {
    /// The command, when the first argument names one.
    pub command: Option<Command>,
    /// How many items to write.
    pub item_count: usize,
}

/// The item count the arguments give: the second argument when it parses as a number,
/// `DEFAULT_ITEM_COUNT` otherwise.
pub open spec fn item_count_for(args: Seq<String>) -> usize {
    if args.len() > 2 && parse_usize_spec(args[2]@) is Some {
        parse_usize_spec(args[2]@)->0 as usize
    } else {
        DEFAULT_ITEM_COUNT
    }
}

/// A count written as the second argument is the count used, whatever it is: every
/// number that fits a `usize`, small ones too, and never the default in its place.
pub proof fn lemma_count_given_is_used(args: Seq<String>, n: usize)
    requires
        args.len() > 2,
        args[2]@ == decimal(n as nat),
    ensures
        item_count_for(args) == n,
{
    lemma_parse_decimal(n as nat);
}

/// The default count is used exactly when no count is given or what is given is not a
/// number; a given number is used as it is.
pub proof fn lemma_default_only_without_count(args: Seq<String>)
    ensures
        (args.len() > 2 && parse_usize_spec(args[2]@) is Some) ==> item_count_for(args)
            == parse_usize_spec(args[2]@)->0,
        !(args.len() > 2 && parse_usize_spec(args[2]@) is Some) ==> item_count_for(args)
            == DEFAULT_ITEM_COUNT,
{
    if args.len() > 2 && parse_usize_spec(args[2]@) is Some {
        lemma_digits_value_nonneg(unsigned_digits(args[2]@));
    }
}

/// Reads the program's arguments (the program's name first): the first argument names the
/// command, the second gives the item count.
pub fn parse_arguments(args: &Vec<String>) -> (r: Invocation)
    ensures
        r.command == (if args@.len() > 1 {
            command_for(args@[1]@)
        } else {
            None
        }),
        r.item_count == item_count_for(args@),
        args@.len() > 2 && parse_usize_spec(args@[2]@) is Some ==> r.item_count
            == parse_usize_spec(args@[2]@)->0,
        !(args@.len() > 2 && parse_usize_spec(args@[2]@) is Some) ==> r.item_count
            == DEFAULT_ITEM_COUNT,
        forall|n: usize| args@.len() > 2 && #[trigger] decimal(n as nat) == args@[2]@ ==> r.item_count == n,
{
    proof {
        assert forall|n: usize| args@.len() > 2 && #[trigger] decimal(n as nat) == args@[2]@ implies item_count_for(args@) == n by {
            lemma_count_given_is_used(args@, n);
        }
    }
    let command = if args.len() > 1 {
        parse_command(&args[1])
    } else {
        None
    };
    let item_count = if args.len() > 2 {
        match parse_usize(args[2].as_str()) {
            Some(n) => n,
            None => DEFAULT_ITEM_COUNT,
        }
    } else {
        DEFAULT_ITEM_COUNT
    };
    Invocation { command, item_count }
}

} // verus!
