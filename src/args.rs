use vstd::prelude::*;

use crate::error::DataGenError;
use crate::text::{list_text, serialize_values};
use crate::time::{minute_of_day, parse_time, time_error, time_ok};
use crate::values::{create_values, offsets, DAY_COUNT, LAST_MINUTE, MAX_VALUES};

verus! {

/// The tag that marks the argument naming the destination file.
pub open spec fn file_prefix() -> Seq<char> {
    seq!['f', 'i', 'l', 'e', ':']
}

pub open spec fn is_file_arg(a: Seq<char>) -> bool {
    a.len() >= 5 && a.take(5) == file_prefix()
}

pub open spec fn texts(v: Seq<String>) -> Seq<Seq<char>> {
    v.map_values(|a: String| a@)
}

/// The file named by the last `file:` argument, if there is one.
pub open spec fn destination(args: Seq<Seq<char>>) -> Option<Seq<char>>
    decreases args.len(),
{
    if args.len() == 0 {
        None
    } else if is_file_arg(args.last()) {
        Some(args.last().skip(5))
    } else {
        destination(args.drop_last())
    }
}

/// A non-empty destination file is named.
pub open spec fn has_destination(args: Seq<Seq<char>>) -> bool {
    destination(args) is Some && destination(args)->Some_0.len() > 0
}

/// The arguments that are not `file:` arguments, in their order.
pub open spec fn time_args(args: Seq<Seq<char>>) -> Seq<Seq<char>>
    decreases args.len(),
{
    if args.len() == 0 {
        Seq::empty()
    } else if is_file_arg(args.last()) {
        time_args(args.drop_last())
    } else {
        time_args(args.drop_last()).push(args.last())
    }
}

/// The arguments, split into the destination file and the time arguments.
pub struct Invocation {
    pub file_name: String,
    pub times: Vec<String>,
}

fn is_file_arg_exec(a: &str) -> (r: bool)
    ensures
        r == is_file_arg(a@),
{
    let n = a.unicode_len();
    if n < 5 {
        return false;
    }
    let r = a.get_char(0) == 'f' && a.get_char(1) == 'i' && a.get_char(2) == 'l' && a.get_char(3)
        == 'e' && a.get_char(4) == ':';
    assert(r == (a@.take(5) =~= file_prefix()));
    r
}

/// Separates the destination argument (`file:<name>`, the last one wins) from the
/// time arguments, which keep their order.
pub fn classify_args(args: &Vec<String>) -> (r: Result<Invocation, DataGenError>)
    ensures
        match r {
            Ok(inv) => has_destination(texts(args@)) && destination(texts(args@)) == Some(
                inv.file_name@,
            ) && texts(inv.times@) == time_args(texts(args@)) && inv.times@.len() > 0,
            Err(e) => if !has_destination(texts(args@)) {
                e == DataGenError::MissingOutputFile
            } else {
                time_args(texts(args@)).len() == 0 && e == DataGenError::NoTimesSpecified
            },
        },
{
    let ghost a = texts(args@);
    let mut file_name = String::new();
    let mut found = false;
    let mut times: Vec<String> = Vec::new();
    let mut i: usize = 0;
    while i < args.len()
        invariant
            a == texts(args@),
            0 <= i <= args@.len(),
            found == (destination(a.take(i as int)) is Some),
            found ==> destination(a.take(i as int)) == Some(file_name@),
            texts(times@) == time_args(a.take(i as int)),
        decreases args@.len() - i,
    {
        let arg = args[i].as_str();
        proof {
            let t = a.take(i + 1);
            assert(t.drop_last() =~= a.take(i as int));
            assert(t.last() == arg@);
        }
        if is_file_arg_exec(arg) {
            let n = arg.unicode_len();
            file_name = String::from_str(arg.substring_char(5, n));
            found = true;
        } else {
            let ghost before = times@;
            times.push(args[i].clone());
            assert(texts(times@) =~= texts(before).push(arg@));
        }
        i = i + 1;
    }
    assert(a.take(args@.len() as int) =~= a);
    if !found || file_name.unicode_len() == 0 {
        return Err(DataGenError::MissingOutputFile);
    }
    if times.len() == 0 {
        return Err(DataGenError::NoTimesSpecified);
    }
    Ok(Invocation { file_name, times })
}

/// Every time argument is a well-formed time of day.
pub open spec fn all_times_ok(ts: Seq<Seq<char>>) -> bool {
    forall|j: int| 0 <= j < ts.len() ==> time_ok(#[trigger] ts[j])
}

/// `k` is the first time argument that does not parse.
pub open spec fn first_bad_time(ts: Seq<Seq<char>>, k: int) -> bool {
    &&& 0 <= k < ts.len()
    &&& !time_ok(ts[k])
    &&& forall|j: int| 0 <= j < k ==> time_ok(#[trigger] ts[j])
}

/// The minute of day of each time argument.
pub open spec fn minutes_of(ts: Seq<Seq<char>>) -> Seq<u32> {
    ts.map_values(|t: Seq<char>| minute_of_day(t) as u32)
}

/// The arguments give a run that succeeds.
pub open spec fn run_ok(a: Seq<Seq<char>>) -> bool {
    &&& has_destination(a)
    &&& time_args(a).len() > 0
    &&& all_times_ok(time_args(a))
    &&& DAY_COUNT * time_args(a).len() <= MAX_VALUES
}

/// `e` is the error that a run on the arguments `a` stops with: the first
/// failing stage decides, and among the times the first that does not parse.
pub open spec fn run_error(a: Seq<Seq<char>>, e: DataGenError) -> bool {
    let ts = time_args(a);
    if !has_destination(a) {
        e == DataGenError::MissingOutputFile
    } else if ts.len() == 0 {
        e == DataGenError::NoTimesSpecified
    } else if !all_times_ok(ts) {
        exists|k: int| first_bad_time(ts, k) && time_error(ts[k], e)
    } else {
        &&& DAY_COUNT * ts.len() > MAX_VALUES
        &&& e == (DataGenError::TooManyValues {
            count: (MAX_VALUES + 1) as u32,
            max: MAX_VALUES,
            file_name: e->file_name,
        })
        &&& Some(e->file_name@) == destination(a)
    }
}

/// What a successful run produces: the destination, the parsed minute values,
/// their offsets, and the text to be written.
pub struct Generated {
    pub file_name: String,
    pub times: Vec<u32>,
    pub values: Vec<u32>,
    pub text: String,
}

/// Runs the whole pipeline on the program arguments: classify, parse every time,
/// generate the offsets and render them. The first failure is returned.
pub fn run(args: &Vec<String>) -> (r: Result<Generated, DataGenError>)
    ensures
        match r {
            Ok(g) => {
                &&& run_ok(texts(args@))
                &&& destination(texts(args@)) == Some(g.file_name@)
                &&& g.times@ == minutes_of(time_args(texts(args@)))
                &&& g.values@ == offsets(g.times@)
                &&& g.text@ == list_text(g.values@)
            },
            Err(e) => !run_ok(texts(args@)) && run_error(texts(args@), e),
        },
{
    let ghost a = texts(args@);
    let inv = classify_args(args);
    let inv = match inv {
        Ok(inv) => inv,
        Err(e) => {
            return Err(e);
        },
    };
    let ghost ts = texts(inv.times@);
    let mut times: Vec<u32> = Vec::new();
    let mut i: usize = 0;
    while i < inv.times.len()
        invariant
            ts == texts(inv.times@),
            a == texts(args@),
            ts == time_args(a),
            ts.len() > 0,
            has_destination(a),
            0 <= i <= ts.len(),
            times@ == minutes_of(ts.take(i as int)),
            forall|j: int| 0 <= j < i ==> time_ok(#[trigger] ts[j]),
        decreases ts.len() - i,
    {
        let t = inv.times[i].as_str();
        assert(t@ == ts[i as int]);
        match parse_time(t) {
            Ok(v) => {
                times.push(v);
                assert(times@ =~= minutes_of(ts.take(i + 1)));
            },
            Err(e) => {
                assert(first_bad_time(ts, i as int));
                return Err(e);
            },
        }
        i = i + 1;
    }
    assert(ts.take(ts.len() as int) =~= ts);
    assert(all_times_ok(ts));
    assert forall|j: int| 0 <= j < times@.len() implies #[trigger] times@[j] <= LAST_MINUTE by {
        assert(time_ok(ts[j]));
    }
    let day_values = times.clone();
    assert(day_values@ == times@);
    let values = match create_values(day_values, inv.file_name.as_str()) {
        Ok(v) => v,
        Err(e) => {
            return Err(e);
        },
    };
    let text = serialize_values(&values);
    Ok(Generated { file_name: inv.file_name, times, values, text })
}

} // verus!
