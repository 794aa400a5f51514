use vstd::prelude::*;

use crate::error::DataGenError;

verus! {

/// Minutes in one day.
pub const MINS_1_DAY: u32 = 1440;

/// The multiplier applied to each input value before the day offset is added.
pub const HR: u32 = 60;

/// The number of days that every value is repeated over.
pub const DAY_COUNT: u32 = 7;

/// The largest number of offsets that one run may produce.
pub const MAX_VALUES: u32 = 56;

/// The largest minute-of-day value.
pub const LAST_MINUTE: u32 = 1439;

/// Every value is a minute of the day.
pub open spec fn minutes_of_day(values: Seq<u32>) -> bool {
    forall|i: int| 0 <= i < values.len() ==> #[trigger] values[i] <= LAST_MINUTE
}

/// The offset for the value `v` on day `day`.
pub open spec fn offset(day: int, v: int) -> int {
    day * MINS_1_DAY + HR * v
}

/// All offsets for `values`: each day in turn, and within a day each value in order.
pub open spec fn offsets(values: Seq<u32>) -> Seq<u32> {
    let n = values.len() as int;
    Seq::new(
        (DAY_COUNT * n) as nat,
        |k: int| offset(k / n, values[k % n] as int) as u32,
    )
}

proof fn lemma_index_split(day: int, j: int, n: int)
    requires
        0 <= day,
        0 <= j < n,
    ensures
        (day * n + j) / n == day,
        (day * n + j) % n == j,
{
    vstd::arithmetic::div_mod::lemma_fundamental_div_mod_converse(day * n + j, n, day, j);
}

/// The offsets come in rows of one day each: the `j`th value of day `day`
/// stands at `day * n + j`, and there are seven rows.
pub proof fn lemma_offsets_layout(values: Seq<u32>, day: int, j: int)
    requires
        minutes_of_day(values),
        0 <= day < DAY_COUNT,
        0 <= j < values.len(),
    ensures
        offsets(values).len() == DAY_COUNT * values.len(),
        offsets(values)[day * values.len() + j] == day * MINS_1_DAY + HR * values[j],
{
    let n = values.len() as int;
    lemma_index_split(day, j, n);
    assert(day * n + j < DAY_COUNT * n) by (nonlinear_arith)
        requires
            0 <= day < DAY_COUNT,
            0 <= j < n,
    ;
    assert(0 <= day * n) by (nonlinear_arith)
        requires
            0 <= day,
            0 <= n,
    ;
}

/// Repeats the minute values over seven days as offsets from the start of the window.
/// Fails once more offsets than `MAX_VALUES` would be produced; `filename` only names
/// the destination in that error.
pub fn create_values(day_values: Vec<u32>, filename: &str) -> (r: Result<Vec<u32>, DataGenError>)
    requires
        minutes_of_day(day_values@),
    ensures
        match r {
            Ok(v) => DAY_COUNT * day_values@.len() <= MAX_VALUES && v@ == offsets(day_values@),
            Err(e) => DAY_COUNT * day_values@.len() > MAX_VALUES && e == (DataGenError::TooManyValues {
                count: (MAX_VALUES + 1) as u32,
                max: MAX_VALUES,
                file_name: e->file_name,
            }) && e->file_name@ == filename@,
        },
{
    let n = day_values.len();
    let ghost vals = day_values@;
    let mut out: Vec<u32> = Vec::new();
    let mut count: u32 = 0;
    let mut day: u32 = 0;
    while day < DAY_COUNT
        invariant
            vals == day_values@,
            n == vals.len(),
            minutes_of_day(vals),
            day <= DAY_COUNT,
            count == day * n,
            count <= MAX_VALUES,
            out@.len() == count,
            forall|k: int| 0 <= k < count ==> #[trigger] out@[k] == offsets(vals)[k],
        decreases DAY_COUNT - day,
    {
        let mut j: usize = 0;
        while j < n
            invariant
                vals == day_values@,
                n == vals.len(),
                minutes_of_day(vals),
                day < DAY_COUNT,
                j <= n,
                count == day * n + j,
                count <= MAX_VALUES,
                out@.len() == count,
                forall|k: int| 0 <= k < count ==> #[trigger] out@[k] == offsets(vals)[k],
            decreases n - j,
        {
            let hr = day_values[j];
            let b: u32 = day * MINS_1_DAY + HR * hr;
            proof {
                lemma_offsets_layout(vals, day as int, j as int);
            }
            out.push(b);
            count = count + 1;
            if count > MAX_VALUES {
                proof {
                    assert(DAY_COUNT * n > MAX_VALUES) by (nonlinear_arith)
                        requires
                            day * n + j + 1 > MAX_VALUES,
                            day < DAY_COUNT,
                            j < n,
                    ;
                }
                return Err(DataGenError::TooManyValues {
                    count,
                    max: MAX_VALUES,
                    file_name: String::from_str(filename),
                });
            }
            j = j + 1;
        }
        proof {
            assert((day + 1) * n == day * n + n) by (nonlinear_arith);
        }
        day = day + 1;
    }
    assert(out@ =~= offsets(vals));
    Ok(out)
}

} // verus!
