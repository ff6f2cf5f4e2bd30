//! Writing the assignments: one line per vehicle, with the number of jobs it
//! took up and their ids.

use crate::scheduler::job::{Job, JobId};
use crate::vehicle::VehicleView;
use vstd::prelude::*;
use vstd::string::StringExecFns;

verus! {

/// The character of a decimal digit.
pub open spec fn digit_char(d: int) -> char {
    if d == 0 {
        '0'
    } else if d == 1 {
        '1'
    } else if d == 2 {
        '2'
    } else if d == 3 {
        '3'
    } else if d == 4 {
        '4'
    } else if d == 5 {
        '5'
    } else if d == 6 {
        '6'
    } else if d == 7 {
        '7'
    } else if d == 8 {
        '8'
    } else {
        '9'
    }
}

/// A natural number in decimal, without leading zeros.
pub open spec fn decimal(n: nat) -> Seq<char>
    decreases n,
{
    if n < 10 {
        seq![digit_char(n as int)]
    } else {
        decimal(n / 10).push(digit_char((n % 10) as int))
    }
}

/// An integer in decimal, with `-` before a negative one.
pub open spec fn signed_decimal(i: int) -> Seq<char> {
    if i < 0 {
        seq!['-'] + decimal((-i) as nat)
    } else {
        decimal(i as nat)
    }
}

/// Each id in decimal with a space before it.
pub open spec fn ids_text(ids: Seq<JobId>) -> Seq<char>
    decreases ids.len(),
{
    if ids.len() == 0 {
        Seq::<char>::empty()
    } else {
        ids_text(ids.drop_last()) + seq![' '] + signed_decimal(ids.last() as int)
    }
}

/// The ids of a run of jobs.
pub open spec fn ids_of(jobs: Seq<Job>) -> Seq<JobId> {
    jobs.map_values(|j: Job| j@.id)
}

/// The line of a vehicle: the number of jobs it took up, then their ids in
/// the order in which it took them up, then a line feed.
pub open spec fn vehicle_line(v: VehicleView) -> Seq<char> {
    decimal(v.history.len()) + ids_text(ids_of(v.history)) + seq!['\n']
}

/// The lines of the vehicles, in the order of the fleet.
pub open spec fn render(fleet: Seq<VehicleView>) -> Seq<char>
    decreases fleet.len(),
{
    if fleet.len() == 0 {
        Seq::<char>::empty()
    } else {
        render(fleet.drop_last()) + vehicle_line(fleet.last())
    }
}

/// The text of a decimal digit.
fn digit_str(d: u64) -> (s: &'static str)
    requires
        d < 10,
    ensures
        s@ == seq![digit_char(d as int)],
{
    proof {
        reveal_strlit("0");
        reveal_strlit("1");
        reveal_strlit("2");
        reveal_strlit("3");
        reveal_strlit("4");
        reveal_strlit("5");
        reveal_strlit("6");
        reveal_strlit("7");
        reveal_strlit("8");
        reveal_strlit("9");
    }
    if d == 0 {
        "0"
    } else if d == 1 {
        "1"
    } else if d == 2 {
        "2"
    } else if d == 3 {
        "3"
    } else if d == 4 {
        "4"
    } else if d == 5 {
        "5"
    } else if d == 6 {
        "6"
    } else if d == 7 {
        "7"
    } else if d == 8 {
        "8"
    } else {
        "9"
    }
}

/// Appends `n` in decimal.
pub fn push_decimal(out: &mut String, n: u64)
    ensures
        final(out)@ == old(out)@ + decimal(n as nat),
    decreases n,
{
    if n >= 10 {
        push_decimal(out, n / 10);
    }
    out.append(digit_str(n % 10));
}

/// Appends `i` in decimal, with `-` before a negative one.
pub fn push_signed(out: &mut String, i: i32)
    ensures
        final(out)@ == old(out)@ + signed_decimal(i as int),
{
    if i < 0 {
        proof {
            reveal_strlit("-");
        }
        out.append("-");
        let magnitude: u64 = (-(i as i64)) as u64;
        push_decimal(out, magnitude);
    } else {
        push_decimal(out, i as u64);
    }
}

/// Appends the line of a vehicle that took up the jobs with the given ids.
pub fn push_line(out: &mut String, ids: &Vec<JobId>)
    ensures
        final(out)@ == old(out)@ + decimal(ids@.len()) + ids_text(ids@) + seq!['\n'],
{
    push_decimal(out, ids.len() as u64);
    let ghost head = out@;
    let mut i: usize = 0;
    while i < ids.len()
        invariant
            i <= ids@.len(),
            out@ == head + ids_text(ids@.take(i as int)),
        decreases ids.len() - i,
    {
        proof {
            reveal_strlit(" ");
        }
        out.append(" ");
        push_signed(out, ids[i]);
        proof {
            assert(ids@.take(i + 1).drop_last() =~= ids@.take(i as int));
        }
        i = i + 1;
    }
    proof {
        assert(ids@.take(i as int) =~= ids@);
        reveal_strlit("\n");
    }
    out.append("\n");
}

} // verus!
