//! Recurring-schedule management: mapping a user-chosen interval to a
//! cron expression with a human-readable description, and computing
//! the replacement job list for an idempotent install.
//!
//! The host's job scheduler itself is external: callers read the
//! current job list, hand it to the planner here, and write the
//! planned list back. The planner identifies this program's own prior
//! entries by a stable command signature and replaces them in place,
//! so repeated installs never create duplicates.

use crate::text::{contains_seq, dec_str, occurs_at, str_contains, strs_view, u32_dec_string};
use vstd::prelude::*;

verus! {

/// The largest accepted interval: one day, in minutes.
pub const MAX_SCHEDULE_MINUTES: u32 = 1440;

/// Errors of schedule management.
#[derive(Debug, Clone, Copy, PartialEq, Eq, Structural)]
pub enum ScheduleError {
    /// The interval is zero or more than a day.
    IntervalOutOfRange,
}

impl ScheduleError {
    /// A short human-readable description of the error.
    pub fn message(&self) -> (m: &'static str)
        ensures
            m@ == "the interval must be between 1 and 1440 minutes"@,
    {
        match self {
            ScheduleError::IntervalOutOfRange => "the interval must be between 1 and 1440 minutes",
        }
    }
}

/// The cron expression for an interval of `m` minutes: minutes below
/// an hour use a minute step; whole hours use an hour step; other
/// intervals run at a fixed minute of every stepped hour — the
/// closest single cron line for such an interval.
pub open spec fn cron_expr_of(m: u32) -> Seq<char>
    recommends
        1 <= m <= 1440,
{
    if m <= 59 {
        "*/"@ + dec_str(m as nat) + " * * * *"@
    } else if m == 60 {
        "0 * * * *"@
    } else if m % 60 == 0 {
        "0 */"@ + dec_str((m / 60) as nat) + " * * *"@
    } else {
        dec_str((m % 60) as nat) + " */"@ + dec_str((m / 60) as nat) + " * * *"@
    }
}

/// The human-readable description of an interval of `m` minutes.
pub open spec fn human_desc_of(m: u32) -> Seq<char>
    recommends
        1 <= m <= 1440,
{
    if m <= 59 {
        "every "@ + dec_str(m as nat) + " minutes"@
    } else if m == 60 {
        "every hour"@
    } else if m % 60 == 0 {
        "every "@ + dec_str((m / 60) as nat) + " hours"@
    } else {
        "every "@ + dec_str((m / 60) as nat) + " hours and "@ + dec_str((m % 60) as nat)
            + " minutes"@
    }
}

/// Map a user-chosen interval to a (cron expression, human-readable
/// description) pair. Intervals of 0 or more than 1440 minutes are
/// rejected; every interval of 1 to 1440 minutes is accepted.
pub fn minutes_to_crontab_schedule(minutes: u32) -> (r: Result<(String, String), ScheduleError>)
    ensures
        (1 <= minutes <= MAX_SCHEDULE_MINUTES) <==> r is Ok,
        r matches Ok(p) ==> p.0@ == cron_expr_of(minutes) && p.1@ == human_desc_of(minutes),
        !(1 <= minutes <= MAX_SCHEDULE_MINUTES) ==> r == Err::<(String, String), ScheduleError>(
            ScheduleError::IntervalOutOfRange,
        ),
{
    if minutes == 0 || minutes > MAX_SCHEDULE_MINUTES {
        return Err(ScheduleError::IntervalOutOfRange);
    }
    if minutes <= 59 {
        let mut expr = String::from_str("*/");
        expr.append(u32_dec_string(minutes).as_str());
        expr.append(" * * * *");
        let mut human = String::from_str("every ");
        human.append(u32_dec_string(minutes).as_str());
        human.append(" minutes");
        Ok((expr, human))
    } else if minutes == 60 {
        Ok((String::from_str("0 * * * *"), String::from_str("every hour")))
    } else if minutes % 60 == 0 {
        let hours = minutes / 60;
        let mut expr = String::from_str("0 */");
        expr.append(u32_dec_string(hours).as_str());
        expr.append(" * * *");
        let mut human = String::from_str("every ");
        human.append(u32_dec_string(hours).as_str());
        human.append(" hours");
        Ok((expr, human))
    } else {
        let hours = minutes / 60;
        let mins = minutes % 60;
        let mut expr = u32_dec_string(mins);
        expr.append(" */");
        expr.append(u32_dec_string(hours).as_str());
        expr.append(" * * *");
        let mut human = String::from_str("every ");
        human.append(u32_dec_string(hours).as_str());
        human.append(" hours and ");
        human.append(u32_dec_string(mins).as_str());
        human.append(" minutes");
        Ok((expr, human))
    }
}

/// The job-list lines an install keeps: those that do not mention the
/// command signature.
pub open spec fn kept_lines(lines: Seq<Seq<char>>, cmd: Seq<char>) -> Seq<Seq<char>>
    decreases lines.len(),
{
    if lines.len() == 0 {
        Seq::empty()
    } else {
        let rest = kept_lines(lines.drop_first(), cmd);
        if contains_seq(lines[0], cmd) {
            rest
        } else {
            seq![lines[0]] + rest
        }
    }
}

/// The job-list line an install writes: the cron expression, one
/// space, the command.
pub open spec fn entry_line(expr: Seq<char>, cmd: Seq<char>) -> Seq<char> {
    expr + " "@ + cmd
}

/// The replacement job list for an install: every line mentioning the
/// command signature is dropped, and exactly one entry for the given
/// cron expression is appended — the last planned line is the one
/// own entry, and no other planned line mentions the command.
#[verifier::loop_isolation(false)]
pub fn plan_crontab_lines(existing: &Vec<String>, cron_expr: &str, command: &str) -> (r: Vec<
    String,
>)
    ensures
        strs_view(r@) == kept_lines(strs_view(existing@), command@).push(
            entry_line(cron_expr@, command@),
        ),
        r@.len() >= 1,
        forall|k: int| 0 <= k < r@.len() - 1 ==> !contains_seq((#[trigger] r@[k])@, command@),
        contains_seq(r@[r@.len() - 1]@, command@),
{
    let ghost lines = strs_view(existing@);
    let mut kept: Vec<String> = Vec::new();
    let mut i: usize = 0;
    proof {
        assert(lines.skip(0) =~= lines);
        assert(Seq::<Seq<char>>::empty() + kept_lines(lines, command@) =~= kept_lines(
            lines,
            command@,
        ));
    }
    while i < existing.len()
        invariant
            i <= existing@.len(),
            lines.len() == existing@.len(),
            strs_view(kept@) + kept_lines(lines.skip(i as int), command@) == kept_lines(
                lines,
                command@,
            ),
        decreases existing@.len() - i,
    {
        proof {
            assert(lines.skip(i as int)[0] == lines[i as int]);
            assert(lines.skip(i as int).drop_first() =~= lines.skip(i as int + 1));
        }
        if !str_contains(existing[i].as_str(), command) {
            let ghost prev = kept@;
            kept.push(existing[i].clone());
            proof {
                assert(strs_view(kept@) =~= strs_view(prev) + seq![lines[i as int]]);
                assert((strs_view(prev) + seq![lines[i as int]]) + kept_lines(
                    lines.skip(i as int + 1),
                    command@,
                ) =~= strs_view(prev) + (seq![lines[i as int]] + kept_lines(
                    lines.skip(i as int + 1),
                    command@,
                )));
            }
        }
        i += 1;
    }
    proof {
        assert(lines.skip(lines.len() as int) =~= Seq::<Seq<char>>::empty());
        assert(strs_view(kept@) + Seq::<Seq<char>>::empty() =~= strs_view(kept@));
    }
    let mut entry = cron_expr.to_owned();
    entry.append(" ");
    entry.append(command);
    let ghost prev = kept@;
    kept.push(entry);
    proof {
        assert(strs_view(kept@) =~= strs_view(prev).push(entry_line(cron_expr@, command@)));
        lemma_kept_lines_clean(lines, command@);
        lemma_entry_line_mentions_command(cron_expr@, command@);
        assert forall|k: int| 0 <= k < kept@.len() - 1 implies !contains_seq(
            (#[trigger] kept@[k])@,
            command@,
        ) by {
            assert(kept@[k]@ == strs_view(kept@)[k]);
            assert(strs_view(kept@)[k] == kept_lines(lines, command@)[k]);
        }
        assert(kept@[kept@.len() - 1]@ == strs_view(kept@)[kept@.len() - 1]);
    }
    kept
}

/// Plan one schedule install: validate the interval, and compute the
/// human-readable description together with the replacement job list.
pub fn plan_schedule_update(minutes: u32, existing: &Vec<String>, command: &str) -> (r: Result<
    (String, Vec<String>),
    ScheduleError,
>)
    ensures
        (1 <= minutes <= MAX_SCHEDULE_MINUTES) <==> r is Ok,
        r matches Ok(p) ==> p.0@ == human_desc_of(minutes) && strs_view(p.1@) == kept_lines(
            strs_view(existing@),
            command@,
        ).push(entry_line(cron_expr_of(minutes), command@)),
        !(1 <= minutes <= MAX_SCHEDULE_MINUTES) ==> r == Err::<
            (String, Vec<String>),
            ScheduleError,
        >(ScheduleError::IntervalOutOfRange),
{
    let (expr, human) = match minutes_to_crontab_schedule(minutes) {
        Ok(p) => p,
        Err(e) => {
            return Err(e);
        },
    };
    let lines = plan_crontab_lines(existing, expr.as_str(), command);
    Ok((human, lines))
}

/// Every line an install keeps is free of the command signature: with
/// the one appended entry, a planned job list holds exactly one line
/// mentioning the command.
pub proof fn lemma_kept_lines_clean(lines: Seq<Seq<char>>, cmd: Seq<char>)
    ensures
        forall|k: int|
            0 <= k < kept_lines(lines, cmd).len() ==> !contains_seq(
                #[trigger] kept_lines(lines, cmd)[k],
                cmd,
            ),
    decreases lines.len(),
{
    if lines.len() > 0 {
        lemma_kept_lines_clean(lines.drop_first(), cmd);
        let rest = kept_lines(lines.drop_first(), cmd);
        if !contains_seq(lines[0], cmd) {
            assert(kept_lines(lines, cmd) == seq![lines[0]] + rest);
            assert forall|k: int| 0 <= k < kept_lines(lines, cmd).len() implies !contains_seq(
                #[trigger] kept_lines(lines, cmd)[k],
                cmd,
            ) by {
                if k > 0 {
                    assert(kept_lines(lines, cmd)[k] == rest[k - 1]);
                }
            }
        }
    }
}

/// Keeping lines that are all free of the command signature keeps
/// them all.
proof fn lemma_kept_lines_identity(lines: Seq<Seq<char>>, cmd: Seq<char>)
    requires
        forall|k: int| 0 <= k < lines.len() ==> !contains_seq(#[trigger] lines[k], cmd),
    ensures
        kept_lines(lines, cmd) == lines,
    decreases lines.len(),
{
    if lines.len() > 0 {
        assert forall|k: int| 0 <= k < lines.drop_first().len() implies !contains_seq(
            #[trigger] lines.drop_first()[k],
            cmd,
        ) by {
            assert(lines.drop_first()[k] == lines[k + 1]);
        }
        lemma_kept_lines_identity(lines.drop_first(), cmd);
        assert(kept_lines(lines, cmd) =~= lines);
    } else {
        assert(kept_lines(lines, cmd) =~= lines);
    }
}

/// Appending a line distributes over keeping: the appended line stays
/// exactly when it is free of the command signature.
proof fn lemma_kept_lines_push(lines: Seq<Seq<char>>, x: Seq<char>, cmd: Seq<char>)
    ensures
        kept_lines(lines.push(x), cmd) == if contains_seq(x, cmd) {
            kept_lines(lines, cmd)
        } else {
            kept_lines(lines, cmd).push(x)
        },
    decreases lines.len(),
{
    if lines.len() == 0 {
        assert(lines.push(x).drop_first() =~= lines);
        assert(lines.push(x)[0] == x);
        if contains_seq(x, cmd) {
            assert(kept_lines(lines.push(x), cmd) =~= kept_lines(lines, cmd));
        } else {
            assert(kept_lines(lines.push(x), cmd) =~= kept_lines(lines, cmd).push(x));
        }
    } else {
        assert(lines.push(x).drop_first() =~= lines.drop_first().push(x));
        assert(lines.push(x)[0] == lines[0]);
        lemma_kept_lines_push(lines.drop_first(), x, cmd);
        let rest = kept_lines(lines.drop_first(), cmd);
        let rest_push = kept_lines(lines.drop_first().push(x), cmd);
        assert(kept_lines(lines.push(x), cmd) == if contains_seq(lines[0], cmd) {
            rest_push
        } else {
            seq![lines[0]] + rest_push
        });
        assert(kept_lines(lines, cmd) == if contains_seq(lines[0], cmd) {
            rest
        } else {
            seq![lines[0]] + rest
        });
        if contains_seq(x, cmd) {
            assert(kept_lines(lines.push(x), cmd) =~= kept_lines(lines, cmd));
        } else {
            if contains_seq(lines[0], cmd) {
                assert(kept_lines(lines.push(x), cmd) =~= kept_lines(lines, cmd).push(x));
            } else {
                assert(seq![lines[0]] + rest.push(x) =~= (seq![lines[0]] + rest).push(x));
                assert(kept_lines(lines.push(x), cmd) =~= kept_lines(lines, cmd).push(x));
            }
        }
    }
}

/// The entry an install writes mentions the command signature.
proof fn lemma_entry_line_mentions_command(expr: Seq<char>, cmd: Seq<char>)
    ensures
        contains_seq(entry_line(expr, cmd), cmd),
{
    let at = expr.len() + " "@.len() as int;
    assert(entry_line(expr, cmd).subrange(at, at + cmd.len()) =~= cmd);
    assert(occurs_at(entry_line(expr, cmd), cmd, at));
}

/// Idempotent install: planning an install over a job list that an
/// install already produced yields the same job list — the entry
/// written before is itself replaced, never duplicated.
pub proof fn lemma_install_idempotent(lines: Seq<Seq<char>>, expr: Seq<char>, cmd: Seq<char>)
    ensures
        kept_lines(kept_lines(lines, cmd).push(entry_line(expr, cmd)), cmd).push(
            entry_line(expr, cmd),
        ) == kept_lines(lines, cmd).push(entry_line(expr, cmd)),
{
    let kept = kept_lines(lines, cmd);
    lemma_entry_line_mentions_command(expr, cmd);
    lemma_kept_lines_push(kept, entry_line(expr, cmd), cmd);
    lemma_kept_lines_clean(lines, cmd);
    lemma_kept_lines_identity(kept, cmd);
}

} // verus!
