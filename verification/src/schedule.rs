//! Cron schedules: validation of schedule definitions (names, prompts
//! and cron expressions), the pure add and remove operations over the
//! schedule list, and the auto-enable rule of the scheduler. Reading
//! and writing the schedule file is the caller's concern; the cron
//! grammar itself is checked by the `croner` crate.

use vstd::prelude::*;

use crate::config::{ModelRef, ScheduleTaskConfig};
use crate::text::{ascii_lower, str_eq, to_ascii_lower, trim_spec, trim_str};

verus! {

/// Whether the `croner` crate accepts a cron pattern text.
pub uninterp spec fn cron_accepted(s: Seq<char>) -> bool;

/// Relies on `croner::Cron::from_str` (`CronParser::parse` with the
/// default settings): whether a pattern parses depends on the pattern
/// text alone.
#[verifier::external_body]
fn parse_cron(expr: &str) -> (r: bool)
    ensures
        r == cron_accepted(expr@),
{
    <croner::Cron as core::str::FromStr>::from_str(expr).is_ok()
}

/// Persistent storage of the schedule list, at a fixed path; the file
/// itself is read and written by the caller.
pub struct ScheduleStorage {
    pub path: String,
}

impl ScheduleStorage {
    /// Storage over the given file path.
    pub fn new(path: String) -> (r: ScheduleStorage)
        ensures
            r.path@ == path@,
    {
        ScheduleStorage { path }
    }
}

/// A schedule entry is complete: name, cron expression and prompt are
/// all non-blank.
pub open spec fn schedule_complete(s: &ScheduleTaskConfig) -> bool {
    trim_spec(s.name@).len() > 0 && trim_spec(s.cron@).len() > 0 && trim_spec(s.prompt@).len() > 0
}

/// The schedules with incomplete entries dropped, in order.
pub open spec fn filter_valid_spec(s: Seq<ScheduleTaskConfig>) -> Seq<ScheduleTaskConfig>
    decreases s.len(),
{
    if s.len() == 0 {
        s
    } else {
        filter_valid_spec(s.drop_last()) + (if schedule_complete(&s.last()) {
            seq![s.last()]
        } else {
            Seq::<ScheduleTaskConfig>::empty()
        })
    }
}

/// Drop incomplete schedule entries.
pub fn filter_valid_schedules(schedules: Vec<ScheduleTaskConfig>) -> (r: Vec<ScheduleTaskConfig>)
    ensures
        r@ == filter_valid_spec(schedules@),
{
    let mut r: Vec<ScheduleTaskConfig> = Vec::new();
    let n = schedules.len();
    let mut i: usize = 0;
    proof {
        assert(schedules@.subrange(0, 0) =~= Seq::<ScheduleTaskConfig>::empty());
    }
    while i < n
        invariant
            i <= n,
            n == schedules@.len(),
            r@ == filter_valid_spec(schedules@.subrange(0, i as int)),
        decreases n - i,
    {
        proof {
            let sub = schedules@.subrange(0, i + 1);
            assert(sub.drop_last() =~= schedules@.subrange(0, i as int));
            assert(sub.last() == schedules@[i as int]);
        }
        let complete = {
            let name_t = trim_str(schedules[i].name.as_str());
            let cron_t = trim_str(schedules[i].cron.as_str());
            let prompt_t = trim_str(schedules[i].prompt.as_str());
            name_t.as_str().unicode_len() > 0 && cron_t.as_str().unicode_len() > 0
                && prompt_t.as_str().unicode_len() > 0
        };
        if complete {
            r.push(schedules[i].clone());
            proof {
                assert(r@ =~= filter_valid_spec(schedules@.subrange(0, i + 1)));
            }
        } else {
            proof {
                assert(r@ =~= filter_valid_spec(schedules@.subrange(0, i + 1)));
            }
        }
        i = i + 1;
    }
    proof {
        assert(schedules@.subrange(0, n as int) =~= schedules@);
    }
    r
}

/// Error text of the schedule-adding tool.
#[derive(Debug)]
pub struct ScheduleAddError(pub String);

/// Arguments of the schedule-adding tool.
pub struct ScheduleAddArgs {
    pub name: String,
    pub cron: String,
    pub prompt: String,
    pub model: Option<ModelRef>,
}

/// Output of a schedule mutation.
#[derive(Debug)]
pub struct ScheduleMutationOutput {
    pub status: String,
    pub message: String,
    pub schedule: Option<ScheduleTaskConfig>,
}

/// The schedule-adding tool.
pub struct ScheduleAddTool {
    pub storage: ScheduleStorage,
}

impl ScheduleAddTool {
    /// A tool storing at the given path.
    pub fn new(path: String) -> (r: ScheduleAddTool)
        ensures
            r.storage.path@ == path@,
    {
        ScheduleAddTool { storage: ScheduleStorage::new(path) }
    }

    /// Check the arguments: the name and the prompt must be non-blank
    /// and the cron expression must parse.
    pub fn validate_args(args: &ScheduleAddArgs) -> (r: Result<(), String>)
        ensures
            trim_spec(args.name@).len() == 0 ==> (r matches Err(m) && m@
                == "Schedule name must not be empty"@),
            trim_spec(args.name@).len() > 0 && trim_spec(args.prompt@).len() == 0 ==> (r matches Err(
                m,
            ) && m@ == "Prompt must not be empty"@),
            r is Ok <==> trim_spec(args.name@).len() > 0 && trim_spec(args.prompt@).len() > 0
                && cron_accepted(trim_spec(args.cron@)),
    {
        if crate::text::all_space(args.name.as_str()) {
            return Err(String::from_str("Schedule name must not be empty"));
        }
        if crate::text::all_space(args.prompt.as_str()) {
            return Err(String::from_str("Prompt must not be empty"));
        }
        let trimmed = trim_str(args.cron.as_str());
        if !parse_cron(trimmed.as_str()) {
            let mut msg = String::from_str("Invalid cron expression '");
            msg.append(args.cron.as_str());
            msg.append("'");
            return Err(msg);
        }
        Ok(())
    }
}

/// Whether two names are the same up to ASCII case.
pub open spec fn same_name(a: Seq<char>, b: Seq<char>) -> bool {
    ascii_lower(a) == ascii_lower(b)
}

fn eq_ignore_case(a: &str, b: &str) -> (r: bool)
    ensures
        r == same_name(a@, b@),
{
    let la = to_ascii_lower(a);
    let lb = to_ascii_lower(b);
    str_eq(la.as_str(), lb.as_str())
}

/// Whether some schedule carries the name, up to ASCII case.
pub open spec fn has_schedule_named(s: Seq<ScheduleTaskConfig>, name: Seq<char>) -> bool {
    exists|j: int| 0 <= j < s.len() && same_name((#[trigger] s[j]).name@, name)
}

/// Add a schedule: the arguments must pass validation and the name
/// must be new (up to ASCII case). The added entry carries the trimmed
/// fields and is auto-enabled exactly when no schedule was enabled
/// before; the message says which.
pub fn apply_add(schedules: Vec<ScheduleTaskConfig>, args: &ScheduleAddArgs) -> (r: Result<
    (Vec<ScheduleTaskConfig>, ScheduleMutationOutput),
    ScheduleAddError,
>)
    ensures
        ({
            let valid = trim_spec(args.name@).len() > 0 && trim_spec(args.prompt@).len() > 0
                && cron_accepted(trim_spec(args.cron@));
            let dup = has_schedule_named(schedules@, args.name@);
            match r {
                Err(_) => !valid || dup,
                Ok(out) => {
                    let auto = !(exists|j: int|
                        0 <= j < schedules@.len() && (#[trigger] schedules@[j]).enabled);
                    &&& valid && !dup
                    &&& out.0@.len() == schedules@.len() + 1
                    &&& out.0@.subrange(0, schedules@.len() as int) == schedules@
                    &&& out.0@.last().name@ == trim_spec(args.name@)
                    &&& out.0@.last().cron@ == trim_spec(args.cron@)
                    &&& out.0@.last().prompt@ == trim_spec(args.prompt@)
                    &&& out.0@.last().model == args.model
                    &&& out.0@.last().enabled == auto
                    &&& out.1.status@ == "ok"@
                    &&& out.1.schedule matches Some(s) && s == out.0@.last()
                },
            }
        }),
{
    match ScheduleAddTool::validate_args(args) {
        Ok(_) => {},
        Err(m) => {
            return Err(ScheduleAddError(m));
        },
    }
    let n = schedules.len();
    let mut i: usize = 0;
    while i < n
        invariant
            i <= n,
            n == schedules@.len(),
            forall|j: int| 0 <= j < i ==> !same_name((#[trigger] schedules@[j]).name@, args.name@),
        decreases n - i,
    {
        if eq_ignore_case(schedules[i].name.as_str(), args.name.as_str()) {
            let mut msg = String::from_str("Schedule '");
            msg.append(args.name.as_str());
            msg.append("' already exists; remove it first to replace");
            proof {
                assert(same_name(schedules@[i as int].name@, args.name@));
            }
            return Err(ScheduleAddError(msg));
        }
        i = i + 1;
    }
    let mut any_enabled = false;
    let mut k: usize = 0;
    while k < n
        invariant
            k <= n,
            n == schedules@.len(),
            any_enabled == (exists|j: int|
                0 <= j < k && (#[trigger] schedules@[j]).enabled),
        decreases n - k,
    {
        if schedules[k].enabled {
            any_enabled = true;
        }
        k = k + 1;
    }
    let auto_enable = !any_enabled;
    let new_schedule = ScheduleTaskConfig {
        name: trim_str(args.name.as_str()),
        cron: trim_str(args.cron.as_str()),
        model: match &args.model {
            Some(m) => Some(m.clone()),
            None => None,
        },
        prompt: trim_str(args.prompt.as_str()),
        enabled: auto_enable,
    };
    let kept_schedule = new_schedule.clone();
    let mut out = schedules;
    let ghost before = out@;
    out.push(new_schedule);
    let mut message = String::from_str("Added schedule '");
    message.append(kept_schedule.name.as_str());
    message.append("' (cron: ");
    message.append(kept_schedule.cron.as_str());
    if auto_enable {
        message.append("). Schedule auto-enabled. Restart to activate.");
    } else {
        message.append("). Restart required for changes to take effect.");
    }
    proof {
        assert(out@.subrange(0, before.len() as int) =~= before);
    }
    Ok(
        (
            out,
            ScheduleMutationOutput {
                status: String::from_str("ok"),
                message,
                schedule: Some(kept_schedule),
            },
        ),
    )
}

/// Error text of the schedule-removing tool.
#[derive(Debug)]
pub struct ScheduleRemoveError(pub String);

/// Arguments of the schedule-removing tool.
pub struct ScheduleRemoveArgs {
    pub name: String,
}

/// Output of the schedule-removing tool.
#[derive(Debug)]
pub struct ScheduleRemoveOutput {
    pub status: String,
    pub message: String,
    pub removed: Option<ScheduleTaskConfig>,
}

/// The schedule-removing tool.
pub struct ScheduleRemoveTool {
    pub storage: ScheduleStorage,
}

impl ScheduleRemoveTool {
    /// A tool storing at the given path.
    pub fn new(path: String) -> (r: ScheduleRemoveTool)
        ensures
            r.storage.path@ == path@,
    {
        ScheduleRemoveTool { storage: ScheduleStorage::new(path) }
    }
}

/// Remove the first schedule whose name matches (up to ASCII case,
/// after trimming the requested name). A blank name and an unknown
/// name are each reported.
pub fn apply_remove(schedules: Vec<ScheduleTaskConfig>, name: &str) -> (r: Result<
    (Vec<ScheduleTaskConfig>, ScheduleRemoveOutput),
    ScheduleRemoveError,
>)
    ensures
        ({
            let wanted = trim_spec(name@);
            match r {
                Err(_) => wanted.len() == 0 || !has_schedule_named(schedules@, wanted),
                Ok(out) => {
                    &&& wanted.len() > 0
                    &&& has_schedule_named(schedules@, wanted)
                    &&& out.0@.len() == schedules@.len() - 1
                    &&& out.1.status@ == "ok"@
                    &&& exists|j: int|
                        0 <= j < schedules@.len() && same_name(
                            (#[trigger] schedules@[j]).name@,
                            wanted,
                        ) && out.0@ == schedules@.remove(j) && (out.1.removed matches Some(rm)
                            && rm == schedules@[j])
                },
            }
        }),
{
    if crate::text::all_space(name) {
        return Err(ScheduleRemoveError(String::from_str("Schedule name must not be empty")));
    }
    let wanted = trim_str(name);
    let n = schedules.len();
    let mut i: usize = 0;
    while i < n
        invariant
            i <= n,
            n == schedules@.len(),
            wanted@ == trim_spec(name@),
            trim_spec(name@).len() > 0,
            forall|j: int|
                0 <= j < i ==> !same_name((#[trigger] schedules@[j]).name@, wanted@),
        decreases n - i,
    {
        if eq_ignore_case(schedules[i].name.as_str(), wanted.as_str()) {
            let removed_schedule = schedules[i].clone();
            let mut out = schedules;
            let ghost before = out@;
            let _gone = out.remove(i);
            let mut message = String::from_str("Removed schedule '");
            message.append(removed_schedule.name.as_str());
            message.append("'. Restart required for changes to take effect.");
            proof {
                assert(same_name((#[trigger] before[i as int]).name@, wanted@));
                assert(has_schedule_named(before, wanted@));
                assert(out@ =~= before.remove(i as int));
            }
            return Ok(
                (
                    out,
                    ScheduleRemoveOutput {
                        status: String::from_str("ok"),
                        message,
                        removed: Some(removed_schedule),
                    },
                ),
            );
        }
        i = i + 1;
    }
    proof {
        assert(!has_schedule_named(schedules@, trim_spec(name@)));
    }
    let mut msg = String::from_str("Schedule '");
    msg.append(name);
    msg.append("' not found");
    Err(ScheduleRemoveError(msg))
}

/// Error text of the schedule-viewing tool.
#[derive(Debug)]
pub struct ScheduleViewError(pub String);

/// Arguments of the schedule-viewing tool: an optional name filter.
pub struct ScheduleViewArgs {
    pub name: Option<String>,
}

/// The schedule-viewing tool.
pub struct ScheduleViewTool {
    pub schedules_path: String,
}

impl ScheduleViewTool {
    /// A tool reading from the given path.
    pub fn new(schedules_path: String) -> (r: ScheduleViewTool)
        ensures
            r.schedules_path@ == schedules_path@,
    {
        ScheduleViewTool { schedules_path }
    }
}

/// Enable the first schedule when none is enabled; returns whether one
/// was enabled this way.
pub fn auto_enable_first(tasks: &mut Vec<ScheduleTaskConfig>) -> (r: bool)
    ensures
        r == (!(exists|j: int| 0 <= j < old(tasks)@.len() && (#[trigger] old(tasks)@[j]).enabled)
            && old(tasks)@.len() > 0),
        !r ==> final(tasks)@ == old(tasks)@,
        r ==> final(tasks)@ == old(tasks)@.update(
            0,
            ScheduleTaskConfig { enabled: true, ..old(tasks)@[0] },
        ),
{
    let n = tasks.len();
    let mut any_enabled = false;
    let mut k: usize = 0;
    while k < n
        invariant
            k <= n,
            n == tasks@.len(),
            *tasks == *old(tasks),
            any_enabled == (exists|j: int| 0 <= j < k && (#[trigger] tasks@[j]).enabled),
        decreases n - k,
    {
        if tasks[k].enabled {
            any_enabled = true;
        }
        k = k + 1;
    }
    if !any_enabled && tasks.len() > 0 {
        let mut first = tasks.remove(0);
        first.enabled = true;
        tasks.insert(0, first);
        proof {
            assert(final(tasks)@ =~~= old(tasks)@.update(
                0,
                ScheduleTaskConfig { enabled: true, ..old(tasks)@[0] },
            ));
        }
        true
    } else {
        false
    }
}

} // verus!
