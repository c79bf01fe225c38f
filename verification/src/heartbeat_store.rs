//! The heartbeat task ledger: a markdown file with one line per task
//! (`- [status] id: Title`), optional indented description lines, and
//! a free-form header. Parsing, serialization, the status state
//! machine, and the task-prompt selection are all pure; reading and
//! writing the file is the caller's concern.

use vstd::prelude::*;

use crate::text::{
    ascii_lower, concat_seqs, ends_with_spec, ends_with_chars, chars_of, find_char, has_sub,
    index_of_char, join_seqs, split_lines, split_lines_spec, starts_with_chars, starts_with_spec,
    string_of, str_views, trim_slice, trim_spec, trim_str,
};

verus! {

/// Status of a heartbeat task.
#[derive(Debug, Clone, Copy, PartialEq, Eq, Structural)]
pub enum TaskStatus {
    Pending,
    InProgress,
    Done,
    Failed,
}

impl TaskStatus {
    pub open spec fn label_spec(&self) -> Seq<char> {
        match self {
            TaskStatus::Pending => "pending"@,
            TaskStatus::InProgress => "in-progress"@,
            TaskStatus::Done => "done"@,
            TaskStatus::Failed => "failed"@,
        }
    }

    /// The status in its textual form.
    pub fn label(&self) -> (r: String)
        ensures
            r@ == self.label_spec(),
    {
        match self {
            TaskStatus::Pending => String::from_str("pending"),
            TaskStatus::InProgress => String::from_str("in-progress"),
            TaskStatus::Done => String::from_str("done"),
            TaskStatus::Failed => String::from_str("failed"),
        }
    }

    /// The status named by a text, after trimming and lower-casing.
    pub open spec fn parse_spec(s: Seq<char>) -> Option<TaskStatus> {
        let t = ascii_lower(trim_spec(s));
        if t == "pending"@ {
            Some(TaskStatus::Pending)
        } else if t == "in-progress"@ {
            Some(TaskStatus::InProgress)
        } else if t == "done"@ {
            Some(TaskStatus::Done)
        } else if t == "failed"@ {
            Some(TaskStatus::Failed)
        } else {
            None
        }
    }

    /// Parse a status name; unknown names are reported in the error.
    pub fn parse(s: &str) -> (r: Result<TaskStatus, String>)
        ensures
            match r {
                Ok(st) => Self::parse_spec(s@) == Some(st),
                Err(msg) => Self::parse_spec(s@) is None && msg@ == "Unknown task status: '"@
                    + ascii_lower(trim_spec(s@)) + "'"@,
            },
    {
        let trimmed = trim_str(s);
        let lower = crate::text::to_ascii_lower(trimmed.as_str());
        if crate::text::str_eq(lower.as_str(), "pending") {
            Ok(TaskStatus::Pending)
        } else if crate::text::str_eq(lower.as_str(), "in-progress") {
            Ok(TaskStatus::InProgress)
        } else if crate::text::str_eq(lower.as_str(), "done") {
            Ok(TaskStatus::Done)
        } else if crate::text::str_eq(lower.as_str(), "failed") {
            Ok(TaskStatus::Failed)
        } else {
            let mut msg = String::from_str("Unknown task status: '");
            msg.append(lower.as_str());
            msg.append("'");
            Err(msg)
        }
    }
}

/// A single heartbeat task entry.
#[derive(Debug)]
pub struct HeartbeatTask {
    pub id: String,
    pub status: TaskStatus,
    pub title: String,
    pub description: Option<String>,
}

/// The mathematical value of a task.
#[verifier::ext_equal]
pub ghost struct TaskView {
    pub id: Seq<char>,
    pub status: TaskStatus,
    pub title: Seq<char>,
    pub description: Option<Seq<char>>,
}

impl View for HeartbeatTask {
    type V = TaskView;

    open spec fn view(&self) -> TaskView {
        TaskView {
            id: self.id@,
            status: self.status,
            title: self.title@,
            description: match self.description {
                Some(ref d) => Some(d@),
                None => None,
            },
        }
    }
}

impl Clone for HeartbeatTask {
    fn clone(&self) -> (r: Self)
        ensures
            r@ == self@,
    {
        HeartbeatTask {
            id: self.id.clone(),
            status: self.status,
            title: self.title.clone(),
            description: match &self.description {
                Some(d) => Some(d.clone()),
                None => None,
            },
        }
    }
}

/// The views of a task sequence.
pub open spec fn task_views(s: Seq<HeartbeatTask>) -> Seq<TaskView> {
    s.map_values(|t: HeartbeatTask| t@)
}

/// The full heartbeat ledger.
#[derive(Debug)]
pub struct HeartbeatLedger {
    pub header: String,
    pub tasks: Vec<HeartbeatTask>,
}

/// Whether a status transition is allowed: a pending task may start,
/// and a started task may finish or fail.
pub open spec fn transition_allowed(from: TaskStatus, to: TaskStatus) -> bool {
    ||| (from is Pending && to is InProgress)
    ||| (from is InProgress && to is Done)
    ||| (from is InProgress && to is Failed)
}

/// True iff the transition `from -> to` is allowed.
pub fn validate_transition(from: &TaskStatus, to: &TaskStatus) -> (r: bool)
    ensures
        r == transition_allowed(*from, *to),
{
    match (from, to) {
        (TaskStatus::Pending, TaskStatus::InProgress) => true,
        (TaskStatus::InProgress, TaskStatus::Done) => true,
        (TaskStatus::InProgress, TaskStatus::Failed) => true,
        _ => false,
    }
}

/// The parse of one task line `- [status] id: Title`, if it is one.
pub open spec fn task_line_spec(line: Seq<char>) -> Option<(Seq<char>, TaskStatus, Seq<char>)> {
    let t = trim_start_of(line);
    if !starts_with_spec(t, "- ["@) {
        None
    } else {
        let rest = t.subrange(3, t.len() as int);
        let b = find_char(rest, ']');
        if b < 0 {
            None
        } else {
            match TaskStatus::parse_spec(rest.subrange(0, b)) {
                None => None,
                Some(status) => {
                    let after = trim_start_of(rest.subrange(b + 1, rest.len() as int));
                    let c = find_char(after, ':');
                    if c < 0 {
                        None
                    } else {
                        let id = trim_spec(after.subrange(0, c));
                        let title = trim_spec(after.subrange(c + 1, after.len() as int));
                        if id.len() == 0 || title.len() == 0 {
                            None
                        } else {
                            Some((id, status, title))
                        }
                    }
                },
            }
        }
    }
}

/// Leading white space removed (alias used by the parsing specs).
pub open spec fn trim_start_of(s: Seq<char>) -> Seq<char> {
    crate::text::trim_start_spec(s)
}

/// Whether a line continues a description, executably.
fn is_desc_line_exec(line: &str) -> (r: bool)
    ensures
        r == is_desc_line(line@),
{
    let line_chars = chars_of(line);
    let indent = chars_of("  ");
    starts_with_chars(line_chars.as_slice(), indent.as_slice()) && trim_slice(
        line_chars.as_slice(),
    ).len() > 0
}

/// Leading white space removed.
fn trim_start_str(s: &str) -> (r: Vec<char>)
    ensures
        r@ == trim_start_of(s@),
{
    let v = chars_of(s);
    let n = v.len();
    let mut a: usize = 0;
    while a < n && crate::text::is_space(v[a])
        invariant
            a <= n,
            n == v@.len(),
            forall|k: int| 0 <= k < a ==> crate::text::is_space_char(#[trigger] v@[k]),
        decreases n - a,
    {
        a = a + 1;
    }
    let mut r: Vec<char> = Vec::new();
    let mut i: usize = a;
    while i < n
        invariant
            a <= i <= n,
            n == v@.len(),
            r@ == v@.subrange(a as int, i as int),
        decreases n - i,
    {
        r.push(v[i]);
        i = i + 1;
        proof {
            assert(r@ =~= v@.subrange(a as int, i as int));
        }
    }
    proof {
        crate::text::lemma_trim_start_at(v@, a as int);
    }
    r
}

/// Try to parse a single task line.
pub fn parse_task_line(line: &str) -> (r: Option<(String, TaskStatus, String)>)
    ensures
        match r {
            Some(p) => task_line_spec(line@) == Some((p.0@, p.1, p.2@)),
            None => task_line_spec(line@) is None,
        },
{
    let t = trim_start_str(line);
    let prefix = chars_of("- [");
    proof {
        reveal_strlit("- [");
    }
    if !starts_with_chars(t.as_slice(), prefix.as_slice()) {
        return None;
    }
    let rest = crate::text::sub_chars(t.as_slice(), 3, t.len());
    let b = match index_of_char(rest.as_slice(), ']') {
        Some(b) => b,
        None => {
            return None;
        },
    };
    let ghost restv = rest@;
    let status_part = crate::text::sub_chars(rest.as_slice(), 0, b);
    let status_str = string_of(status_part.as_slice());
    let status = match TaskStatus::parse(status_str.as_str()) {
        Ok(s) => s,
        Err(_) => {
            return None;
        },
    };
    let after_part = crate::text::sub_chars(rest.as_slice(), b + 1, rest.len());
    let after_raw = string_of(after_part.as_slice());
    let after = trim_start_str(after_raw.as_str());
    let c = match index_of_char(after.as_slice(), ':') {
        Some(c) => c,
        None => {
            return None;
        },
    };
    let ghost afterv = after@;
    let alen = after.len();
    proof {
        assert(c < after@.len());
    }
    let id_raw = crate::text::sub_chars(after.as_slice(), 0, c);
    let id_part = trim_slice(id_raw.as_slice());
    let title_raw = crate::text::sub_chars(after.as_slice(), c + 1, alen);
    let title_part = trim_slice(title_raw.as_slice());
    if id_part.len() == 0 || title_part.len() == 0 {
        return None;
    }
    Some((string_of(id_part.as_slice()), status, string_of(title_part.as_slice())))
}

/// Whether a line continues a task's description: indented and not
/// blank.
pub open spec fn is_desc_line(line: Seq<char>) -> bool {
    starts_with_spec(line, "  "@) && trim_spec(line).len() > 0
}

/// The first index at or after `j` that does not continue a
/// description.
pub open spec fn desc_end(lines: Seq<Seq<char>>, j: int) -> int
    decreases lines.len() - j,
{
    if j < 0 || j >= lines.len() || !is_desc_line(lines[j]) {
        j
    } else {
        desc_end(lines, j + 1)
    }
}

/// The lines each trimmed.
pub open spec fn trimmed_views(s: Seq<Seq<char>>) -> Seq<Seq<char>> {
    s.map_values(|l: Seq<char>| trim_spec(l))
}

/// A header with one more line appended: lines are separated by
/// newlines, but an empty accumulated header takes the line as is.
pub open spec fn header_append(acc: Seq<char>, line: Seq<char>) -> Seq<char> {
    if acc.len() == 0 {
        line
    } else {
        acc + "\n"@ + line
    }
}

/// The parse of the lines from index `i` on: task lines become tasks
/// (collecting their indented description lines); other lines extend
/// the header until the first task line, and are dropped afterwards.
pub open spec fn parse_from_spec(lines: Seq<Seq<char>>, i: int, in_tasks: bool, acc: Seq<char>) -> (
    Seq<char>,
    Seq<TaskView>,
)
    decreases lines.len() - i when 0 <= i via parse_from_spec_dec
{
    if i >= lines.len() {
        (acc, Seq::<TaskView>::empty())
    } else {
        match task_line_spec(lines[i]) {
            Some(p) => {
                let j = desc_end(lines, i + 1);
                let desc_lines = trimmed_views(lines.subrange(i + 1, j));
                let desc = if desc_lines.len() == 0 {
                    None
                } else {
                    Some(join_seqs(desc_lines, "\n"@))
                };
                let tv = TaskView { id: p.0, status: p.1, title: p.2, description: desc };
                let (h, ts) = parse_from_spec(lines, j, true, acc);
                (h, seq![tv] + ts)
            },
            None => {
                if in_tasks {
                    parse_from_spec(lines, i + 1, true, acc)
                } else {
                    parse_from_spec(lines, i + 1, false, header_append(acc, lines[i]))
                }
            },
        }
    }
}

#[via_fn]
proof fn parse_from_spec_dec(lines: Seq<Seq<char>>, i: int, in_tasks: bool, acc: Seq<char>) {
    if 0 <= i && i < lines.len() {
        lemma_desc_end_bounds(lines, i + 1);
    }
}

/// The parse of a whole ledger text.
pub open spec fn parse_ledger_spec(text: Seq<char>) -> (Seq<char>, Seq<TaskView>) {
    parse_from_spec(split_lines_spec(text), 0, false, Seq::<char>::empty())
}

pub proof fn lemma_desc_end_bounds(lines: Seq<Seq<char>>, j: int)
    requires
        0 <= j <= lines.len(),
    ensures
        j <= desc_end(lines, j) <= lines.len(),
    decreases lines.len() - j,
{
    if !(j >= lines.len() || !is_desc_line(lines[j])) {
        lemma_desc_end_bounds(lines, j + 1);
    }
}

fn parse_from(lines: &Vec<String>, i: usize, in_tasks: bool, acc: String) -> (r: (
    String,
    Vec<HeartbeatTask>,
))
    requires
        i <= lines@.len(),
    ensures
        ({
            let (h, ts) = parse_from_spec(str_views(lines@), i as int, in_tasks, acc@);
            r.0@ == h && task_views(r.1@) == ts
        }),
    decreases lines@.len() - i,
{
    let ghost lv = str_views(lines@);
    if i >= lines.len() {
        let r = (acc, Vec::<HeartbeatTask>::new());
        proof {
            assert(task_views(r.1@) =~= Seq::<TaskView>::empty());
        }
        return r;
    }
    proof {
        assert(lv[i as int] == lines@[i as int]@);
    }
    match parse_task_line(lines[i].as_str()) {
        Some(p) => {
            let mut j: usize = i + 1;
            while j < lines.len() && is_desc_line_exec(lines[j].as_str())
                invariant
                    i + 1 <= j <= lines@.len(),
                    lv == str_views(lines@),
                    desc_end(lv, i + 1) == desc_end(lv, j as int),
                decreases lines@.len() - j,
            {
                proof {
                    assert(lv[j as int] == lines@[j as int]@);
                    assert(is_desc_line(lv[j as int]));
                }
                j = j + 1;
            }
            proof {
                if j < lines@.len() {
                    assert(lv[j as int] == lines@[j as int]@);
                    assert(!is_desc_line(lv[j as int]));
                }
                assert(desc_end(lv, j as int) == j);
            }
            let mut desc_parts: Vec<String> = Vec::new();
            let mut k: usize = i + 1;
            proof {
                assert(str_views(desc_parts@) =~= trimmed_views(lv.subrange(i + 1, i + 1)));
            }
            while k < j
                invariant
                    i + 1 <= k <= j <= lines@.len(),
                    lv == str_views(lines@),
                    str_views(desc_parts@) == trimmed_views(lv.subrange(i + 1, k as int)),
                decreases j - k,
            {
                let trimmed = trim_str(lines[k].as_str());
                let ghost pre = desc_parts@;
                let ghost tv2 = trimmed@;
                desc_parts.push(trimmed);
                k = k + 1;
                proof {
                    assert(lv.len() == lines@.len());
                    assert(str_views(pre).len() == pre.len());
                    assert(trimmed_views(lv.subrange(i + 1, k - 1)).len() == k - 1 - (i + 1));
                    assert(pre.len() == k - 1 - (i + 1));
                    assert(forall|x: int| 0 <= x < pre.len() ==> desc_parts@[x] == pre[x]);
                    assert(desc_parts@[desc_parts@.len() - 1]@ == tv2);
                    assert(forall|x: int|
                        0 <= x < pre.len() ==> #[trigger] str_views(desc_parts@)[x] == str_views(
                            pre,
                        )[x]);
                    assert(lv[k - 1] == lines@[k - 1]@);
                    assert(tv2 == trim_spec(lv[k - 1]));
                    assert forall|x: int| 0 <= x < pre.len() implies #[trigger] trimmed_views(
                        lv.subrange(i + 1, k - 1),
                    )[x] == trim_spec(lv[i + 1 + x]) by {
                        assert(lv.subrange(i + 1, k - 1)[x] == lv[i + 1 + x]);
                    }
                    assert forall|x: int| 0 <= x < k - i - 1 implies #[trigger] trimmed_views(
                        lv.subrange(i + 1, k as int),
                    )[x] == trim_spec(lv[i + 1 + x]) by {
                        assert(lv.subrange(i + 1, k as int)[x] == lv[i + 1 + x]);
                    }
                    assert(str_views(desc_parts@) =~= trimmed_views(lv.subrange(i + 1, k as int)));
                }
            }
            let description: Option<String> = if desc_parts.len() == 0 {
                None
            } else {
                Some(crate::text::join_strings(&desc_parts, "\n"))
            };
            let (h, rest) = parse_from(lines, j, true, acc);
            let task = HeartbeatTask { id: p.0, status: p.1, title: p.2, description };
            let ghost tv = task@;
            let mut tasks = rest;
            tasks.insert(0, task);
            proof {
                assert(task_views(tasks@) =~= seq![tv] + task_views(tasks@.subrange(
                    1,
                    tasks@.len() as int,
                )));
                assert(tasks@.subrange(1, tasks@.len() as int) =~= tasks@.drop_first());
                assert(task_views(tasks@.drop_first()) =~= task_views(tasks@).drop_first());
            }
            (h, tasks)
        },
        None => {
            if in_tasks {
                parse_from(lines, i + 1, true, acc)
            } else {
                let acc2: String = if acc.as_str().unicode_len() == 0 {
                    lines[i].clone()
                } else {
                    let mut a = acc;
                    a.append("\n");
                    a.append(lines[i].as_str());
                    a
                };
                parse_from(lines, i + 1, false, acc2)
            }
        },
    }
}

/// Parse a heartbeat ledger from text. Malformed lines before the
/// first task are kept in the header; malformed lines between tasks
/// are dropped; never panics on any input.
pub fn parse(text: &str) -> (r: HeartbeatLedger)
    ensures
        ({
            let (h, ts) = parse_ledger_spec(text@);
            r.header@ == h && task_views(r.tasks@) == ts
        }),
{
    let lines = split_lines(text);
    let (header, tasks) = parse_from(&lines, 0, false, String::new());
    HeartbeatLedger { header, tasks }
}

/// The serialized form of one task: its line, then one indented line
/// per description line.
pub open spec fn serialize_task_spec(t: TaskView) -> Seq<char> {
    "- ["@ + t.status.label_spec() + "] "@ + t.id + ": "@ + t.title + "\n"@ + (match t.description {
        Some(d) => concat_seqs(desc_lines_out(split_lines_spec(d))),
        None => Seq::<char>::empty(),
    })
}

/// Each description line in its serialized, indented form.
pub open spec fn desc_lines_out(s: Seq<Seq<char>>) -> Seq<Seq<char>> {
    s.map_values(|l: Seq<char>| "  "@ + l + "\n"@)
}

/// The serialized forms of the tasks.
pub open spec fn serialized_tasks(s: Seq<TaskView>) -> Seq<Seq<char>> {
    s.map_values(|t: TaskView| serialize_task_spec(t))
}

/// The serialized header: the header text, padded to end with a blank
/// line, or nothing when the header is empty.
pub open spec fn serialize_header_spec(h: Seq<char>) -> Seq<char> {
    if h.len() == 0 {
        Seq::<char>::empty()
    } else {
        let h1 = if ends_with_spec(h, "\n"@) {
            h
        } else {
            h + "\n"@
        };
        if ends_with_spec(h1, "\n\n"@) {
            h1
        } else {
            h1 + "\n"@
        }
    }
}

/// The serialized form of a ledger.
pub open spec fn serialize_spec(header: Seq<char>, tasks: Seq<TaskView>) -> Seq<char> {
    serialize_header_spec(header) + concat_seqs(serialized_tasks(tasks))
}

proof fn lemma_concat_push(parts: Seq<Seq<char>>, x: Seq<char>)
    ensures
        concat_seqs(parts.push(x)) == concat_seqs(parts) + x,
{
    let p2 = parts.push(x);
    assert(p2.drop_last() =~= parts);
    assert(p2.last() == x);
}

/// Serialize a ledger back to markdown.
#[verifier::rlimit(80)]
pub fn serialize(ledger: &HeartbeatLedger) -> (r: String)
    ensures
        r@ == serialize_spec(ledger.header@, task_views(ledger.tasks@)),
{
    let mut out = String::new();
    if ledger.header.as_str().unicode_len() > 0 {
        out.append(ledger.header.as_str());
        let hv = chars_of(ledger.header.as_str());
        let nl = chars_of("\n");
        if !ends_with_chars(hv.as_slice(), nl.as_slice()) {
            out.append("\n");
        }
        let ov = chars_of(out.as_str());
        let nlnl = chars_of("\n\n");
        if !ends_with_chars(ov.as_slice(), nlnl.as_slice()) {
            out.append("\n");
        }
    }
    proof {
        assert(out@ == serialize_header_spec(ledger.header@));
    }
    let ghost tvs = task_views(ledger.tasks@);
    let n = ledger.tasks.len();
    let mut i: usize = 0;
    proof {
        assert(serialized_tasks(tvs.subrange(0, 0)) =~= Seq::<Seq<char>>::empty());
        assert(out@ =~= serialize_header_spec(ledger.header@) + concat_seqs(
            serialized_tasks(tvs.subrange(0, 0)),
        ));
    }
    while i < n
        invariant
            i <= n,
            n == ledger.tasks@.len(),
            tvs == task_views(ledger.tasks@),
            out@ == serialize_header_spec(ledger.header@) + concat_seqs(
                serialized_tasks(tvs.subrange(0, i as int)),
            ),
        decreases n - i,
    {
        let task = &ledger.tasks[i];
        let ghost out_pre = out@;
        out.append("- [");
        out.append(task.status.label().as_str());
        out.append("] ");
        out.append(task.id.as_str());
        out.append(": ");
        out.append(task.title.as_str());
        out.append("\n");
        let ghost line_done = out@;
        match &task.description {
            Some(desc) => {
                let desc_lines = split_lines(desc.as_str());
                let ghost dls = split_lines_spec(desc@);
                let m = desc_lines.len();
                let mut k: usize = 0;
                proof {
                    assert(desc_lines_out(dls.subrange(0, 0)) =~= Seq::<Seq<char>>::empty());
                    assert(out@ =~= line_done + concat_seqs(desc_lines_out(dls.subrange(0, 0))));
                }
                while k < m
                    invariant
                        k <= m,
                        m == desc_lines@.len(),
                        str_views(desc_lines@) == dls,
                        out@ == line_done + concat_seqs(desc_lines_out(dls.subrange(0, k as int))),
                    decreases m - k,
                {
                    proof {
                        lemma_concat_push(
                            desc_lines_out(dls.subrange(0, k as int)),
                            "  "@ + dls[k as int] + "\n"@,
                        );
                        assert(desc_lines_out(dls.subrange(0, k + 1)) =~= desc_lines_out(
                            dls.subrange(0, k as int),
                        ).push("  "@ + dls[k as int] + "\n"@));
                        assert(dls[k as int] == desc_lines@[k as int]@);
                    }
                    out.append("  ");
                    out.append(desc_lines[k].as_str());
                    out.append("\n");
                    k = k + 1;
                }
                proof {
                    assert(dls.subrange(0, m as int) =~= dls);
                }
            },
            None => {},
        }
        i = i + 1;
        proof {
            assert(tvs[i - 1] == ledger.tasks@[i - 1]@);
            assert(out@ == out_pre + serialize_task_spec(tvs[i - 1]));
            assert(serialized_tasks(tvs.subrange(0, i as int)) =~= serialized_tasks(
                tvs.subrange(0, i - 1),
            ).push(serialize_task_spec(tvs[i - 1])));
            lemma_concat_push(
                serialized_tasks(tvs.subrange(0, i - 1)),
                serialize_task_spec(tvs[i - 1]),
            );
        }
    }
    proof {
        assert(tvs.subrange(0, n as int) =~= tvs);
    }
    out
}


/// `input` with exactly one trailing newline added when it lacks one.
pub fn ensure_trailing_newline(input: &str) -> (r: String)
    ensures
        r@ == if ends_with_spec(input@, "\n"@) {
            input@
        } else {
            input@ + "\n"@
        },
{
    let v = chars_of(input);
    let nl = chars_of("\n");
    if ends_with_chars(v.as_slice(), nl.as_slice()) {
        String::from_str(input)
    } else {
        let mut s = String::from_str(input);
        s.append("\n");
        s
    }
}

/// Error text of the heartbeat-editing tool.
#[derive(Debug)]
pub struct HeartbeatEditError(pub String);

/// The editing mode; only whole-content replacement exists.
#[derive(Debug, Clone, Copy, PartialEq, Eq, Structural)]
pub enum HeartbeatEditMode {
    Replace,
}

impl Default for HeartbeatEditMode {
    fn default() -> (r: Self)
        ensures
            r is Replace,
    {
        HeartbeatEditMode::Replace
    }
}

/// Arguments of the heartbeat-editing tool.
pub struct HeartbeatEditArgs {
    pub content: String,
    pub mode: HeartbeatEditMode,
}

/// Output of the heartbeat-editing tool.
#[derive(Debug)]
pub struct HeartbeatEditOutput {
    pub status: String,
    pub message: String,
    pub task_count: usize,
}

/// The heartbeat-editing tool: replaces the ledger file at a fixed
/// path with validated markdown.
pub struct HeartbeatEditTool {
    pub heartbeat_path: String,
}

impl HeartbeatEditTool {
    /// A tool over the given ledger file path.
    pub fn new(heartbeat_path: String) -> (r: HeartbeatEditTool)
        ensures
            r.heartbeat_path@ == heartbeat_path@,
    {
        HeartbeatEditTool { heartbeat_path }
    }

    /// Check replacement content: it must not be blank and must carry
    /// a `# Heartbeat` header.
    pub fn validate_content(&self, args: &HeartbeatEditArgs) -> (r: Result<(), String>)
        ensures
            trim_spec(args.content@).len() == 0 ==> (r matches Err(m) && m@
                == "Heartbeat content must not be empty"@),
            trim_spec(args.content@).len() > 0 && !has_sub(args.content@, "# Heartbeat"@) ==> (r
                matches Err(m) && m@
                == "Heartbeat content must include a '# Heartbeat...' header"@),
            trim_spec(args.content@).len() > 0 && has_sub(args.content@, "# Heartbeat"@) ==> r
                is Ok,
    {
        if crate::text::all_space(args.content.as_str()) {
            return Err(String::from_str("Heartbeat content must not be empty"));
        }
        if !crate::text::contains_sub(args.content.as_str(), "# Heartbeat") {
            return Err(
                String::from_str("Heartbeat content must include a '# Heartbeat...' header"),
            );
        }
        match args.mode {
            HeartbeatEditMode::Replace => Ok(()),
        }
    }
}

/// Error text of the heartbeat status-update tool.
#[derive(Debug)]
pub struct HeartbeatWriteError(pub String);

/// Arguments of the heartbeat status-update tool.
pub struct HeartbeatWriteArgs {
    pub task_id: String,
    pub new_status: String,
    pub note: Option<String>,
}

/// The heartbeat status-update tool: moves one task through the
/// status state machine in the ledger file at a fixed path.
pub struct HeartbeatWriteTool {
    pub heartbeat_md_path: String,
}

impl HeartbeatWriteTool {
    /// A tool over the given ledger file path.
    pub fn new(heartbeat_md_path: String) -> (r: HeartbeatWriteTool)
        ensures
            r.heartbeat_md_path@ == heartbeat_md_path@,
    {
        HeartbeatWriteTool { heartbeat_md_path }
    }
}

/// The index of the first task with the id, or -1.
pub open spec fn task_idx_of(tasks: Seq<TaskView>, id: Seq<char>) -> int
    decreases tasks.len(),
{
    if tasks.len() == 0 {
        -1
    } else if tasks.first().id == id {
        0
    } else {
        let r = task_idx_of(tasks.drop_first(), id);
        if r < 0 {
            -1
        } else {
            r + 1
        }
    }
}

proof fn lemma_task_idx_at(tasks: Seq<TaskView>, id: Seq<char>, i: int)
    requires
        0 <= i < tasks.len(),
        tasks[i].id == id,
        forall|k: int| 0 <= k < i ==> (#[trigger] tasks[k]).id != id,
    ensures
        task_idx_of(tasks, id) == i,
    decreases tasks.len(),
{
    if i > 0 {
        let d = tasks.drop_first();
        assert(d[i - 1].id == id);
        assert(forall|k: int| 0 <= k < i - 1 ==> (#[trigger] d[k]).id != id);
        lemma_task_idx_at(d, id, i - 1);
    }
}

proof fn lemma_task_idx_none(tasks: Seq<TaskView>, id: Seq<char>)
    requires
        forall|k: int| 0 <= k < tasks.len() ==> (#[trigger] tasks[k]).id != id,
    ensures
        task_idx_of(tasks, id) == -1,
    decreases tasks.len(),
{
    if tasks.len() > 0 {
        let d = tasks.drop_first();
        assert(forall|k: int| 0 <= k < d.len() ==> (#[trigger] d[k]).id != id);
        lemma_task_idx_none(d, id);
    }
}

/// A description with a note appended on a new line (or the note
/// alone, where there was none).
pub open spec fn desc_with_note(desc: Option<Seq<char>>, note: Seq<char>) -> Option<Seq<char>> {
    match desc {
        Some(d) => Some(d + "\n"@ + note),
        None => Some(note),
    }
}

/// Move one task to a new status, appending an optional note to its
/// description. The status text must name a status, the task must
/// exist, and the transition must be allowed; each failure is
/// reported, in that order, and leaves the ledger unchanged.
pub fn apply_status_update(
    ledger: &mut HeartbeatLedger,
    task_id: &str,
    new_status: &str,
    note: Option<&str>,
) -> (r: Result<String, String>)
    ensures
        ({
            let tasks = task_views(old(ledger).tasks@);
            let idx = task_idx_of(tasks, task_id@);
            match TaskStatus::parse_spec(new_status@) {
                None => r is Err && final(ledger).header@ == old(ledger).header@ && task_views(
                    final(ledger).tasks@,
                ) == tasks,
                Some(ns) => {
                    if idx < 0 {
                        r is Err && final(ledger).header@ == old(ledger).header@ && task_views(
                            final(ledger).tasks@,
                        ) == tasks
                    } else if !transition_allowed(tasks[idx].status, ns) {
                        r is Err && final(ledger).header@ == old(ledger).header@ && task_views(
                            final(ledger).tasks@,
                        ) == tasks
                    } else {
                        let updated = TaskView {
                            status: ns,
                            description: match note {
                                Some(nt) => if nt@.len() > 0 {
                                    desc_with_note(tasks[idx].description, nt@)
                                } else {
                                    tasks[idx].description
                                },
                                None => tasks[idx].description,
                            },
                            ..tasks[idx]
                        };
                        &&& r matches Ok(m) && m@ == "Task '"@ + task_id@ + "' updated to "@
                            + ns.label_spec()
                        &&& final(ledger).header@ == old(ledger).header@
                        &&& task_views(final(ledger).tasks@) == tasks.update(idx, updated)
                    }
                },
            }
        }),
{
    let ghost tasks0 = task_views(ledger.tasks@);
    let new_st = match TaskStatus::parse(new_status) {
        Ok(s) => s,
        Err(e) => {
            return Err(e);
        },
    };
    let n = ledger.tasks.len();
    let mut i: usize = 0;
    while i < n
        invariant
            i <= n,
            n == ledger.tasks@.len(),
            *ledger == *old(ledger),
            tasks0 == task_views(ledger.tasks@),
            TaskStatus::parse_spec(new_status@) == Some(new_st),
            forall|k: int| 0 <= k < i ==> (#[trigger] tasks0[k]).id != task_id@,
        decreases n - i,
    {
        if crate::text::str_eq(ledger.tasks[i].id.as_str(), task_id) {
            proof {
                assert(tasks0[i as int] == ledger.tasks@[i as int]@);
                lemma_task_idx_at(tasks0, task_id@, i as int);
            }
            let mut task = ledger.tasks.remove(i);
            let ghost tpre = task@;
            if !validate_transition(&task.status, &new_st) {
                let mut msg = String::from_str("Invalid transition: ");
                msg.append(task.status.label().as_str());
                msg.append(" -> ");
                msg.append(new_st.label().as_str());
                msg.append(" for task '");
                msg.append(task_id);
                msg.append("'");
                ledger.tasks.insert(i, task);
                proof {
                    assert(task_views(ledger.tasks@) =~~= tasks0);
                }
                return Err(msg);
            }
            task.status = new_st;
            match note {
                Some(nt) => {
                    if nt.unicode_len() > 0 {
                        let new_desc: String = match &task.description {
                            Some(d) => {
                                let mut nd = d.clone();
                                nd.append("\n");
                                nd.append(nt);
                                nd
                            },
                            None => String::from_str(nt),
                        };
                        task.description = Some(new_desc);
                    }
                },
                None => {},
            }
            let ghost tafter = task@;
            ledger.tasks.insert(i, task);
            let mut msg = String::from_str("Task '");
            msg.append(task_id);
            msg.append("' updated to ");
            msg.append(new_st.label().as_str());
            proof {
                assert(task_views(ledger.tasks@) =~~= tasks0.update(i as int, tafter));
            }
            return Ok(msg);
        }
        proof {
            assert(tasks0[i as int] == ledger.tasks@[i as int]@);
        }
        i = i + 1;
    }
    proof {
        lemma_task_idx_none(tasks0, task_id@);
    }
    let mut msg = String::from_str("Task '");
    msg.append(task_id);
    msg.append("' not found in HEARTBEAT.md");
    Err(msg)
}

/// The index of the first pending task, or -1.
pub open spec fn first_pending_idx(tasks: Seq<TaskView>) -> int
    decreases tasks.len(),
{
    if tasks.len() == 0 {
        -1
    } else if tasks.first().status is Pending {
        0
    } else {
        let r = first_pending_idx(tasks.drop_first());
        if r < 0 {
            -1
        } else {
            r + 1
        }
    }
}

proof fn lemma_first_pending_at(tasks: Seq<TaskView>, i: int)
    requires
        0 <= i < tasks.len(),
        tasks[i].status is Pending,
        forall|k: int| 0 <= k < i ==> !((#[trigger] tasks[k]).status is Pending),
    ensures
        first_pending_idx(tasks) == i,
    decreases tasks.len(),
{
    if i > 0 {
        let d = tasks.drop_first();
        assert(d[i - 1].status is Pending);
        assert(forall|k: int| 0 <= k < i - 1 ==> !((#[trigger] d[k]).status is Pending));
        lemma_first_pending_at(d, i - 1);
    }
}

proof fn lemma_first_pending_none(tasks: Seq<TaskView>)
    requires
        forall|k: int| 0 <= k < tasks.len() ==> !((#[trigger] tasks[k]).status is Pending),
    ensures
        first_pending_idx(tasks) == -1,
    decreases tasks.len(),
{
    if tasks.len() > 0 {
        let d = tasks.drop_first();
        assert(forall|k: int| 0 <= k < d.len() ==> !((#[trigger] d[k]).status is Pending));
        lemma_first_pending_none(d);
    }
}

/// The prompt asking the agent to run one task.
pub open spec fn task_prompt_spec(t: TaskView) -> Seq<char> {
    "Execute heartbeat task '"@ + t.id + "': "@ + t.title + (match t.description {
        Some(d) => "\n\nDetails:\n"@ + d,
        None => Seq::<char>::empty(),
    })
        + "\n\nWhen finished, use the heartbeat_write tool to mark task '"@ + t.id
        + "' as 'done' (or 'failed' if unsuccessful)."@
}

/// Pick the first pending task: mark it in progress in the ledger and
/// return the prompt asking the agent to run it; nothing when no task
/// is pending. Persisting the changed ledger is the caller's concern.
pub fn next_pending_prompt(ledger: &mut HeartbeatLedger) -> (r: Option<String>)
    ensures
        ({
            let tasks = task_views(old(ledger).tasks@);
            let idx = first_pending_idx(tasks);
            match r {
                None => idx < 0 && final(ledger).header@ == old(ledger).header@ && task_views(
                    final(ledger).tasks@,
                ) == tasks,
                Some(p) => {
                    &&& idx >= 0
                    &&& final(ledger).header@ == old(ledger).header@
                    &&& task_views(final(ledger).tasks@) == tasks.update(
                        idx,
                        TaskView { status: TaskStatus::InProgress, ..tasks[idx] },
                    )
                    &&& p@ == task_prompt_spec(tasks[idx])
                },
            }
        }),
{
    let ghost tasks0 = task_views(ledger.tasks@);
    let n = ledger.tasks.len();
    let mut i: usize = 0;
    while i < n
        invariant
            i <= n,
            n == ledger.tasks@.len(),
            *ledger == *old(ledger),
            tasks0 == task_views(ledger.tasks@),
            forall|k: int| 0 <= k < i ==> !((#[trigger] tasks0[k]).status is Pending),
        decreases n - i,
    {
        let is_pending = match ledger.tasks[i].status {
            TaskStatus::Pending => true,
            _ => false,
        };
        if is_pending {
            proof {
                assert(tasks0[i as int] == ledger.tasks@[i as int]@);
                lemma_first_pending_at(tasks0, i as int);
            }
            let mut task = ledger.tasks.remove(i);
            task.status = TaskStatus::InProgress;
            let mut prompt = String::from_str("Execute heartbeat task '");
            prompt.append(task.id.as_str());
            prompt.append("': ");
            prompt.append(task.title.as_str());
            match &task.description {
                Some(d) => {
                    prompt.append("\n\nDetails:\n");
                    prompt.append(d.as_str());
                },
                None => {},
            }
            prompt.append("\n\nWhen finished, use the heartbeat_write tool to mark task '");
            prompt.append(task.id.as_str());
            prompt.append("' as 'done' (or 'failed' if unsuccessful).");
            let ghost tafter = task@;
            ledger.tasks.insert(i, task);
            proof {
                assert(task_views(ledger.tasks@) =~~= tasks0.update(
                    i as int,
                    TaskView { status: TaskStatus::InProgress, ..tasks0[i as int] },
                ));
            }
            return Some(prompt);
        }
        proof {
            assert(tasks0[i as int] == ledger.tasks@[i as int]@);
        }
        i = i + 1;
    }
    proof {
        lemma_first_pending_none(tasks0);
    }
    None
}

} // verus!
