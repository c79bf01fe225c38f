//! The declarative side of the built-in tools: argument and output
//! types, and the tools' pure state. Running a tool (spawning a
//! process, touching the file system) is the caller's concern.

use vstd::prelude::*;

use crate::text::{dec_str, join_seqs, split_lines, split_lines_spec, str_views, usize_to_string};

verus! {

/// Error text of the shell tool.
#[derive(Debug)]
pub struct BashError(pub String);

/// Arguments of the shell tool.
pub struct BashArgs {
    pub command: String,
}

/// Output of the shell tool.
pub struct BashOutput {
    pub exit_code: i32,
    pub stdout: String,
    pub stderr: String,
}

/// The shell tool.
pub struct BashTool;

/// Error text of the directory-listing tool.
#[derive(Debug)]
pub struct ListFilesError(pub String);

/// Arguments of the directory-listing tool.
pub struct ListFilesArgs {
    pub path: String,
}

/// The directory-listing tool.
pub struct ListFilesTool;

/// Error text of the file-reading tool.
#[derive(Debug)]
pub struct ReadFileError(pub String);

/// Arguments of the file-reading tool: a path and an optional one-based
/// line offset and line limit.
pub struct ReadFileArgs {
    pub path: String,
    pub offset: Option<usize>,
    pub limit: Option<usize>,
}

/// The file-reading tool.
pub struct ReadFileTool;

/// Error text of the file-writing tool.
#[derive(Debug)]
pub struct WriteFileError(pub String);

/// Arguments of the file-writing tool.
pub struct WriteFileArgs {
    pub path: String,
    pub content: String,
}

/// The file-writing tool.
pub struct WriteFileTool;

/// A skill's name and description, as listed by the skill tool.
#[derive(Debug)]
pub struct SkillSummary {
    pub name: String,
    pub description: String,
}

impl Clone for SkillSummary {
    fn clone(&self) -> (r: Self)
        ensures
            r == *self,
    {
        SkillSummary { name: self.name.clone(), description: self.description.clone() }
    }
}

/// Error text of the skill-listing tool.
#[derive(Debug)]
pub struct ReadSkillsError(pub String);

/// Arguments of the skill-listing tool (none).
pub struct ReadSkillsArgs {}

/// The skill-listing tool: hands out the summaries it was created with.
pub struct ReadSkillsTool {
    pub summaries: Vec<SkillSummary>,
}

impl ReadSkillsTool {
    /// A tool that lists exactly the given summaries.
    pub fn new(summaries: Vec<SkillSummary>) -> (r: ReadSkillsTool)
        ensures
            r.summaries@ == summaries@,
    {
        ReadSkillsTool { summaries }
    }

    /// The summaries, cloned, as the tool reports them.
    pub fn list(&self) -> (r: Vec<SkillSummary>)
        ensures
            r@ == self.summaries@,
    {
        let mut r: Vec<SkillSummary> = Vec::new();
        let n = self.summaries.len();
        let mut i: usize = 0;
        while i < n
            invariant
                i <= n,
                n == self.summaries@.len(),
                r@ == self.summaries@.subrange(0, i as int),
            decreases n - i,
        {
            r.push(self.summaries[i].clone());
            i = i + 1;
            proof {
                assert(r@ =~= self.summaries@.subrange(0, i as int));
            }
        }
        proof {
            assert(self.summaries@.subrange(0, n as int) =~= self.summaries@);
        }
        r
    }
}

/// Error text of the memory tool.
#[derive(Debug)]
pub struct MemoryError(pub String);

/// Arguments of the memory tool: an action (`read`, `write` or `list`),
/// and for writes a section path and content.
pub struct MemoryArgs {
    pub action: String,
    pub section: Option<String>,
    pub content: Option<String>,
}

/// The memory tool: persistent markdown memory at a fixed path.
pub struct MemoryTool {
    pub memory_path: String,
}

impl MemoryTool {
    /// A memory tool over the given file path.
    pub fn new(memory_path: String) -> (r: MemoryTool)
        ensures
            r.memory_path@ == memory_path@,
    {
        MemoryTool { memory_path }
    }
}


/// `n` space characters.
pub open spec fn spaces(n: int) -> Seq<char>
    decreases n,
{
    if n <= 0 {
        Seq::<char>::empty()
    } else {
        spaces(n - 1).push(' ')
    }
}

/// A line number right-aligned in a column of the given width.
pub open spec fn padded_num(n: int, width: int) -> Seq<char> {
    spaces(width - dec_str(n).len()) + dec_str(n)
}

/// One numbered output line.
pub open spec fn numbered_line(idx1: int, line: Seq<char>, width: int) -> Seq<char> {
    padded_num(idx1, width) + "| "@ + line
}

/// The first line shown (zero-based): the one-based offset moved to a
/// zero base, clamped to the line count.
pub open spec fn slice_start(offset: Option<usize>, total: int) -> int {
    let raw: int = match offset {
        Some(o) => if o == 0 {
            0
        } else {
            o - 1
        },
        None => 0,
    };
    if raw > total {
        total
    } else {
        raw
    }
}

/// One past the last line shown.
pub open spec fn slice_end(limit: Option<usize>, start: int, total: int) -> int {
    match limit {
        Some(l) => if start + l > total {
            total
        } else {
            start + l
        },
        None => total,
    }
}

/// Render a file's content with line numbers, optionally restricted to
/// a one-based line offset and a line limit. A partial view carries a
/// trailer naming the shown range.
pub fn render_file_slice(content: &str, offset: Option<usize>, limit: Option<usize>) -> (r: String)
    ensures
        ({
            let lines = split_lines_spec(content@);
            let total = lines.len() as int;
            let start = slice_start(offset, total);
            let end = slice_end(limit, start, total);
            let width = if end > 0 {
                dec_str(end).len() as int
            } else {
                1
            };
            let body = join_seqs(
                Seq::new((end - start) as nat, |k: int| numbered_line(
                    start + k + 1,
                    lines[start + k],
                    width,
                )),
                "\n"@,
            );
            if total > end || start > 0 {
                r@ == body + "\n[Showing lines "@ + dec_str(start + 1) + "-"@ + dec_str(end)
                    + " of "@ + dec_str(total) + "]"@
            } else {
                r@ == body
            }
        }),
{
    let lines = split_lines(content);
    let ghost lv = split_lines_spec(content@);
    let total = lines.len();
    let raw: usize = match offset {
        Some(o) => if o == 0 {
            0
        } else {
            o - 1
        },
        None => 0,
    };
    let start = if raw > total {
        total
    } else {
        raw
    };
    let end: usize = match limit {
        Some(l) => {
            let e = start.saturating_add(l);
            if e > total {
                total
            } else {
                e
            }
        },
        None => total,
    };
    proof {
        assert(start as int == slice_start(offset, lv.len() as int));
        assert(end as int == slice_end(limit, start as int, lv.len() as int));
    }
    let width: usize = if end > 0 {
        usize_to_string(end).as_str().unicode_len()
    } else {
        1
    };
    let ghost widthg = width as int;
    let mut parts: Vec<String> = Vec::new();
    let mut k: usize = start;
    while k < end
        invariant
            start <= k <= end <= lines@.len(),
            lv == str_views(lines@),
            widthg == width as int,
            parts@.len() == k - start,
            forall|j: int|
                0 <= j < parts@.len() ==> (#[trigger] parts@[j]@) == numbered_line(
                    start + j + 1,
                    lv[start + j],
                    widthg,
                ),
        decreases end - k,
    {
        let ghost pre = parts@;
        let num = usize_to_string(k + 1);
        let num_len = num.as_str().unicode_len();
        let pad = if width > num_len {
            width - num_len
        } else {
            0
        };
        let mut line = String::new();
        let mut p: usize = 0;
        while p < pad
            invariant
                p <= pad,
                line@ == spaces(p as int),
            decreases pad - p,
        {
            crate::text::push_char(&mut line, ' ');
            p = p + 1;
        }
        proof {
            if width <= num_len {
                assert(spaces(widthg - dec_str(k + 1).len()) == Seq::<char>::empty());
            }
            assert(line@ == spaces(widthg - dec_str(k + 1).len()));
        }
        line.append(num.as_str());
        line.append("| ");
        line.append(lines[k].as_str());
        parts.push(line);
        k = k + 1;
        proof {
            assert(forall|x: int| 0 <= x < pre.len() ==> parts@[x] == pre[x]);
            assert(lv[k - 1] == lines@[k - 1]@);
            assert(parts@[parts@.len() - 1]@ == numbered_line(k as int, lv[k - 1], widthg));
        }
    }
    let mut out = crate::text::join_strings(&parts, "\n");
    proof {
        assert(str_views(parts@) =~= Seq::new(
            (end - start) as nat,
            |j: int| numbered_line(start + j + 1, lv[start + j], widthg),
        ));
    }
    if total > end || start > 0 {
        out.append("\n[Showing lines ");
        out.append(usize_to_string(start + 1).as_str());
        out.append("-");
        out.append(usize_to_string(end).as_str());
        out.append(" of ");
        out.append(usize_to_string(total).as_str());
        out.append("]");
    }
    out
}

} // verus!
