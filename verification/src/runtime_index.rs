//! The runtime index: a small summary of the assistant's persistent
//! state (memory section names, schedule names, last heartbeat time)
//! used to build the preamble of background agents. Loading and saving
//! the index file is the caller's concern.

use vstd::prelude::*;

use crate::config::ScheduleTaskConfig;
use crate::memory_doc::leading_hashes;
use crate::text::{
    dec_str, join_seqs, join_strings, split_lines, split_lines_spec, str_views, string_of,
    trim_slice, trim_spec, u64_to_string,
};

verus! {

/// The runtime index.
#[derive(Debug)]
pub struct RuntimeIndex {
    pub memory_sections: Vec<String>,
    pub schedule_names: Vec<String>,
    pub last_heartbeat_epoch: Option<u64>,
}

impl Default for RuntimeIndex {
    fn default() -> (r: Self)
        ensures
            r.memory_sections@.len() == 0,
            r.schedule_names@.len() == 0,
            r.last_heartbeat_epoch is None,
    {
        RuntimeIndex {
            memory_sections: Vec::new(),
            schedule_names: Vec::new(),
            last_heartbeat_epoch: None,
        }
    }
}

/// The parts of the background preamble, one per non-empty piece of
/// the index.
pub open spec fn preamble_parts_spec(
    memory_sections: Seq<Seq<char>>,
    schedule_names: Seq<Seq<char>>,
    epoch: Option<u64>,
) -> Seq<Seq<char>> {
    (if memory_sections.len() > 0 {
        seq!["Persistent memory sections: ["@ + join_seqs(memory_sections, ", "@) + "]."@]
    } else {
        Seq::<Seq<char>>::empty()
    }) + (if schedule_names.len() > 0 {
        seq!["Configured schedules: ["@ + join_seqs(schedule_names, ", "@) + "]."@]
    } else {
        Seq::<Seq<char>>::empty()
    }) + (match epoch {
        Some(ts) => seq!["Last heartbeat at unix epoch "@ + dec_str(ts as int) + "."@],
        None => Seq::<Seq<char>>::empty(),
    })
}

impl RuntimeIndex {
    /// The preamble of a background agent: one sentence per non-empty
    /// piece of the index, or a fixed default when the index is empty.
    pub fn build_context_preamble(&self) -> (r: String)
        ensures
            ({
                let parts = preamble_parts_spec(
                    str_views(self.memory_sections@),
                    str_views(self.schedule_names@),
                    self.last_heartbeat_epoch,
                );
                if parts.len() == 0 {
                    r@ == "You are a background agent with read_file and write_file tools."@
                } else {
                    r@ == join_seqs(parts, " "@)
                }
            }),
    {
        let ghost spec_parts = preamble_parts_spec(
            str_views(self.memory_sections@),
            str_views(self.schedule_names@),
            self.last_heartbeat_epoch,
        );
        let mut parts: Vec<String> = Vec::new();
        if self.memory_sections.len() > 0 {
            let mut s = String::from_str("Persistent memory sections: [");
            s.append(join_strings(&self.memory_sections, ", ").as_str());
            s.append("].");
            parts.push(s);
        }
        if self.schedule_names.len() > 0 {
            let mut s = String::from_str("Configured schedules: [");
            s.append(join_strings(&self.schedule_names, ", ").as_str());
            s.append("].");
            parts.push(s);
        }
        match self.last_heartbeat_epoch {
            Some(ts) => {
                let mut s = String::from_str("Last heartbeat at unix epoch ");
                s.append(u64_to_string(ts).as_str());
                s.append(".");
                parts.push(s);
            },
            None => {},
        }
        proof {
            assert(str_views(parts@) =~= spec_parts);
        }
        if parts.len() == 0 {
            String::from_str("You are a background agent with read_file and write_file tools.")
        } else {
            join_strings(&parts, " ")
        }
    }
}

/// The heading name of a line, as the section scan sees it: a line
/// whose trimmed start is one to six `#` characters followed by a
/// non-blank name.
pub open spec fn scan_header_name(line: Seq<char>) -> Option<Seq<char>> {
    let t = crate::text::trim_start_spec(line);
    if !(t.len() > 0 && t.first() == '#') {
        None
    } else {
        let level = leading_hashes(t);
        if level > 6 {
            None
        } else {
            let name = trim_spec(t.subrange(level, t.len() as int));
            if name.len() == 0 {
                None
            } else {
                Some(name)
            }
        }
    }
}

/// The heading names of the lines from index `i` on.
pub open spec fn scan_from_spec(lines: Seq<Seq<char>>, i: int) -> Seq<Seq<char>>
    decreases lines.len() - i when 0 <= i
{
    if i >= lines.len() {
        Seq::<Seq<char>>::empty()
    } else {
        (match scan_header_name(lines[i]) {
            Some(name) => seq![name],
            None => Seq::<Seq<char>>::empty(),
        }) + scan_from_spec(lines, i + 1)
    }
}

/// The section names of a memory document: the name of every heading
/// line, in order.
pub fn refresh_memory_sections(text: &str) -> (r: Vec<String>)
    ensures
        str_views(r@) == scan_from_spec(split_lines_spec(text@), 0),
{
    let lines = split_lines(text);
    let ghost lv = split_lines_spec(text@);
    let n = lines.len();
    let mut out: Vec<String> = Vec::new();
    let mut i: usize = 0;
    proof {
        assert(str_views(out@) + scan_from_spec(lv, 0) =~= scan_from_spec(lv, 0));
    }
    while i < n
        invariant
            i <= n,
            n == lines@.len(),
            lv == str_views(lines@),
            str_views(out@) + scan_from_spec(lv, i as int) == scan_from_spec(lv, 0),
        decreases n - i,
    {
        let ghost out_pre = str_views(out@);
        proof {
            assert(lv[i as int] == lines@[i as int]@);
        }
        let line = &lines[i];
        let lc = crate::text::chars_of(line.as_str());
        let m = lc.len();
        let mut a: usize = 0;
        while a < m && crate::text::is_space(lc[a])
            invariant
                a <= m,
                m == lc@.len(),
                forall|k: int| 0 <= k < a ==> crate::text::is_space_char(#[trigger] lc@[k]),
            decreases m - a,
        {
            a = a + 1;
        }
        proof {
            crate::text::lemma_trim_start_at(lc@, a as int);
        }
        let t = crate::text::sub_chars(lc.as_slice(), a, m);
        let mut pushed = false;
        if t.len() > 0 && t[0] == '#' {
            let tn = t.len();
            let mut level: usize = 0;
            while level < tn && t[level] == '#'
                invariant
                    level <= tn,
                    tn == t@.len(),
                    forall|k: int| 0 <= k < level ==> (#[trigger] t@[k]) == '#',
                decreases tn - level,
            {
                level = level + 1;
            }
            proof {
                crate::memory_doc::lemma_leading_hashes_at_pub(t@, level as int);
            }
            if level <= 6 {
                let rest = crate::text::sub_chars(t.as_slice(), level, tn);
                let name = trim_slice(rest.as_slice());
                if name.len() > 0 {
                    out.push(string_of(name.as_slice()));
                    pushed = true;
                    proof {
                        assert(scan_header_name(lv[i as int]) == Some(name@));
                        assert(str_views(out@) =~= out_pre.push(name@));
                    }
                }
            }
        }
        proof {
            if pushed {
                assert((out_pre + seq![str_views(out@)[out_pre.len() as int]]) + scan_from_spec(
                    lv,
                    i + 1,
                ) =~= out_pre + (seq![str_views(out@)[out_pre.len() as int]] + scan_from_spec(
                    lv,
                    i + 1,
                )));
                assert(str_views(out@) =~= out_pre + seq![str_views(out@)[out_pre.len() as int]]);
            } else {
                assert(scan_header_name(lv[i as int]) is None);
                assert(str_views(out@) + (Seq::<Seq<char>>::empty() + scan_from_spec(lv, i + 1))
                    =~= str_views(out@) + scan_from_spec(lv, i + 1));
            }
        }
        i = i + 1;
    }
    proof {
        assert(scan_from_spec(lv, n as int) == Seq::<Seq<char>>::empty());
        assert(str_views(out@) + Seq::<Seq<char>>::empty() =~= str_views(out@));
    }
    out
}

/// The names of the schedules, in order.
pub fn refresh_schedule_names(schedules: &Vec<ScheduleTaskConfig>) -> (r: Vec<String>)
    ensures
        r@.len() == schedules@.len(),
        forall|j: int| 0 <= j < schedules@.len() ==> (#[trigger] r@[j]@) == schedules@[j].name@,
{
    let mut r: Vec<String> = Vec::new();
    let n = schedules.len();
    let mut i: usize = 0;
    while i < n
        invariant
            i <= n,
            n == schedules@.len(),
            r@.len() == i,
            forall|j: int| 0 <= j < i ==> (#[trigger] r@[j]@) == schedules@[j].name@,
        decreases n - i,
    {
        let ghost pre = r@;
        r.push(schedules[i].name.clone());
        i = i + 1;
        proof {
            assert(forall|x: int| 0 <= x < pre.len() ==> r@[x] == pre[x]);
        }
    }
    r
}

} // verus!
