//! Detection of changes in the system context (preamble, tool list,
//! skill list). The detector remembers what was last injected and
//! produces a message only when something changed: a full message for
//! the first injection, a delta message afterwards.

use vstd::prelude::*;

use crate::skills::{skill_views, skills_eq, Skill, SkillView};
use crate::text::{has_sub, join_seqs, join_strings, str_eq, str_views, vec_str_eq};

verus! {

/// The three inputs that make up the system context.
#[verifier::ext_equal]
pub ghost struct CtxInput {
    pub preamble: Option<Seq<char>>,
    pub tools: Seq<Seq<char>>,
    pub skills: Seq<SkillView>,
}

/// The state of the detector: whether it has injected, and the context
/// it last injected.
#[verifier::ext_equal]
pub ghost struct DetectorView {
    pub injected: bool,
    pub last: Option<CtxInput>,
}

/// One line of the skill summary section.
pub open spec fn skill_line(s: SkillView) -> Seq<char> {
    "- "@ + s.name + ": "@ + s.description
}

/// The skill summary lines.
pub open spec fn skill_lines(skills: Seq<SkillView>) -> Seq<Seq<char>> {
    skills.map_values(|s: SkillView| skill_line(s))
}

/// The sections of a context message, each prefixed by `marker` (empty
/// for a full message, the update marker for a delta message). A
/// section appears exactly when its input is non-empty.
pub open spec fn sections_spec(inp: CtxInput, marker: Seq<char>) -> Seq<Seq<char>> {
    (match inp.preamble {
        Some(p) => if p.len() > 0 {
            seq![marker + "[System Prompt]\n"@ + p]
        } else {
            Seq::<Seq<char>>::empty()
        },
        None => Seq::<Seq<char>>::empty(),
    }) + (if inp.tools.len() > 0 {
        seq![marker + "[Available Tools]\n"@ + join_seqs(inp.tools, "\n"@)]
    } else {
        Seq::<Seq<char>>::empty()
    }) + (if inp.skills.len() > 0 {
        seq![marker + "[Available Skills]\n"@ + join_seqs(skill_lines(inp.skills), "\n"@)]
    } else {
        Seq::<Seq<char>>::empty()
    })
}

/// The full context message: the sections joined by blank lines.
pub open spec fn full_message_spec(inp: CtxInput) -> Seq<char> {
    join_seqs(sections_spec(inp, Seq::<char>::empty()), "\n\n"@)
}

/// The delta context message: the same sections, each prefixed by the
/// update marker, joined by blank lines.
pub open spec fn delta_message_spec(inp: CtxInput) -> Seq<char> {
    join_seqs(sections_spec(inp, "[Context Update]\n"@), "\n\n"@)
}

/// One step of the detector: nothing when the context was already
/// injected and is unchanged; otherwise the full or delta message, and
/// the new state remembers the injected context.
pub open spec fn detector_step(s: DetectorView, inp: CtxInput) -> (DetectorView, Option<Seq<char>>) {
    if s.injected && s.last == Some(inp) {
        (s, None)
    } else {
        (
            DetectorView { injected: true, last: Some(inp) },
            Some(
                if s.injected {
                    delta_message_spec(inp)
                } else {
                    full_message_spec(inp)
                },
            ),
        )
    }
}

/// The context input formed from borrowed arguments.
pub open spec fn ctx_input(preamble: Option<&str>, tools: Seq<String>, skills: Seq<Skill>) -> CtxInput {
    CtxInput {
        preamble: match preamble {
            Some(p) => Some(p@),
            None => None,
        },
        tools: str_views(tools),
        skills: skill_views(skills),
    }
}

/// The last-injected context, as stored by the detector.
pub struct StoredContext {
    pub preamble: Option<String>,
    pub tools: Vec<String>,
    pub skills: Vec<Skill>,
}

impl View for StoredContext {
    type V = CtxInput;

    open spec fn view(&self) -> CtxInput {
        CtxInput {
            preamble: match self.preamble {
                Some(ref p) => Some(p@),
                None => None,
            },
            tools: str_views(self.tools@),
            skills: skill_views(self.skills@),
        }
    }
}

/// The context-change detector.
pub struct ContextManager {
    pub injected: bool,
    pub last: Option<StoredContext>,
}

impl View for ContextManager {
    type V = DetectorView;

    open spec fn view(&self) -> DetectorView {
        DetectorView {
            injected: self.injected,
            last: match self.last {
                Some(ref st) => Some(st@),
                None => None,
            },
        }
    }
}

fn clone_string_vec(a: &Vec<String>) -> (r: Vec<String>)
    ensures
        r@ == a@,
{
    let mut r: Vec<String> = Vec::new();
    let n = a.len();
    let mut i: usize = 0;
    while i < n
        invariant
            i <= n,
            n == a@.len(),
            r@ == a@.subrange(0, i as int),
        decreases n - i,
    {
        r.push(a[i].clone());
        i = i + 1;
        proof {
            assert(r@ =~= a@.subrange(0, i as int));
        }
    }
    proof {
        assert(a@.subrange(0, n as int) =~= a@);
    }
    r
}

fn clone_skill_vec(a: &Vec<Skill>) -> (r: Vec<Skill>)
    ensures
        r@ == a@,
{
    let mut r: Vec<Skill> = Vec::new();
    let n = a.len();
    let mut i: usize = 0;
    while i < n
        invariant
            i <= n,
            n == a@.len(),
            r@ == a@.subrange(0, i as int),
        decreases n - i,
    {
        r.push(a[i].clone());
        i = i + 1;
        proof {
            assert(r@ =~= a@.subrange(0, i as int));
        }
    }
    proof {
        assert(a@.subrange(0, n as int) =~= a@);
    }
    r
}

/// Build the section texts for the given inputs; `update` selects the
/// delta form with the update marker.
fn build_sections(
    preamble: Option<&str>,
    tool_descriptions: &Vec<String>,
    skills: &Vec<Skill>,
    update: bool,
) -> (r: Vec<String>)
    ensures
        str_views(r@) == sections_spec(
            ctx_input(preamble, tool_descriptions@, skills@),
            if update {
                "[Context Update]\n"@
            } else {
                Seq::<char>::empty()
            },
        ),
{
    let ghost inp = ctx_input(preamble, tool_descriptions@, skills@);
    let ghost marker: Seq<char> = if update {
        "[Context Update]\n"@
    } else {
        Seq::<char>::empty()
    };
    let mut sections: Vec<String> = Vec::new();

    match preamble {
        Some(p) => {
            if p.unicode_len() > 0 {
                let mut s = if update {
                    String::from_str("[Context Update]\n")
                } else {
                    String::new()
                };
                s.append("[System Prompt]\n");
                s.append(p);
                proof {
                    assert(s@ == marker + "[System Prompt]\n"@ + p@);
                }
                sections.push(s);
            }
        },
        None => {},
    }

    if tool_descriptions.len() > 0 {
        let mut s = if update {
            String::from_str("[Context Update]\n")
        } else {
            String::new()
        };
        s.append("[Available Tools]\n");
        let joined = join_strings(tool_descriptions, "\n");
        s.append(joined.as_str());
        proof {
            assert(s@ == marker + "[Available Tools]\n"@ + join_seqs(inp.tools, "\n"@));
        }
        sections.push(s);
    }

    if skills.len() > 0 {
        let mut lines: Vec<String> = Vec::new();
        let n = skills.len();
        let mut i: usize = 0;
        while i < n
            invariant
                i <= n,
                n == skills@.len(),
                lines@.len() == i,
                forall|j: int|
                    0 <= j < i ==> (#[trigger] lines@[j]@) == skill_line(skills@[j]@),
            decreases n - i,
        {
            let mut line = String::from_str("- ");
            line.append(skills[i].name.as_str());
            line.append(": ");
            line.append(skills[i].description.as_str());
            lines.push(line);
            i = i + 1;
        }
        proof {
            assert(str_views(lines@) =~= skill_lines(inp.skills));
        }
        let mut s = if update {
            String::from_str("[Context Update]\n")
        } else {
            String::new()
        };
        s.append("[Available Skills]\n");
        let joined = join_strings(&lines, "\n");
        s.append(joined.as_str());
        proof {
            assert(s@ == marker + "[Available Skills]\n"@ + join_seqs(skill_lines(inp.skills), "\n"@));
        }
        sections.push(s);
    }

    proof {
        assert(str_views(sections@) =~= sections_spec(inp, marker));
    }
    sections
}

impl ContextManager {
    /// A fresh detector: nothing injected yet.
    pub fn new() -> (r: ContextManager)
        ensures
            r@ == (DetectorView { injected: false, last: None }),
    {
        ContextManager { injected: false, last: None }
    }

    /// Forget the injected context, so that the next call produces a
    /// full message again. Called after compaction or reset, which
    /// invalidate the model's view of prior context.
    pub fn mark_dirty(&mut self)
        ensures
            final(self)@ == (DetectorView { injected: false, last: None }),
    {
        self.injected = false;
        self.last = None;
    }

    /// Compute the context-injection message for the given inputs:
    /// nothing when the context is unchanged since the last injection,
    /// otherwise a full message (first injection) or a delta message
    /// (subsequent injections). The detector then remembers exactly the
    /// context whose message it returned.
    pub fn build_context_message(
        &mut self,
        preamble: Option<&str>,
        tool_descriptions: &Vec<String>,
        skills: &Vec<Skill>,
    ) -> (r: Option<String>)
        ensures
            ({
                let (s2, out) = detector_step(
                    old(self)@,
                    ctx_input(preamble, tool_descriptions@, skills@),
                );
                &&& final(self)@ == s2
                &&& match r {
                    Some(m) => out == Some(m@),
                    None => out is None,
                }
            }),
    {
        let ghost inp = ctx_input(preamble, tool_descriptions@, skills@);
        let mut unchanged = false;
        if self.injected {
            match &self.last {
                Some(st) => {
                    let pre_same: bool = match (preamble, &st.preamble) {
                        (Some(p), Some(q)) => str_eq(p, q.as_str()),
                        (None, None) => true,
                        _ => false,
                    };
                    let tools_same = vec_str_eq(&st.tools, tool_descriptions);
                    let skills_same = skills_eq(&st.skills, skills);
                    unchanged = pre_same && tools_same && skills_same;
                    proof {
                        if unchanged {
                            assert(st@ =~~= inp);
                        } else {
                            assert(st@ != inp);
                        }
                    }
                },
                None => {
                    unchanged = false;
                },
            }
        }
        if unchanged {
            return None;
        }
        let is_update = self.injected;
        let message = {
            let sections = build_sections(preamble, tool_descriptions, skills, is_update);
            join_strings(&sections, "\n\n")
        };
        self.injected = true;
        let stored_preamble: Option<String> = match preamble {
            Some(p) => Some(String::from_str(p)),
            None => None,
        };
        self.last = Some(
            StoredContext {
                preamble: stored_preamble,
                tools: clone_string_vec(tool_descriptions),
                skills: clone_skill_vec(skills),
            },
        );
        proof {
            assert(final(self)@.last->Some_0 =~~= inp);
            assert(final(self)@ =~~= DetectorView { injected: true, last: Some(inp) });
        }
        Some(message)
    }

    /// The (name, description) summaries of the skills, for the skill
    /// listing tool.
    pub fn skill_summaries(skills: &Vec<Skill>) -> (r: Vec<crate::tools::SkillSummary>)
        ensures
            r@.len() == skills@.len(),
            forall|j: int|
                0 <= j < skills@.len() ==> (#[trigger] r@[j]).name@ == skills@[j]@.name && r@[
                    j
                ].description@ == skills@[j]@.description,
    {
        let mut r: Vec<crate::tools::SkillSummary> = Vec::new();
        let n = skills.len();
        let mut i: usize = 0;
        while i < n
            invariant
                i <= n,
                n == skills@.len(),
                r@.len() == i,
                forall|j: int|
                    0 <= j < i ==> (#[trigger] r@[j]).name@ == skills@[j]@.name && r@[
                        j
                    ].description@ == skills@[j]@.description,
            decreases n - i,
        {
            r.push(
                crate::tools::SkillSummary {
                    name: skills[i].name.clone(),
                    description: skills[i].description.clone(),
                },
            );
            i = i + 1;
        }
        r
    }
}

/// First injection: on a fresh detector, any context produces the full
/// message, every section of which occurs in the message text; an
/// immediately repeated step with the identical context produces
/// nothing.
pub proof fn lemma_first_injection_then_repeat(inp: CtxInput)
    ensures
        ({
            let s0 = DetectorView { injected: false, last: None };
            let (s1, out1) = detector_step(s0, inp);
            let (s2, out2) = detector_step(s1, inp);
            &&& out1 == Some(full_message_spec(inp))
            &&& s1 == (DetectorView { injected: true, last: Some(inp) })
            &&& out2 is None
            &&& s2 == s1
            &&& forall|k: int|
                0 <= k < sections_spec(inp, Seq::<char>::empty()).len() ==> has_sub(
                    full_message_spec(inp),
                    #[trigger] sections_spec(inp, Seq::<char>::empty())[k],
                )
        }),
{
    let sections = sections_spec(inp, Seq::<char>::empty());
    assert forall|k: int| 0 <= k < sections.len() implies has_sub(
        full_message_spec(inp),
        sections[k],
    ) by {
        crate::text::lemma_join_contains(sections, "\n\n"@, k);
    }
}

/// A change after an injection: when only the skill list changed, the
/// step produces the delta message; each of its sections starts with
/// the update marker, and every non-empty input contributes its
/// section, which occurs in the message text.
pub proof fn lemma_changed_skills_give_delta(s: DetectorView, prev: CtxInput, inp: CtxInput)
    requires
        s.injected,
        s.last == Some(prev),
        inp.preamble == prev.preamble,
        inp.tools == prev.tools,
        inp.skills != prev.skills,
    ensures
        ({
            let (s2, out) = detector_step(s, inp);
            let marker = "[Context Update]\n"@;
            let sections = sections_spec(inp, marker);
            &&& out == Some(delta_message_spec(inp))
            &&& s2 == (DetectorView { injected: true, last: Some(inp) })
            &&& sections.len() == (if inp.preamble matches Some(p) && p.len() > 0 {
                1int
            } else {
                0int
            }) + (if inp.tools.len() > 0 {
                1int
            } else {
                0int
            }) + (if inp.skills.len() > 0 {
                1int
            } else {
                0int
            })
            &&& forall|k: int|
                0 <= k < sections.len() ==> has_sub(delta_message_spec(inp), #[trigger] sections[k])
            &&& forall|k: int|
                0 <= k < sections.len() ==> (#[trigger] sections[k]).subrange(
                    0,
                    marker.len() as int,
                ) == marker
        }),
{
    assert(inp != prev);
    let marker = "[Context Update]\n"@;
    let sections = sections_spec(inp, marker);
    assert forall|k: int| 0 <= k < sections.len() implies has_sub(
        delta_message_spec(inp),
        sections[k],
    ) by {
        crate::text::lemma_join_contains(sections, "\n\n"@, k);
    }
    assert forall|k: int| 0 <= k < sections.len() implies (#[trigger] sections[k]).subrange(
        0,
        marker.len() as int,
    ) == marker by {
        assert(sections[k].subrange(0, marker.len() as int) =~= marker);
    }
}

/// After `mark_dirty`, the next step produces a full message again,
/// also for a context identical to the one injected before.
pub proof fn lemma_dirty_then_full(inp: CtxInput)
    ensures
        ({
            let dirty = DetectorView { injected: false, last: None };
            let (s2, out) = detector_step(dirty, inp);
            &&& out == Some(full_message_spec(inp))
            &&& s2 == (DetectorView { injected: true, last: Some(inp) })
        }),
{
}

} // verus!
