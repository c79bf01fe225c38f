//! One tenant's conversation session: compaction policy, context
//! injection, prompt-window assembly, and the degraded-model fallback
//! decision. The session is a state machine over plain values; the
//! caller performs the actual completion calls and persistence, and
//! feeds the outcomes back in.

use vstd::prelude::*;

use crate::config::{CompactStrategy, ModelConfig};
use crate::context::{detector_step, ContextManager, DetectorView};
use crate::history::{
    cap_usize, compact_threshold, detect_lang_spec, entry_bytes_sum, summary_message_content,
    token_estimate_spec, ChatHistory,
};
use crate::message::{msg_views, ChatMessage, MsgView};
use crate::skills::Skill;
use crate::text::{join_seqs, join_strings, str_views};

verus! {

/// The preamble used when the configuration does not set one.
pub fn default_preamble() -> (r: &'static str)
    ensures
        r@ == "You are a helpful assistant with access to tools. Use them when appropriate to fulfill user requests."@,
{
    "You are a helpful assistant with access to tools. Use them when appropriate to fulfill user requests."
}

/// The summarization instruction used when the compaction policy does
/// not set one.
pub fn default_compact_prompt() -> (r: &'static str)
    ensures
        r@ == "Summarize the following conversation concisely. Preserve key topics, decisions, tool results, and any context needed to continue naturally. Output only the summary, no preamble."@,
{
    "Summarize the following conversation concisely. Preserve key topics, decisions, tool results, and any context needed to continue naturally. Output only the summary, no preamble."
}

/// The descriptions of the built-in tools, in their fixed order.
pub open spec fn builtin_tool_lines() -> Seq<Seq<char>> {
    seq![
        "bash: Execute shell commands"@,
        "list_files: List directory contents"@,
        "read_file: Read file contents (supports line offset and limit)"@,
        "write_file: Write content to a file"@,
        "read_skills: List available skills"@,
        "memory: Read/write persistent hierarchical markdown memory"@,
        "view_schedules: View configured cron schedules"@,
        "cron_add: Add a cron schedule (name, cron expression, prompt, optional model)"@,
        "cron_remove: Remove a cron schedule by name"@,
        "heartbeat_edit: Replace HEARTBEAT.md content with validated markdown"@,
    ]
}

/// The description line of one externally discovered tool.
pub open spec fn mcp_tool_line(name: Seq<char>) -> Seq<char> {
    name + ": MCP tool"@
}

/// The description lines of the externally discovered tools.
pub open spec fn mcp_tool_lines(names: Seq<Seq<char>>) -> Seq<Seq<char>> {
    names.map_values(|n: Seq<char>| mcp_tool_line(n))
}

/// The prompt window sent alongside a live user message: the history
/// without a trailing copy of that message, cut down to the most recent
/// `limit` entries when a history limit is configured.
pub open spec fn window_spec(h: Seq<MsgView>, limit: Option<usize>, current: Seq<char>) -> Seq<
    MsgView,
> {
    let base = if h.len() > 0 && h.last().role == "user"@ && h.last().content == current {
        h.drop_last()
    } else {
        h
    };
    match limit {
        Some(l) => if base.len() > l {
            base.subrange(base.len() - l, base.len() as int)
        } else {
            base
        },
        None => base,
    }
}

/// One line of the conversation transcript handed to the summarizer.
pub open spec fn convo_line(m: MsgView) -> Seq<char> {
    "["@ + m.role + "]: "@ + m.content
}

/// The transcript lines of a ledger.
pub open spec fn convo_lines(h: Seq<MsgView>) -> Seq<Seq<char>> {
    h.map_values(|m: MsgView| convo_line(m))
}

/// The session's mathematical state.
#[verifier::ext_equal]
pub ghost struct SessionView {
    pub history: Seq<MsgView>,
    pub detector: DetectorView,
    pub using_small: bool,
    pub small_configured: bool,
}

/// The fallback decision on a failed completion: switch to the
/// degraded model and retry exactly when one is configured and the
/// session is not already using it. The ledger is never touched.
pub open spec fn failure_step(s: SessionView) -> (SessionView, bool) {
    if !s.using_small && s.small_configured {
        (
            SessionView {
                using_small: true,
                detector: DetectorView { injected: false, last: None },
                ..s
            },
            true,
        )
    } else {
        (s, false)
    }
}

/// A successful completion appends exactly one assistant message.
pub open spec fn success_step(s: SessionView, reply: Seq<char>) -> SessionView {
    SessionView { history: s.history.push(MsgView { role: "assistant"@, content: reply }), ..s }
}

/// A failing primary completion with a degraded model configured leads
/// to exactly one retry: the first failure switches to the degraded
/// model without touching the ledger, a second failure changes nothing
/// and asks for no further retry. Without a degraded model, the first
/// failure already propagates and the ledger gains no message. A
/// successful completion (original or retried) appends exactly the
/// reply, as an assistant message, and nothing else.
pub proof fn lemma_single_degraded_retry(s: SessionView, reply: Seq<char>)
    ensures
        ({
            let (s1, retry1) = failure_step(s);
            let (s2, retry2) = failure_step(s1);
            &&& (!s.using_small && s.small_configured) ==> retry1 && s1.history == s.history
                && s1.using_small
            &&& (!s.using_small && s.small_configured) ==> !retry2 && s2 == s1
            &&& !s.small_configured ==> !retry1 && s1 == s
            &&& success_step(s1, reply).history == s1.history.push(
                MsgView { role: "assistant"@, content: reply },
            )
        }),
{
}

/// One tenant's conversation session.
pub struct ChatSession {
    pub history: ChatHistory,
    pub context_manager: ContextManager,
    pub skills: Vec<Skill>,
    pub config: ModelConfig,
    pub using_small_model: bool,
    pub mcp_tool_names: Vec<String>,
}

impl View for ChatSession {
    type V = SessionView;

    open spec fn view(&self) -> SessionView {
        SessionView {
            history: self.history@,
            detector: self.context_manager@,
            using_small: self.using_small_model,
            small_configured: self.config.small_model is Some,
        }
    }
}

/// The compaction trigger in effect: the configured percentage when
/// compaction is enabled, else the default of 80.
pub open spec fn effective_trigger_percent(c: &ModelConfig) -> u32 {
    match c.compact {
        Some(ref cc) => if cc.enabled {
            cc.trigger_percent
        } else {
            80u32
        },
        None => 80u32,
    }
}

/// Whether the configuration asks for summary-based compaction.
pub open spec fn summary_strategy_spec(c: &ModelConfig) -> bool {
    match c.compact {
        Some(ref cc) => cc.enabled && cc.strategy is SmallModel,
        None => false,
    }
}

impl ChatSession {
    /// A session over the given configuration, skills, discovered tool
    /// names and (possibly loaded) ledger. It starts on the primary
    /// model with nothing injected.
    pub fn new(
        config: ModelConfig,
        skills: Vec<Skill>,
        mcp_tool_names: Vec<String>,
        history: ChatHistory,
    ) -> (r: ChatSession)
        ensures
            r.history == history,
            r.context_manager@ == (DetectorView { injected: false, last: None }),
            r.skills@ == skills@,
            r.config == config,
            r.using_small_model == false,
            r.mcp_tool_names@ == mcp_tool_names@,
    {
        ChatSession {
            history,
            context_manager: ContextManager::new(),
            skills,
            config,
            using_small_model: false,
            mcp_tool_names,
        }
    }

    /// The preamble in effect: the configured one, else the default.
    pub fn effective_preamble(&self) -> (r: String)
        ensures
            r@ == match self.config.preamble {
                Some(ref p) => p@,
                None => "You are a helpful assistant with access to tools. Use them when appropriate to fulfill user requests."@,
            },
    {
        match &self.config.preamble {
            Some(p) => p.clone(),
            None => String::from_str(default_preamble()),
        }
    }

    /// The full tool-description list: the built-in tools, then one
    /// line per externally discovered tool.
    pub fn tool_descriptions(&self) -> (r: Vec<String>)
        ensures
            str_views(r@) == builtin_tool_lines() + mcp_tool_lines(str_views(self.mcp_tool_names@)),
    {
        let mut r: Vec<String> = Vec::new();
        r.push(String::from_str("bash: Execute shell commands"));
        r.push(String::from_str("list_files: List directory contents"));
        r.push(String::from_str("read_file: Read file contents (supports line offset and limit)"));
        r.push(String::from_str("write_file: Write content to a file"));
        r.push(String::from_str("read_skills: List available skills"));
        r.push(String::from_str("memory: Read/write persistent hierarchical markdown memory"));
        r.push(String::from_str("view_schedules: View configured cron schedules"));
        r.push(
            String::from_str(
                "cron_add: Add a cron schedule (name, cron expression, prompt, optional model)",
            ),
        );
        r.push(String::from_str("cron_remove: Remove a cron schedule by name"));
        r.push(
            String::from_str("heartbeat_edit: Replace HEARTBEAT.md content with validated markdown"),
        );
        let ghost builtin_count: int = r@.len() as int;
        let n = self.mcp_tool_names.len();
        let mut i: usize = 0;
        while i < n
            invariant
                i <= n,
                n == self.mcp_tool_names@.len(),
                r@.len() == builtin_count + i,
                builtin_count == 10,
                forall|j: int|
                    0 <= j < builtin_count ==> (#[trigger] r@[j]@) == builtin_tool_lines()[j],
                forall|j: int|
                    builtin_count <= j < r@.len() ==> (#[trigger] r@[j]@) == mcp_tool_line(
                        self.mcp_tool_names@[j - builtin_count]@,
                    ),
            decreases n - i,
        {
            let ghost pre = r@;
            let mut line = self.mcp_tool_names[i].clone();
            line.append(": MCP tool");
            r.push(line);
            i = i + 1;
            proof {
                assert(forall|j: int| 0 <= j < pre.len() ==> r@[j] == pre[j]);
            }
        }
        proof {
            assert(str_views(r@) =~= builtin_tool_lines() + mcp_tool_lines(
                str_views(self.mcp_tool_names@),
            ));
        }
        r
    }

    /// True iff the ledger outgrew the trigger share of the context
    /// window (the configured trigger when compaction is enabled, else
    /// the default).
    pub fn needs_compaction(&self) -> (r: bool)
        ensures
            r == (token_estimate_spec(self.history@) > compact_threshold(
                self.config.context_window,
                effective_trigger_percent(&self.config),
            )),
    {
        let trigger: u32 = match &self.config.compact {
            Some(cc) => if cc.enabled {
                cc.trigger_percent
            } else {
                80
            },
            None => 80,
        };
        self.history.needs_compact_with_ratio(self.config.context_window, trigger)
    }

    /// True iff compaction is enabled with the summary strategy, so
    /// that a summarization call should be attempted before falling
    /// back to truncation.
    pub fn wants_summary_compaction(&self) -> (r: bool)
        ensures
            r == summary_strategy_spec(&self.config),
    {
        match &self.config.compact {
            Some(cc) => cc.enabled && match cc.strategy {
                CompactStrategy::SmallModel => true,
                CompactStrategy::Truncate => false,
            },
            None => false,
        }
    }

    /// The prompt for the summarization call, and the detected user
    /// language to carry into the summary marker: the configured or
    /// default instruction, the language note when a language was
    /// detected, and the transcript, separated by blank lines.
    pub fn build_compaction_prompt(&self) -> (r: (String, Option<String>))
        ensures
            ({
                let base = match self.config.compact {
                    Some(ref cc) => match cc.prompt {
                        Some(ref p) => p@,
                        None => "Summarize the following conversation concisely. Preserve key topics, decisions, tool results, and any context needed to continue naturally. Output only the summary, no preamble."@,
                    },
                    None => "Summarize the following conversation concisely. Preserve key topics, decisions, tool results, and any context needed to continue naturally. Output only the summary, no preamble."@,
                };
                let transcript = join_seqs(convo_lines(self.history@), "\n"@);
                &&& match r.1 {
                    Some(l) => detect_lang_spec(self.history@) == Some(l@) && r.0@ == base + "\n\n"@
                        + "[Current user language: "@ + l@ + "]"@ + "\n\n"@ + transcript,
                    None => detect_lang_spec(self.history@) is None && r.0@ == base + "\n\n"@
                        + transcript,
                }
            }),
    {
        let base: String = match &self.config.compact {
            Some(cc) => match &cc.prompt {
                Some(p) => p.clone(),
                None => String::from_str(default_compact_prompt()),
            },
            None => String::from_str(default_compact_prompt()),
        };
        let language = self.history.detect_user_language();

        let msgs = self.history.messages();
        let mut lines: Vec<String> = Vec::new();
        let n = msgs.len();
        let mut i: usize = 0;
        while i < n
            invariant
                i <= n,
                n == msgs@.len(),
                msg_views(msgs@) == self.history@,
                lines@.len() == i,
                forall|j: int|
                    0 <= j < i ==> (#[trigger] lines@[j]@) == convo_line(self.history@[j]),
            decreases n - i,
        {
            let mut line = String::from_str("[");
            line.append(msgs[i].role.as_str());
            line.append("]: ");
            line.append(msgs[i].content.as_str());
            lines.push(line);
            i = i + 1;
            proof {
                assert(msgs@[i - 1]@ == msg_views(msgs@)[i - 1]);
            }
        }
        proof {
            assert(str_views(lines@) =~= convo_lines(self.history@));
        }
        let transcript = join_strings(&lines, "\n");

        let mut prompt = base;
        prompt.append("\n\n");
        match &language {
            Some(lang) => {
                prompt.append("[Current user language: ");
                prompt.append(lang.as_str());
                prompt.append("]");
                prompt.append("\n\n");
            },
            None => {},
        }
        prompt.append(transcript.as_str());
        (prompt, language)
    }

    /// Truncation compaction: drop the oldest half of the ledger and
    /// forget the injected context. This is the deterministic fallback
    /// that runs whenever the configured trigger fired (see
    /// `needs_compaction`) and summarization was not used or failed.
    /// The result is the released volume.
    pub fn apply_truncation_compaction(&mut self) -> (released: usize)
        ensures
            final(self)@.history == old(self)@.history.subrange(
                old(self)@.history.len() - old(self)@.history.len() / 2,
                old(self)@.history.len() as int,
            ),
            released as int == cap_usize(
                entry_bytes_sum(
                    old(self)@.history.subrange(
                        0,
                        old(self)@.history.len() - old(self)@.history.len() / 2,
                    ),
                ),
            ),
            final(self)@.detector == (DetectorView { injected: false, last: None }),
            final(self)@.using_small == old(self)@.using_small,
            final(self)@.small_configured == old(self)@.small_configured,
            final(self).config == old(self).config,
    {
        let released = self.history.compact_by_truncation();
        self.context_manager.mark_dirty();
        released
    }

    /// Summary compaction with the given summary text and language
    /// marker: the ledger keeps its most recent half behind one
    /// synthetic system message, and the injected context is forgotten.
    /// The result is the released volume.
    pub fn apply_summary_compaction(&mut self, summary: &str, language_marker: Option<&str>) -> (r:
        usize)
        ensures
            final(self)@.history.len() == 1 + old(self)@.history.len() / 2,
            final(self)@.history[0].role == "system"@,
            final(self)@.history[0].content == summary_message_content(
                summary@,
                match language_marker {
                    Some(l) => Some(l@),
                    None => None,
                },
            ),
            final(self)@.history.subrange(1, final(self)@.history.len() as int) == old(
                self,
            )@.history.subrange(
                old(self)@.history.len() - old(self)@.history.len() / 2,
                old(self)@.history.len() as int,
            ),
            r as int == cap_usize(
                entry_bytes_sum(
                    old(self)@.history.subrange(
                        0,
                        old(self)@.history.len() - old(self)@.history.len() / 2,
                    ),
                ),
            ),
            final(self)@.detector == (DetectorView { injected: false, last: None }),
            final(self)@.using_small == old(self)@.using_small,
            final(self)@.small_configured == old(self)@.small_configured,
            final(self).config == old(self).config,
    {
        let released = self.history.compact_with_summary(summary, language_marker);
        self.context_manager.mark_dirty();
        released
    }

    /// Begin a turn: append the context-injection message when the
    /// context changed, then the user's text, and return the prompt
    /// window to send as history. Compaction, when needed, is the
    /// caller's first step before this one.
    pub fn prepare_turn(&mut self, text: &str) -> (window: Vec<ChatMessage>)
        ensures
            ({
                let preamble_view = match old(self).config.preamble {
                    Some(ref p) => p@,
                    None => "You are a helpful assistant with access to tools. Use them when appropriate to fulfill user requests."@,
                };
                let tools = builtin_tool_lines() + mcp_tool_lines(
                    str_views(old(self).mcp_tool_names@),
                );
                let inp = crate::context::CtxInput {
                    preamble: Some(preamble_view),
                    tools: tools,
                    skills: crate::skills::skill_views(old(self).skills@),
                };
                let (d2, out) = detector_step(old(self)@.detector, inp);
                let with_ctx = match out {
                    Some(m) => old(self)@.history.push(MsgView { role: "system"@, content: m }),
                    None => old(self)@.history,
                };
                &&& final(self)@.history == with_ctx.push(
                    MsgView { role: "user"@, content: text@ },
                )
                &&& final(self)@.detector == d2
                &&& final(self)@.using_small == old(self)@.using_small
                &&& final(self)@.small_configured == old(self)@.small_configured
                &&& final(self).config == old(self).config
                &&& msg_views(window@) == window_spec(
                    final(self)@.history,
                    old(self).config.history_limit,
                    text@,
                )
            }),
    {
        let preamble = self.effective_preamble();
        let tool_descriptions = self.tool_descriptions();
        let ctx_msg = self.context_manager.build_context_message(
            Some(preamble.as_str()),
            &tool_descriptions,
            &self.skills,
        );
        match ctx_msg {
            Some(ctx) => {
                self.history.push(ChatMessage::system(ctx));
            },
            None => {},
        }
        self.history.push(ChatMessage::user(String::from_str(text)));
        limited_history(&self.history, self.config.history_limit, text)
    }

    /// A successful completion: append the reply as an assistant
    /// message. Persisting the ledger is the caller's next step.
    pub fn complete_turn_success(&mut self, reply: &str)
        ensures
            final(self)@ == success_step(old(self)@, reply@),
            final(self).config == old(self).config,
    {
        self.history.push(ChatMessage::assistant(String::from_str(reply)));
        proof {
            assert(final(self)@ =~~= success_step(old(self)@, reply@));
        }
    }

    /// A failed completion: decide the fallback. True means the caller
    /// should rebuild the agent on the degraded model and retry once;
    /// false means the failure propagates. The ledger is untouched.
    pub fn handle_completion_failure(&mut self) -> (retry: bool)
        ensures
            ({
                let (s2, r) = failure_step(old(self)@);
                &&& final(self)@ == s2
                &&& retry == r
                &&& final(self).config == old(self).config
            }),
    {
        if !self.using_small_model && self.config.small_model.is_some() {
            self.using_small_model = true;
            self.context_manager.mark_dirty();
            proof {
                assert(final(self)@ =~~= failure_step(old(self)@).0);
            }
            true
        } else {
            proof {
                assert(final(self)@ =~~= failure_step(old(self)@).0);
            }
            false
        }
    }

    /// Clear the ledger and forget the injected context. The result is
    /// the released volume; removing the persisted ledger is the
    /// caller's concern.
    pub fn reset(&mut self) -> (released: usize)
        ensures
            final(self)@.history == Seq::<MsgView>::empty(),
            final(self)@.detector == (DetectorView { injected: false, last: None }),
            final(self)@.using_small == old(self)@.using_small,
            final(self)@.small_configured == old(self)@.small_configured,
            final(self).config == old(self).config,
            released as int == cap_usize(entry_bytes_sum(old(self)@.history)),
    {
        let released = self.history.reset();
        self.context_manager.mark_dirty();
        released
    }

    /// Manual compaction trigger, regardless of the context-window
    /// ratio: false when the ledger is empty and nothing changes;
    /// otherwise the ledger keeps its most recent half, the injected
    /// context is forgotten, and the result is true. A caller
    /// configured for summary compaction attempts the summarization
    /// first and calls `apply_summary_compaction` instead when it
    /// succeeds.
    pub fn run_compact(&mut self) -> (r: bool)
        ensures
            r == (old(self)@.history.len() > 0),
            !r ==> *final(self) == *old(self),
            r ==> final(self)@.history == old(self)@.history.subrange(
                old(self)@.history.len() - old(self)@.history.len() / 2,
                old(self)@.history.len() as int,
            ),
            r ==> final(self)@.detector == (DetectorView { injected: false, last: None }),
            final(self)@.using_small == old(self)@.using_small,
            final(self)@.small_configured == old(self)@.small_configured,
            final(self).config == old(self).config,
    {
        if self.history.len() == 0 {
            return false;
        }
        self.apply_truncation_compaction();
        true
    }

    /// The ledger.
    pub fn history(&self) -> (r: &ChatHistory)
        ensures
            r == &self.history,
    {
        &self.history
    }

    /// The configuration.
    pub fn config(&self) -> (r: &ModelConfig)
        ensures
            r == &self.config,
    {
        &self.config
    }

    /// The skills.
    pub fn skills(&self) -> (r: &Vec<Skill>)
        ensures
            r == &self.skills,
    {
        &self.skills
    }

    /// The name of the model currently in use: the degraded model's
    /// name while the session runs degraded (falling back to the
    /// primary name when none is configured), else the primary name.
    pub fn current_model_name(&self) -> (r: String)
        ensures
            r@ == if self.using_small_model && self.config.small_model is Some {
                self.config.small_model->Some_0.model@
            } else {
                self.config.model@
            },
    {
        if self.using_small_model {
            match &self.config.small_model {
                Some(s) => s.model.clone(),
                None => self.config.model.clone(),
            }
        } else {
            self.config.model.clone()
        }
    }

    /// Whether the session currently runs on the degraded model.
    pub fn is_using_small_model(&self) -> (r: bool)
        ensures
            r == self.using_small_model,
    {
        self.using_small_model
    }

    /// Switch to the degraded model: fails when none is configured;
    /// otherwise the session runs degraded, the injected context is
    /// forgotten (the caller rebuilds the agent), and the degraded
    /// model's name is returned.
    pub fn switch_to_small_model(&mut self) -> (r: Result<String, String>)
        ensures
            old(self).config.small_model is None ==> r is Err && *final(self) == *old(self),
            old(self).config.small_model is Some ==> ({
                &&& r matches Ok(name) && name@ == old(self).config.small_model->Some_0.model@
                &&& final(self)@.using_small == true
                &&& final(self)@.detector == (DetectorView { injected: false, last: None })
                &&& final(self)@.history == old(self)@.history
                &&& final(self).config == old(self).config
            }),
    {
        match &self.config.small_model {
            None => Err(String::from_str("No small_model configured")),
            Some(small) => {
                let name = small.model.clone();
                self.using_small_model = true;
                self.context_manager.mark_dirty();
                Ok(name)
            },
        }
    }

    /// Switch back to the primary model: the session leaves degraded
    /// mode, the injected context is forgotten (the caller rebuilds the
    /// agent), and the primary model's name is returned.
    pub fn switch_to_primary_model(&mut self) -> (r: String)
        ensures
            r@ == old(self).config.model@,
            final(self)@.using_small == false,
            final(self)@.detector == (DetectorView { injected: false, last: None }),
            final(self)@.history == old(self)@.history,
            final(self).config == old(self).config,
    {
        self.using_small_model = false;
        self.context_manager.mark_dirty();
        self.config.model.clone()
    }
}

/// The prompt window for a live user message: the ledger without a
/// trailing copy of that message, cut to the most recent `limit`
/// entries when a limit is given.
pub fn limited_history(history: &ChatHistory, limit: Option<usize>, current_user_text: &str) -> (r:
    Vec<ChatMessage>)
    ensures
        msg_views(r@) == window_spec(history@, limit, current_user_text@),
{
    let msgs = history.messages();
    let len = msgs.len();
    let mut end: usize = len;
    if len > 0 {
        let last_is_current = msgs[len - 1].has_role("user") && crate::text::str_eq(
            msgs[len - 1].content.as_str(),
            current_user_text,
        );
        if last_is_current {
            end = len - 1;
        }
    }
    proof {
        let base = if history@.len() > 0 && history@.last().role == "user"@ && history@.last().content
            == current_user_text@ {
            history@.drop_last()
        } else {
            history@
        };
        assert(history@.len() == msgs@.len());
        if end < len {
            assert(base =~= history@.subrange(0, end as int));
        } else {
            assert(base =~= history@.subrange(0, end as int));
        }
    }
    let start: usize = match limit {
        Some(l) => if end > l {
            end - l
        } else {
            0
        },
        None => 0,
    };
    let mut r: Vec<ChatMessage> = Vec::new();
    let mut i: usize = start;
    while i < end
        invariant
            start <= i <= end,
            end <= msgs@.len(),
            msg_views(msgs@) == history@,
            r@.len() == i - start,
            forall|j: int| 0 <= j < r@.len() ==> (#[trigger] r@[j]@) == history@[start + j],
        decreases end - i,
    {
        let ghost pre = r@;
        let m = msgs[i].clone();
        let ghost mv = m@;
        r.push(m);
        i = i + 1;
        proof {
            assert(forall|j: int| 0 <= j < pre.len() ==> r@[j] == pre[j]);
            assert(mv == history@[i - 1]);
        }
    }
    proof {
        assert(msg_views(r@) =~~= window_spec(history@, limit, current_user_text@));
    }
    r
}

} // verus!
