//! The conversation ledger: the ordered message history of one tenant,
//! with a token-budget estimate, two compaction strategies, and
//! detection of the user's language.
//!
//! Reading the persisted ledger from storage and writing it back is the
//! caller's concern; the ledger itself is a pure in-memory structure.

use vstd::prelude::*;

use crate::config::MemoryConfig;
use crate::message::{msg_views, ChatMessage, MsgView};
use crate::text::chars_of;

verus! {

/// `x`, clamped to the range of `usize`.
pub open spec fn cap_usize(x: int) -> int {
    if x > usize::MAX as int {
        usize::MAX as int
    } else {
        x
    }
}

/// The UTF-8 byte length of a message's content.
pub open spec fn content_byte_len(m: MsgView) -> int {
    vstd::utf8::encode_utf8(m.content).len() as int
}

/// The UTF-8 byte length of a message's content plus its role tag; this
/// is the volume reported as released when the message is dropped.
pub open spec fn entry_byte_len(m: MsgView) -> int {
    vstd::utf8::encode_utf8(m.content).len() + vstd::utf8::encode_utf8(m.role).len() as int
}

/// Total content bytes of a message sequence.
pub open spec fn content_bytes_sum(msgs: Seq<MsgView>) -> int
    decreases msgs.len(),
{
    if msgs.len() == 0 {
        0
    } else {
        content_bytes_sum(msgs.drop_last()) + content_byte_len(msgs.last())
    }
}

/// Total content-plus-role bytes of a message sequence.
pub open spec fn entry_bytes_sum(msgs: Seq<MsgView>) -> int
    decreases msgs.len(),
{
    if msgs.len() == 0 {
        0
    } else {
        entry_bytes_sum(msgs.drop_last()) + entry_byte_len(msgs.last())
    }
}

/// The token-budget proxy: total content bytes (clamped to `usize`)
/// divided by four.
pub open spec fn token_estimate_spec(msgs: Seq<MsgView>) -> int {
    cap_usize(content_bytes_sum(msgs)) / 4
}

/// The compaction threshold for a context window and a trigger ratio
/// given as a percentage.
pub open spec fn compact_threshold(context_window: usize, trigger_percent: u32) -> int {
    context_window * trigger_percent / 100
}

pub open spec fn is_kana_char(c: char) -> bool {
    (0x3040 <= c as u32 && c as u32 <= 0x309F) || (0x30A0 <= c as u32 && c as u32 <= 0x30FF)
}

pub open spec fn is_hangul_char(c: char) -> bool {
    0xAC00 <= c as u32 && c as u32 <= 0xD7AF
}

pub open spec fn is_cjk_char(c: char) -> bool {
    (0x4E00 <= c as u32 && c as u32 <= 0x9FFF) || (0x3400 <= c as u32 && c as u32 <= 0x4DBF) || (
    0xF900 <= c as u32 && c as u32 <= 0xFAFF)
}

/// How many characters of `s` satisfy `f`.
pub open spec fn count_matching(s: Seq<char>, f: spec_fn(char) -> bool) -> int
    decreases s.len(),
{
    if s.len() == 0 {
        0
    } else {
        count_matching(s.drop_last(), f) + if f(s.last()) {
            1int
        } else {
            0int
        }
    }
}

/// The language label of one message content: any Kana means Japanese,
/// else any Hangul means Korean, else a CJK-ideograph share above ten
/// percent means Chinese, else English.
pub open spec fn lang_of(content: Seq<char>) -> Seq<char> {
    if count_matching(content, |c: char| is_kana_char(c)) > 0 {
        "Japanese"@
    } else if count_matching(content, |c: char| is_hangul_char(c)) > 0 {
        "Korean"@
    } else if 10 * count_matching(content, |c: char| is_cjk_char(c)) > content.len() {
        "Chinese"@
    } else {
        "English"@
    }
}

/// The detected user language of a ledger: the label of the most recent
/// user message with non-empty content, if any.
pub open spec fn detect_lang_spec(msgs: Seq<MsgView>) -> Option<Seq<char>>
    decreases msgs.len(),
{
    if msgs.len() == 0 {
        None
    } else if msgs.last().role == "user"@ && msgs.last().content.len() > 0 {
        Some(lang_of(msgs.last().content))
    } else {
        detect_lang_spec(msgs.drop_last())
    }
}

/// The content of the synthetic system message produced by
/// summary-based compaction: an optional language marker line, the
/// summary marker line, then the summary text.
pub open spec fn summary_message_content(summary: Seq<char>, lang: Option<Seq<char>>) -> Seq<char> {
    (match lang {
        Some(l) => "[User Language: "@ + l + "]\n"@,
        None => Seq::<char>::empty(),
    }) + "[Conversation Summary]\n"@ + summary
}

/// The message ledger of one tenant.
pub struct ChatHistory {
    pub messages: Vec<ChatMessage>,
    pub memory_config: MemoryConfig,
}

impl View for ChatHistory {
    type V = Seq<MsgView>;

    open spec fn view(&self) -> Seq<MsgView> {
        msg_views(self.messages@)
    }
}

proof fn lemma_sum_take_step(s: Seq<MsgView>, i: int)
    requires
        0 <= i < s.len(),
    ensures
        content_bytes_sum(s.subrange(0, i + 1)) == content_bytes_sum(s.subrange(0, i))
            + content_byte_len(s[i]),
        entry_bytes_sum(s.subrange(0, i + 1)) == entry_bytes_sum(s.subrange(0, i)) + entry_byte_len(
            s[i],
        ),
{
    let a = s.subrange(0, i + 1);
    assert(a.drop_last() =~= s.subrange(0, i));
    assert(a.last() == s[i]);
}

/// Total content bytes of `msgs[lo..hi]`, saturating at `usize::MAX`.
fn content_bytes_total(msgs: &Vec<ChatMessage>, lo: usize, hi: usize) -> (r: usize)
    requires
        lo <= hi <= msgs@.len(),
    ensures
        r as int == cap_usize(
            content_bytes_sum(msg_views(msgs@).subrange(lo as int, hi as int)),
        ),
{
    let ghost s = msg_views(msgs@).subrange(lo as int, hi as int);
    let mut acc: usize = 0;
    let mut i: usize = lo;
    proof {
        assert(s.subrange(0, 0) =~= Seq::<MsgView>::empty());
    }
    while i < hi
        invariant
            lo <= i <= hi <= msgs@.len(),
            s == msg_views(msgs@).subrange(lo as int, hi as int),
            acc as int == cap_usize(content_bytes_sum(s.subrange(0, i - lo))),
        decreases hi - i,
    {
        let len_i = msgs[i].content.as_str().as_bytes().len();
        proof {
            lemma_sum_take_step(s, i - lo);
            assert(msg_views(msgs@)[i as int] == msgs@[i as int]@);
            assert(s[i - lo] == msgs@[i as int]@);
        }
        acc = acc.saturating_add(len_i);
        i = i + 1;
    }
    proof {
        assert(s.subrange(0, hi - lo) =~= s);
    }
    acc
}

/// Total content-plus-role bytes of `msgs[lo..hi]`, saturating at
/// `usize::MAX`.
fn entry_bytes_total(msgs: &Vec<ChatMessage>, lo: usize, hi: usize) -> (r: usize)
    requires
        lo <= hi <= msgs@.len(),
    ensures
        r as int == cap_usize(
            entry_bytes_sum(msg_views(msgs@).subrange(lo as int, hi as int)),
        ),
{
    let ghost s = msg_views(msgs@).subrange(lo as int, hi as int);
    let mut acc: usize = 0;
    let mut i: usize = lo;
    proof {
        assert(s.subrange(0, 0) =~= Seq::<MsgView>::empty());
    }
    while i < hi
        invariant
            lo <= i <= hi <= msgs@.len(),
            s == msg_views(msgs@).subrange(lo as int, hi as int),
            acc as int == cap_usize(entry_bytes_sum(s.subrange(0, i - lo))),
        decreases hi - i,
    {
        let clen = msgs[i].content.as_str().as_bytes().len();
        let rlen = msgs[i].role.as_str().as_bytes().len();
        proof {
            lemma_sum_take_step(s, i - lo);
            assert(msg_views(msgs@)[i as int] == msgs@[i as int]@);
            assert(s[i - lo] == msgs@[i as int]@);
        }
        acc = acc.saturating_add(clen).saturating_add(rlen);
        i = i + 1;
    }
    proof {
        assert(s.subrange(0, hi - lo) =~= s);
    }
    acc
}

impl ChatHistory {
    /// An empty ledger with the default reclamation policy.
    pub fn new() -> (r: ChatHistory)
        ensures
            r@ == Seq::<MsgView>::empty(),
            r.memory_config.large_release_threshold_bytes == 1048576,
    {
        let r = ChatHistory { messages: Vec::new(), memory_config: MemoryConfig::default() };
        proof {
            assert(r@ =~= Seq::<MsgView>::empty());
        }
        r
    }

    /// A ledger holding the given messages, in order. Decoding them from
    /// the persisted form is the caller's concern; a tenant without a
    /// persisted ledger starts from an empty vector.
    pub fn load(messages: Vec<ChatMessage>) -> (r: ChatHistory)
        ensures
            r@ == msg_views(messages@),
            r.memory_config.large_release_threshold_bytes == 1048576,
    {
        ChatHistory { messages, memory_config: MemoryConfig::default() }
    }

    /// Replace the reclamation policy; the messages are untouched.
    pub fn set_memory_config(&mut self, config: MemoryConfig)
        ensures
            final(self)@ == old(self)@,
            final(self).memory_config == config,
    {
        self.memory_config = config;
    }

    /// Append one message.
    pub fn push(&mut self, msg: ChatMessage)
        ensures
            final(self)@ == old(self)@.push(msg@),
            final(self).memory_config == old(self).memory_config,
    {
        let ghost mv = msg@;
        self.messages.push(msg);
        proof {
            assert(self@ =~= old(self)@.push(mv));
        }
    }

    /// The messages, in insertion order.
    pub fn messages(&self) -> (r: &Vec<ChatMessage>)
        ensures
            msg_views(r@) == self@,
    {
        &self.messages
    }

    /// The number of messages.
    pub fn len(&self) -> (r: usize)
        ensures
            r == self@.len(),
    {
        self.messages.len()
    }

    /// The token-budget proxy: total content bytes divided by four.
    pub fn token_estimate(&self) -> (r: usize)
        ensures
            r as int == token_estimate_spec(self@),
    {
        let total = content_bytes_total(&self.messages, 0, self.messages.len());
        proof {
            assert(self@.subrange(0, self@.len() as int) =~= self@);
        }
        total / 4
    }

    /// True iff the estimate exceeds the given share of the context
    /// window. The trigger ratio is a percentage (80 stands for 0.8).
    pub fn needs_compact_with_ratio(&self, context_window: usize, trigger_percent: u32) -> (r:
        bool)
        ensures
            r == (token_estimate_spec(self@) > compact_threshold(context_window, trigger_percent)),
    {
        let est = self.token_estimate();
        proof {
            assert((context_window as int) * (trigger_percent as int) <= u128::MAX as int)
                by (nonlinear_arith)
                requires
                    context_window as int <= u64::MAX as int,
                    trigger_percent as int <= u32::MAX as int,
            ;
        }
        let threshold = (context_window as u128) * (trigger_percent as u128) / 100;
        est as u128 > threshold
    }

    /// `needs_compact_with_ratio` at the default trigger ratio of 0.8.
    pub fn needs_compact(&self, context_window: usize) -> (r: bool)
        ensures
            r == (token_estimate_spec(self@) > compact_threshold(context_window, 80)),
    {
        self.needs_compact_with_ratio(context_window, 80)
    }

    /// Drop the oldest messages, keeping the most recent `len / 2`.
    ///
    /// The ledger ends with exactly `len / 2` (floor) messages, and the
    /// first retained message is the one previously at index
    /// `len - len / 2`; the remaining messages keep their order. The
    /// result is the released byte volume of the dropped messages
    /// (content plus role), for the reclamation hook.
    pub fn compact_by_truncation(&mut self) -> (released: usize)
        ensures
            final(self)@ == old(self)@.subrange(
                old(self)@.len() - old(self)@.len() / 2,
                old(self)@.len() as int,
            ),
            final(self)@.len() == old(self)@.len() / 2,
            old(self)@.len() > 0 ==> final(self)@.len() > 0 ==> final(self)@[0] == old(self)@[
                old(self)@.len() - old(self)@.len() / 2
            ],
            released as int == cap_usize(
                entry_bytes_sum(old(self)@.subrange(0, old(self)@.len() - old(self)@.len() / 2)),
            ),
            final(self).memory_config == old(self).memory_config,
    {
        let len = self.messages.len();
        let retain = len / 2;
        let drop_count = len - retain;
        let released = entry_bytes_total(&self.messages, 0, drop_count);
        let mut kept: Vec<ChatMessage> = Vec::new();
        let mut i: usize = drop_count;
        proof {
            assert(msg_views(kept@) =~= Seq::<MsgView>::empty());
        }
        while i < len
            invariant
                drop_count <= i <= len,
                len == self.messages@.len(),
                msg_views(kept@) == self@.subrange(
                    drop_count as int,
                    i as int,
                ),
            decreases len - i,
        {
            proof {
                assert(msg_views(kept@).len() == i - drop_count);
                assert(kept@.len() == i - drop_count);
            }
            let m = self.messages[i].clone();
            let ghost mv = m@;
            kept.push(m);
            i = i + 1;
            proof {
                assert(mv == self@[i - 1]);
                assert(forall|j: int|
                    0 <= j < kept@.len() ==> #[trigger] msg_views(kept@)[j] == kept@[j]@);
                assert(msg_views(kept@) =~~= self@.subrange(drop_count as int, i as int));
            }
        }
        self.messages = kept;
        released
    }

    /// Compact when the estimate exceeds 0.8 of the context window;
    /// otherwise leave the ledger unchanged. Returns the released byte
    /// volume when compaction ran.
    pub fn compact(&mut self, context_window: usize) -> (r: Option<usize>)
        ensures
            token_estimate_spec(old(self)@) > compact_threshold(context_window, 80) ==> {
                &&& final(self)@ == old(self)@.subrange(
                    old(self)@.len() - old(self)@.len() / 2,
                    old(self)@.len() as int,
                )
                &&& r matches Some(released) && released as int == cap_usize(
                    entry_bytes_sum(
                        old(self)@.subrange(0, old(self)@.len() - old(self)@.len() / 2),
                    ),
                )
            },
            token_estimate_spec(old(self)@) <= compact_threshold(context_window, 80) ==> {
                &&& final(self)@ == old(self)@
                &&& r is None
            },
            final(self).memory_config == old(self).memory_config,
    {
        if self.needs_compact(context_window) {
            Some(self.compact_by_truncation())
        } else {
            None
        }
    }

    /// Replace the oldest messages by one synthetic system message that
    /// carries the summary (and a language marker when one is given),
    /// keeping the most recent `len / 2` messages after it.
    ///
    /// The ledger ends with `1 + len / 2` messages; message 0 has role
    /// `"system"` and carries the summary text verbatim, preceded by the
    /// language marker exactly when `language_marker` was supplied. The
    /// result is the released byte volume of the dropped messages.
    pub fn compact_with_summary(&mut self, summary: &str, language_marker: Option<&str>) -> (
        released: usize)
        ensures
            final(self)@.len() == 1 + old(self)@.len() / 2,
            final(self)@[0].role == "system"@,
            final(self)@[0].content == summary_message_content(
                summary@,
                match language_marker {
                    Some(l) => Some(l@),
                    None => None,
                },
            ),
            final(self)@.subrange(1, final(self)@.len() as int) == old(self)@.subrange(
                old(self)@.len() - old(self)@.len() / 2,
                old(self)@.len() as int,
            ),
            released as int == cap_usize(
                entry_bytes_sum(old(self)@.subrange(0, old(self)@.len() - old(self)@.len() / 2)),
            ),
            final(self).memory_config == old(self).memory_config,
    {
        let len = self.messages.len();
        let retain = len / 2;
        let drop_count = len - retain;
        let released = entry_bytes_total(&self.messages, 0, drop_count);

        let mut summary_text = String::new();
        match language_marker {
            Some(lang) => {
                summary_text.append("[User Language: ");
                summary_text.append(lang);
                summary_text.append("]\n");
            },
            None => {},
        }
        summary_text.append("[Conversation Summary]\n");
        summary_text.append(summary);

        let ghost hdr = MsgView {
            role: "system"@,
            content: summary_message_content(
                summary@,
                match language_marker {
                    Some(l) => Some(l@),
                    None => None,
                },
            ),
        };
        let mut kept: Vec<ChatMessage> = Vec::new();
        kept.push(ChatMessage::system(summary_text));
        proof {
            assert(msg_views(kept@) =~~= seq![hdr] + self@.subrange(
                drop_count as int,
                drop_count as int,
            ));
        }
        let mut i: usize = drop_count;
        while i < len
            invariant
                drop_count <= i <= len,
                len == self.messages@.len(),
                kept@.len() == 1 + i - drop_count,
                kept@[0]@ =~~= hdr,
                forall|j: int|
                    1 <= j < kept@.len() ==> (#[trigger] kept@[j]@) == self@[drop_count + j - 1],
            decreases len - i,
        {
            let m = self.messages[i].clone();
            let ghost mv = m@;
            let ghost kpre = kept@;
            kept.push(m);
            i = i + 1;
            proof {
                assert(mv == self@[i - 1]);
                assert(forall|j: int| 0 <= j < kpre.len() ==> kept@[j] == kpre[j]);
            }
        }
        proof {
            assert(forall|j: int|
                0 <= j < kept@.len() ==> #[trigger] msg_views(kept@)[j] == kept@[j]@);
            assert(msg_views(kept@) =~~= seq![hdr] + self@.subrange(drop_count as int, len as int));
        }
        self.messages = kept;
        proof {
            assert(final(self)@.subrange(1, final(self)@.len() as int) =~= old(self)@.subrange(
                old(self)@.len() - old(self)@.len() / 2,
                old(self)@.len() as int,
            ));
        }
        released
    }

    /// The language of the most recent user message with non-empty
    /// content: `"Japanese"`, `"Korean"`, `"Chinese"` or `"English"`;
    /// nothing when no user message has content.
    pub fn detect_user_language(&self) -> (r: Option<String>)
        ensures
            match r {
                Some(s) => detect_lang_spec(self@) == Some(s@),
                None => detect_lang_spec(self@) is None,
            },
    {
        let len = self.messages.len();
        let mut i: usize = len;
        proof {
            assert(self@.subrange(0, len as int) =~= self@);
        }
        while i > 0
            invariant
                i <= len,
                len == self.messages@.len(),
                detect_lang_spec(self@) == detect_lang_spec(self@.subrange(0, i as int)),
            decreases i,
        {
            i = i - 1;
            let is_user = self.messages[i].has_role("user");
            let non_empty = self.messages[i].content.as_str().unicode_len() > 0;
            proof {
                let prefix = self@.subrange(0, i + 1);
                assert(prefix.last() == self@[i as int]);
                assert(prefix.drop_last() =~= self@.subrange(0, i as int));
            }
            if is_user && non_empty {
                let label = classify_language(self.messages[i].content.as_str());
                return Some(label);
            }
        }
        proof {
            assert(self@.subrange(0, 0) =~= Seq::<MsgView>::empty());
        }
        None
    }

    /// Clear the ledger. The result is the released byte volume of
    /// everything that was held; removing any persisted form is the
    /// caller's concern.
    pub fn reset(&mut self) -> (released: usize)
        ensures
            final(self)@ == Seq::<MsgView>::empty(),
            released as int == cap_usize(entry_bytes_sum(old(self)@)),
            final(self).memory_config == old(self).memory_config,
    {
        let released = entry_bytes_total(&self.messages, 0, self.messages.len());
        proof {
            assert(old(self)@.subrange(0, old(self)@.len() as int) =~= old(self)@);
        }
        self.messages = Vec::new();
        proof {
            assert(final(self)@ =~= Seq::<MsgView>::empty());
        }
        released
    }
}

/// The language label of one text, by the script of its characters.
fn classify_language(content: &str) -> (r: String)
    ensures
        r@ == lang_of(content@),
{
    let chars = chars_of(content);
    let n = chars.len();
    let mut kana: usize = 0;
    let mut hangul: usize = 0;
    let mut cjk: usize = 0;
    let mut i: usize = 0;
    proof {
        assert(chars@.subrange(0, 0) =~= Seq::<char>::empty());
    }
    while i < n
        invariant
            i <= n,
            n == chars@.len(),
            chars@ == content@,
            kana as int == count_matching(chars@.subrange(0, i as int), |c: char| is_kana_char(c)),
            hangul as int == count_matching(
                chars@.subrange(0, i as int),
                |c: char| is_hangul_char(c),
            ),
            cjk as int == count_matching(chars@.subrange(0, i as int), |c: char| is_cjk_char(c)),
            kana <= i,
            hangul <= i,
            cjk <= i,
        decreases n - i,
    {
        let c = chars[i];
        let u = c as u32;
        proof {
            let sub = chars@.subrange(0, i + 1);
            assert(sub.drop_last() =~= chars@.subrange(0, i as int));
            assert(sub.last() == chars@[i as int]);
        }
        if (0x3040 <= u && u <= 0x309F) || (0x30A0 <= u && u <= 0x30FF) {
            kana = kana + 1;
        }
        if 0xAC00 <= u && u <= 0xD7AF {
            hangul = hangul + 1;
        }
        if (0x4E00 <= u && u <= 0x9FFF) || (0x3400 <= u && u <= 0x4DBF) || (0xF900 <= u && u
            <= 0xFAFF) {
            cjk = cjk + 1;
        }
        i = i + 1;
    }
    proof {
        assert(chars@.subrange(0, n as int) =~= content@);
    }
    if kana > 0 {
        String::from_str("Japanese")
    } else if hangul > 0 {
        String::from_str("Korean")
    } else if 10 * (cjk as u128) > n as u128 {
        String::from_str("Chinese")
    } else {
        String::from_str("English")
    }
}

} // verus!
