//! Formatting for the chat-bot adapter: replies split to the
//! transport's message-length cap, markdown escaping that leaves code
//! spans alone, and the textual status reports of the `/cron`,
//! `/heartbeat` and `/mcp` commands.

use vstd::prelude::*;

use crate::config::{HeartbeatConfig, McpConfig, ModelRef, ScheduleTaskConfig};
use crate::text::{chars_of, join_seqs, str_views, string_of, sub_chars, u64_to_string, dec_str};

verus! {

/// The transport's cap on message length, in characters.
pub open spec fn max_message_len() -> int {
    4096
}

/// The last newline strictly before `b`, or -1.
pub open spec fn last_nl_before(s: Seq<char>, b: int) -> int
    decreases b,
{
    if b <= 0 {
        -1
    } else if s[b - 1] == '\n' {
        b - 1
    } else {
        last_nl_before(s, b - 1)
    }
}

/// Where an over-long text is cut: after the last newline within the
/// first 4096 characters, or at 4096 when no newline helps.
pub open spec fn cut_at(s: Seq<char>) -> int {
    let nl = last_nl_before(s, max_message_len());
    if nl < 0 {
        max_message_len()
    } else {
        nl + 1
    }
}

proof fn lemma_last_nl_bounds(s: Seq<char>, b: int)
    requires
        0 <= b,
    ensures
        -1 <= last_nl_before(s, b) < b || last_nl_before(s, b) == -1,
        last_nl_before(s, b) < b,
    decreases b,
{
    if b > 0 && s[b - 1] != '\n' {
        lemma_last_nl_bounds(s, b - 1);
    }
}

/// A text split into transport-sized chunks: the text itself when it
/// fits, else a chunk cut after a newline (or at the cap) and the
/// split of the rest. Joining the chunks restores the text.
pub open spec fn split_message_spec(s: Seq<char>) -> Seq<Seq<char>>
    decreases s.len(),
    via split_message_spec_dec
{
    if s.len() <= max_message_len() {
        seq![s]
    } else {
        let cut = cut_at(s);
        seq![s.subrange(0, cut)] + split_message_spec(s.subrange(cut, s.len() as int))
    }
}

#[via_fn]
proof fn split_message_spec_dec(s: Seq<char>) {
    if s.len() > max_message_len() {
        lemma_last_nl_bounds(s, max_message_len());
    }
}

/// Split a reply into chunks the transport accepts.
pub fn split_message(text: &str) -> (r: Vec<String>)
    ensures
        str_views(r@) == split_message_spec(text@),
{
    let v = chars_of(text);
    let r = split_from(&v, 0);
    proof {
        assert(v@.subrange(0, v@.len() as int) =~= text@);
    }
    r
}

fn split_from(v: &Vec<char>, start: usize) -> (r: Vec<String>)
    requires
        start <= v@.len(),
    ensures
        str_views(r@) == split_message_spec(v@.subrange(start as int, v@.len() as int)),
    decreases v@.len() - start,
{
    let ghost s = v@.subrange(start as int, v@.len() as int);
    let len = v.len();
    if len - start <= 4096 {
        let piece = sub_chars(v.as_slice(), start, len);
        let mut r: Vec<String> = Vec::new();
        r.push(string_of(piece.as_slice()));
        proof {
            assert(str_views(r@) =~= seq![s]);
        }
        return r;
    }
    let mut b: usize = start + 4096;
    while b > start && v[b - 1] != '\n'
        invariant
            start <= b <= start + 4096,
            start + 4096 <= v@.len(),
            s == v@.subrange(start as int, v@.len() as int),
            last_nl_before(s, 4096) == last_nl_before(s, b - start),
        decreases b,
    {
        proof {
            assert(s[b - start - 1] == v@[b - 1]);
        }
        b = b - 1;
    }
    let cut: usize = if b > start {
        proof {
            assert(s[b - start - 1] == v@[b - 1]);
            assert(last_nl_before(s, b - start) == b - start - 1);
        }
        b
    } else {
        proof {
            assert(last_nl_before(s, 0) == -1);
        }
        start + 4096
    };
    proof {
        assert(cut - start == cut_at(s));
    }
    let piece = sub_chars(v.as_slice(), start, cut);
    proof {
        assert(piece@ =~= s.subrange(0, cut_at(s)));
    }
    let rest = split_from(v, cut);
    let mut r: Vec<String> = Vec::new();
    r.push(string_of(piece.as_slice()));
    let ghost first_piece = piece@;
    let m = rest.len();
    let ghost restv = str_views(rest@);
    proof {
        assert(v@.subrange(cut as int, v@.len() as int) =~= s.subrange(cut_at(s), s.len() as int));
        assert(restv == split_message_spec(s.subrange(cut_at(s), s.len() as int)));
    }
    let mut k: usize = 0;
    let mut rest_mut = rest;
    while k < m
        invariant
            k <= m,
            m == rest_mut@.len(),
            restv == str_views(rest_mut@),
            s.len() > max_message_len(),
            first_piece == s.subrange(0, cut_at(s)),
            restv == split_message_spec(s.subrange(cut_at(s), s.len() as int)),
            r@.len() == 1 + k,
            r@[0]@ == first_piece,
            forall|x: int| 0 <= x < k ==> (#[trigger] r@[1 + x]@) == restv[x],
        decreases m - k,
    {
        let ghost pre = r@;
        let item = rest_mut[k].clone();
        let ghost iv = item@;
        r.push(item);
        k = k + 1;
        proof {
            assert(forall|x: int| 0 <= x < pre.len() ==> r@[x] == pre[x]);
            assert(iv == restv[k - 1]);
        }
    }
    proof {
        let rhs = seq![s.subrange(0, cut_at(s))] + split_message_spec(
            s.subrange(cut_at(s), s.len() as int),
        );
        assert forall|y: int| 0 <= y < r@.len() implies #[trigger] str_views(r@)[y] == rhs[y] by {
            if y > 0 {
                let x = y - 1;
                assert(r@[1 + x]@ == restv[x]);
            }
        }
        assert(str_views(r@) =~= rhs);
    }
    r
}

/// Joining the chunks of a split restores the original text.
pub proof fn lemma_split_message_rejoins(s: Seq<char>)
    ensures
        concat_chunks(split_message_spec(s)) == s,
    decreases s.len(),
{
    if s.len() <= max_message_len() {
        assert(split_message_spec(s) == seq![s]);
        assert((seq![s]).drop_last() =~= Seq::<Seq<char>>::empty());
        assert(crate::text::concat_seqs((seq![s]).drop_last()) == Seq::<char>::empty());
        assert((seq![s]).last() == s);
        assert(concat_chunks(seq![s]) == Seq::<char>::empty() + s);
        assert(concat_chunks(seq![s]) =~= s);
    } else {
        lemma_last_nl_bounds(s, max_message_len());
        let cut = cut_at(s);
        let rest = s.subrange(cut, s.len() as int);
        lemma_split_message_rejoins(rest);
        lemma_concat_chunks_cons(s.subrange(0, cut), split_message_spec(rest));
        assert(s.subrange(0, cut) + rest =~= s);
    }
}

/// The chunks joined back together.
pub open spec fn concat_chunks(parts: Seq<Seq<char>>) -> Seq<char> {
    crate::text::concat_seqs(parts)
}

proof fn lemma_concat_chunks_cons(head: Seq<char>, rest: Seq<Seq<char>>)
    ensures
        concat_chunks(seq![head] + rest) == head + concat_chunks(rest),
    decreases rest.len(),
{
    if rest.len() == 0 {
        assert(seq![head] + rest =~= seq![head]);
        assert((seq![head]).drop_last() =~= Seq::<Seq<char>>::empty());
        assert(crate::text::concat_seqs((seq![head]).drop_last()) == Seq::<char>::empty());
        assert((seq![head]).last() == head);
        assert(concat_chunks(seq![head]) == Seq::<char>::empty() + head);
        assert(concat_chunks(rest) == Seq::<char>::empty());
        assert(Seq::<char>::empty() + head =~= head + Seq::<char>::empty());
        assert(concat_chunks(seq![head]) =~= head + concat_chunks(rest));
    } else {
        let whole = seq![head] + rest;
        assert(whole.drop_last() =~= seq![head] + rest.drop_last());
        lemma_concat_chunks_cons(head, rest.drop_last());
        assert(whole.last() == rest.last());
        assert(concat_chunks(whole) == (head + concat_chunks(rest.drop_last())) + rest.last());
        assert((head + concat_chunks(rest.drop_last())) + rest.last() =~= head + (concat_chunks(
            rest.drop_last(),
        ) + rest.last()));
    }
}

/// The characters the transport's markdown dialect asks to escape.
pub open spec fn is_special_char(c: char) -> bool {
    ||| c == '_'
    ||| c == '*'
    ||| c == '['
    ||| c == ']'
    ||| c == '('
    ||| c == ')'
    ||| c == '~'
    ||| c == '`'
    ||| c == '>'
    ||| c == '#'
    ||| c == '+'
    ||| c == '-'
    ||| c == '='
    ||| c == '|'
    ||| c == '{'
    ||| c == '}'
    ||| c == '.'
    ||| c == '!'
    ||| c == '\\'
}

fn is_special(c: char) -> (r: bool)
    ensures
        r == is_special_char(c),
{
    c == '_' || c == '*' || c == '[' || c == ']' || c == '(' || c == ')' || c == '~' || c == '`'
        || c == '>' || c == '#' || c == '+' || c == '-' || c == '=' || c == '|' || c == '{' || c
        == '}' || c == '.' || c == '!' || c == '\\'
}

/// A code fence opens at `i`.
pub open spec fn fence_at(s: Seq<char>, i: int) -> bool {
    s[i] == '`' && i + 2 < s.len() && s[i + 1] == '`' && s[i + 2] == '`'
}

/// The first fence at or after `j`, or the length.
pub open spec fn next_fence(s: Seq<char>, j: int) -> int
    decreases s.len() - j when j <= s.len()
{
    if j >= s.len() {
        s.len() as int
    } else if fence_at(s, j) {
        j
    } else {
        next_fence(s, j + 1)
    }
}

/// The first backtick at or after `j`, or the length.
pub open spec fn next_tick(s: Seq<char>, j: int) -> int
    decreases s.len() - j when j <= s.len()
{
    if j >= s.len() {
        s.len() as int
    } else if s[j] == '`' {
        j
    } else {
        next_tick(s, j + 1)
    }
}

proof fn lemma_next_fence_bounds(s: Seq<char>, j: int)
    requires
        0 <= j <= s.len(),
    ensures
        j <= next_fence(s, j) <= s.len(),
        next_fence(s, j) < s.len() ==> fence_at(s, next_fence(s, j)),
    decreases s.len() - j,
{
    if j < s.len() && !fence_at(s, j) {
        lemma_next_fence_bounds(s, j + 1);
    }
}

proof fn lemma_next_tick_bounds(s: Seq<char>, j: int)
    requires
        0 <= j <= s.len(),
    ensures
        j <= next_tick(s, j) <= s.len(),
        next_tick(s, j) < s.len() ==> s[next_tick(s, j)] == '`',
    decreases s.len() - j,
{
    if j < s.len() && s[j] != '`' {
        lemma_next_tick_bounds(s, j + 1);
    }
}

/// The escape of `s` from position `i` on: code fences and inline
/// code spans are copied verbatim, special characters are preceded by
/// a backslash, everything else is copied.
pub open spec fn escape_spec(s: Seq<char>, i: int) -> Seq<char>
    decreases s.len() - i when 0 <= i <= s.len() via escape_spec_dec
{
    if i >= s.len() {
        Seq::<char>::empty()
    } else if fence_at(s, i) {
        let j = next_fence(s, i + 3);
        let end = if j < s.len() {
            j + 3
        } else {
            s.len() as int
        };
        s.subrange(i, end) + escape_spec(s, end)
    } else if s[i] == '`' {
        let j = next_tick(s, i + 1);
        let end = if j < s.len() {
            j + 1
        } else {
            s.len() as int
        };
        s.subrange(i, end) + escape_spec(s, end)
    } else if is_special_char(s[i]) {
        seq!['\\', s[i]] + escape_spec(s, i + 1)
    } else {
        seq![s[i]] + escape_spec(s, i + 1)
    }
}

#[via_fn]
proof fn escape_spec_dec(s: Seq<char>, i: int) {
    if 0 <= i < s.len() {
        if fence_at(s, i) {
            lemma_next_fence_bounds(s, i + 3);
        } else if s[i] == '`' {
            lemma_next_tick_bounds(s, i + 1);
        }
    }
}

fn fence_at_exec(v: &Vec<char>, i: usize) -> (r: bool)
    requires
        i < v@.len(),
    ensures
        r == fence_at(v@, i as int),
{
    v[i] == '`' && v.len() - i > 2 && v[i + 1] == '`' && v[i + 2] == '`'
}

/// Escape a reply for the transport's markdown dialect, leaving code
/// fences and inline code spans untouched.
pub fn escape_markdown_v2(text: &str) -> (r: String)
    ensures
        r@ == escape_spec(text@, 0),
{
    let v = chars_of(text);
    let len = v.len();
    let mut out: Vec<char> = Vec::new();
    let mut i: usize = 0;
    while i < len
        invariant
            i <= len,
            len == v@.len(),
            v@ == text@,
            escape_spec(text@, 0) == out@ + escape_spec(text@, i as int),
        decreases len - i,
    {
        let ghost out_pre = out@;
        if fence_at_exec(&v, i) {
            let mut j: usize = i + 3;
            while j < len && !fence_at_exec(&v, j)
                invariant
                    i + 3 <= j <= len,
                    len == v@.len(),
                    v@ == text@,
                    next_fence(text@, i + 3) == next_fence(text@, j as int),
                decreases len - j,
            {
                j = j + 1;
            }
            let end: usize = if j < len {
                j + 3
            } else {
                len
            };
            proof {
                assert(next_fence(text@, j as int) == j);
            }
            let mut k: usize = i;
            while k < end
                invariant
                    i <= k <= end <= len,
                    len == v@.len(),
                    v@ == text@,
                    out@ == out_pre + text@.subrange(i as int, k as int),
                decreases end - k,
            {
                out.push(v[k]);
                k = k + 1;
                proof {
                    assert(out@ =~= out_pre + text@.subrange(i as int, k as int));
                }
            }
            proof {
                assert((out_pre + text@.subrange(i as int, end as int)) + escape_spec(
                    text@,
                    end as int,
                ) =~= out_pre + (text@.subrange(i as int, end as int) + escape_spec(
                    text@,
                    end as int,
                )));
            }
            i = end;
        } else if v[i] == '`' {
            let mut j: usize = i + 1;
            while j < len && v[j] != '`'
                invariant
                    i + 1 <= j <= len,
                    len == v@.len(),
                    v@ == text@,
                    next_tick(text@, i + 1) == next_tick(text@, j as int),
                decreases len - j,
            {
                j = j + 1;
            }
            let end: usize = if j < len {
                j + 1
            } else {
                len
            };
            proof {
                assert(next_tick(text@, j as int) == j);
            }
            let mut k: usize = i;
            while k < end
                invariant
                    i <= k <= end <= len,
                    len == v@.len(),
                    v@ == text@,
                    out@ == out_pre + text@.subrange(i as int, k as int),
                decreases end - k,
            {
                out.push(v[k]);
                k = k + 1;
                proof {
                    assert(out@ =~= out_pre + text@.subrange(i as int, k as int));
                }
            }
            proof {
                assert((out_pre + text@.subrange(i as int, end as int)) + escape_spec(
                    text@,
                    end as int,
                ) =~= out_pre + (text@.subrange(i as int, end as int) + escape_spec(
                    text@,
                    end as int,
                )));
            }
            i = end;
        } else if is_special(v[i]) {
            out.push('\\');
            out.push(v[i]);
            i = i + 1;
            proof {
                assert(out@ =~= out_pre + seq!['\\', text@[i - 1]]);
                assert((out_pre + seq!['\\', text@[i - 1]]) + escape_spec(text@, i as int)
                    =~= out_pre + (seq!['\\', text@[i - 1]] + escape_spec(text@, i as int)));
            }
        } else {
            out.push(v[i]);
            i = i + 1;
            proof {
                assert(out@ =~= out_pre + seq![text@[i - 1]]);
                assert((out_pre + seq![text@[i - 1]]) + escape_spec(text@, i as int) =~= out_pre + (
                seq![text@[i - 1]] + escape_spec(text@, i as int)));
            }
        }
    }
    proof {
        assert(escape_spec(text@, len as int) == Seq::<char>::empty());
        assert(out@ + escape_spec(text@, len as int) =~= out@);
    }
    string_of(out.as_slice())
}

/// The display name of a model reference: a named tier as itself, an
/// inline definition as `provider/model`, none as `default`.
pub open spec fn model_ref_text(m: &Option<ModelRef>) -> Seq<char> {
    match m {
        Some(ModelRef::Named(n)) => n@,
        Some(ModelRef::Inline(c)) => c.provider.label_spec() + "/"@ + c.model@,
        None => "default"@,
    }
}

fn model_ref_string(m: &Option<ModelRef>) -> (r: String)
    ensures
        r@ == model_ref_text(m),
{
    match m {
        Some(ModelRef::Named(n)) => n.clone(),
        Some(ModelRef::Inline(c)) => {
            let mut s = c.provider.label();
            s.append("/");
            s.append(c.model.as_str());
            s
        },
        None => String::from_str("default"),
    }
}

/// The prompt cut to at most 50 bytes of content, an ellipsis marking
/// a cut.
pub open spec fn prompt_preview_ok(prompt: Seq<char>, r: Seq<char>) -> bool {
    if vstd::utf8::encode_utf8(prompt).len() <= 50 {
        r == prompt
    } else {
        exists|k: int|
            {
                &&& 0 <= k < prompt.len()
                &&& vstd::utf8::encode_utf8(prompt.subrange(0, k)).len() <= 50
                &&& vstd::utf8::encode_utf8(prompt.subrange(0, k + 1)).len() > 50
                &&& r == #[trigger] prompt.subrange(0, k) + "…"@
            }
    }
}

fn prompt_preview(prompt: &str) -> (r: String)
    ensures
        prompt_preview_ok(prompt@, r@),
{
    let total = prompt.as_bytes().len();
    if total <= 50 {
        return String::from_str(prompt);
    }
    let n = prompt.unicode_len();
    proof {
        assert(prompt@.subrange(0, n as int) =~= prompt@);
    }
    let mut k: usize = 0;
    while k < n && prompt.substring_char(0, k + 1).as_bytes().len() <= 50
        invariant
            k <= n,
            n == prompt@.len(),
            vstd::utf8::encode_utf8(prompt@.subrange(0, k as int)).len() <= 50,
        decreases n - k,
    {
        k = k + 1;
    }
    proof {
        if k == n {
            assert(prompt@.subrange(0, k as int) =~= prompt@);
            assert(false);
        }
    }
    let mut out = String::new();
    out.append(prompt.substring_char(0, k));
    out.append("…");
    out
}

/// One line of the schedule listing.
pub open spec fn schedule_line_ok(s: &ScheduleTaskConfig, r: Seq<char>) -> bool {
    exists|preview: Seq<char>|
        #[trigger] prompt_preview_ok(s.prompt@, preview) && r == "• "@ + s.name@ + " | "@ + s.cron@
            + " | model="@ + model_ref_text(&s.model) + " | "@ + preview
}

/// The `/cron` listing: one line per schedule with its name, cron
/// expression, model and prompt preview; a fixed message when none are
/// configured.
pub fn format_schedules(schedules: &Vec<ScheduleTaskConfig>) -> (r: String)
    ensures
        schedules@.len() == 0 ==> r@ == "No schedules configured."@,
        schedules@.len() > 0 ==> ({
            exists|lines: Seq<Seq<char>>|
                {
                    &&& lines.len() == schedules@.len()
                    &&& (forall|j: int|
                        0 <= j < lines.len() ==> schedule_line_ok(
                            &schedules@[j],
                            #[trigger] lines[j],
                        ))
                    &&& r@ == join_seqs(seq!["Schedules:"@] + lines, "\n"@)
                }
        }),
{
    if schedules.len() == 0 {
        return String::from_str("No schedules configured.");
    }
    let mut parts: Vec<String> = Vec::new();
    parts.push(String::from_str("Schedules:"));
    let n = schedules.len();
    let mut i: usize = 0;
    while i < n
        invariant
            i <= n,
            n == schedules@.len(),
            parts@.len() == 1 + i,
            parts@[0]@ == "Schedules:"@,
            forall|j: int|
                0 <= j < i ==> schedule_line_ok(&schedules@[j], (#[trigger] parts@[1 + j]@)),
        decreases n - i,
    {
        let ghost pre = parts@;
        let s = &schedules[i];
        let mut line = String::from_str("• ");
        line.append(s.name.as_str());
        line.append(" | ");
        line.append(s.cron.as_str());
        line.append(" | model=");
        line.append(model_ref_string(&s.model).as_str());
        line.append(" | ");
        let preview = prompt_preview(s.prompt.as_str());
        line.append(preview.as_str());
        parts.push(line);
        i = i + 1;
        proof {
            assert(forall|x: int| 0 <= x < pre.len() ==> parts@[x] == pre[x]);
            assert(schedule_line_ok(&schedules@[i - 1], parts@[i as int]@));
        }
    }
    let joined = crate::text::join_strings(&parts, "\n");
    proof {
        let lines = str_views(parts@).subrange(1, parts@.len() as int);
        assert forall|j: int| 0 <= j < lines.len() implies schedule_line_ok(
            &schedules@[j],
            #[trigger] lines[j],
        ) by {
            assert(lines[j] == str_views(parts@)[1 + j]);
            assert(str_views(parts@)[1 + j] == parts@[1 + j]@);
        }
        assert(str_views(parts@) =~= seq!["Schedules:"@] + lines);
    }
    joined
}

/// The `/heartbeat` report: the enabled flag, the interval, the model
/// and the prompt of the heartbeat configuration; a fixed message when
/// none is configured.
pub fn format_heartbeat(config: Option<&HeartbeatConfig>) -> (r: String)
    ensures
        ({
            match config {
                None => r@ == "Heartbeat: not configured."@,
                Some(hb) => r@ == "Heartbeat:\n• enabled: "@ + (if hb.enabled {
                    "true"@
                } else {
                    "false"@
                }) + "\n• interval: "@ + dec_str(hb.interval_secs as int) + "s\n• model: "@
                    + model_ref_text(&hb.model) + "\n• prompt: "@ + (match hb.prompt {
                    Some(ref p) => p@,
                    None => "(none)"@,
                }),
            }
        }),
{
    match config {
        None => String::from_str("Heartbeat: not configured."),
        Some(hb) => {
            let mut s = String::from_str("Heartbeat:\n• enabled: ");
            if hb.enabled {
                s.append("true");
            } else {
                s.append("false");
            }
            s.append("\n• interval: ");
            s.append(u64_to_string(hb.interval_secs).as_str());
            s.append("s\n• model: ");
            s.append(model_ref_string(&hb.model).as_str());
            s.append("\n• prompt: ");
            match &hb.prompt {
                Some(p) => s.append(p.as_str()),
                None => s.append("(none)"),
            }
            s
        },
    }
}

/// One line of the server listing: the server's name and its
/// transport.
pub open spec fn mcp_server_line(name: Seq<char>, c: &crate::config::McpServerConfig) -> Seq<char> {
    "• "@ + name + " — "@ + (match c.command {
        Some(ref cmd) => "stdio ("@ + cmd@ + ")"@,
        None => match c.url {
            Some(ref url) => "http ("@ + url@ + ")"@,
            None => "unknown"@,
        },
    })
}

/// The `/mcp` report: one line per configured tool server, in the
/// given order; a fixed message when none are configured.
pub fn format_mcp_servers(config: &McpConfig) -> (r: String)
    ensures
        config.mcp_servers@.len() == 0 ==> r@ == "MCP: no servers configured."@,
        config.mcp_servers@.len() > 0 ==> r@ == join_seqs(
            seq!["MCP servers:"@] + Seq::new(
                config.mcp_servers@.len(),
                |j: int| mcp_server_line(
                    config.mcp_servers@[j].0@,
                    &config.mcp_servers@[j].1,
                ),
            ),
            "\n"@,
        ),
{
    if config.mcp_servers.len() == 0 {
        return String::from_str("MCP: no servers configured.");
    }
    let mut parts: Vec<String> = Vec::new();
    parts.push(String::from_str("MCP servers:"));
    let n = config.mcp_servers.len();
    let mut i: usize = 0;
    while i < n
        invariant
            i <= n,
            n == config.mcp_servers@.len(),
            parts@.len() == 1 + i,
            parts@[0]@ == "MCP servers:"@,
            forall|j: int|
                0 <= j < i ==> (#[trigger] parts@[1 + j]@) == mcp_server_line(
                    config.mcp_servers@[j].0@,
                    &config.mcp_servers@[j].1,
                ),
        decreases n - i,
    {
        let ghost pre = parts@;
        let mut line = String::from_str("• ");
        line.append(config.mcp_servers[i].0.as_str());
        line.append(" — ");
        match &config.mcp_servers[i].1.command {
            Some(cmd) => {
                line.append("stdio (");
                line.append(cmd.as_str());
                line.append(")");
            },
            None => {
                match &config.mcp_servers[i].1.url {
                    Some(url) => {
                        line.append("http (");
                        line.append(url.as_str());
                        line.append(")");
                    },
                    None => {
                        line.append("unknown");
                    },
                }
            },
        }
        parts.push(line);
        i = i + 1;
        proof {
            assert(forall|x: int| 0 <= x < pre.len() ==> parts@[x] == pre[x]);
            assert(parts@[i as int]@ == mcp_server_line(
                config.mcp_servers@[i - 1].0@,
                &config.mcp_servers@[i - 1].1,
            ));
        }
    }
    let joined = crate::text::join_strings(&parts, "\n");
    proof {
        let rhs = seq!["MCP servers:"@] + Seq::new(
            config.mcp_servers@.len(),
            |j: int| mcp_server_line(config.mcp_servers@[j].0@, &config.mcp_servers@[j].1),
        );
        assert forall|x: int| 0 <= x < parts@.len() implies #[trigger] str_views(parts@)[x] == rhs[
            x
        ] by {
            if x > 0 {
                assert(parts@[1 + (x - 1)]@ == mcp_server_line(
                    config.mcp_servers@[x - 1].0@,
                    &config.mcp_servers@[x - 1].1,
                ));
            }
        }
        assert(str_views(parts@) =~= rhs);
    }
    joined
}

} // verus!
