//! Persistent markdown memory: a document of nested `#` sections. The
//! section structure is parsed from the text; writing a section
//! rebuilds the document around it. Reading and writing the file is
//! the caller's concern.

use vstd::prelude::*;

use crate::text::{
    chars_of, join_seqs, join_strings, split_lines, split_lines_spec, starts_with_spec, str_views,
    string_of, trim_spec, trim_slice, trim_end_spec,
};

verus! {

/// One section of the memory document: its full path (names joined by
/// `/`), its heading level, and its body text.
#[derive(Debug)]
pub struct Section {
    pub path: String,
    pub level: usize,
    pub content: String,
}

/// The mathematical value of a section.
#[verifier::ext_equal]
pub ghost struct SectionView {
    pub path: Seq<char>,
    pub level: int,
    pub content: Seq<char>,
}

impl View for Section {
    type V = SectionView;

    open spec fn view(&self) -> SectionView {
        SectionView { path: self.path@, level: self.level as int, content: self.content@ }
    }
}

/// The views of a section sequence.
pub open spec fn section_views(s: Seq<Section>) -> Seq<SectionView> {
    s.map_values(|x: Section| x@)
}

/// The number of leading `#` characters.
pub open spec fn leading_hashes(s: Seq<char>) -> int
    decreases s.len(),
{
    if s.len() == 0 || s.first() != '#' {
        0
    } else {
        1 + leading_hashes(s.drop_first())
    }
}

pub proof fn lemma_leading_hashes_at_pub(s: Seq<char>, n: int)
    requires
        0 <= n <= s.len(),
        forall|k: int| 0 <= k < n ==> s[k] == '#',
        n < s.len() ==> s[n] != '#',
    ensures
        leading_hashes(s) == n,
    decreases n,
{
    if n == 0 {
    } else {
        assert(s.first() == '#');
        let d = s.drop_first();
        assert(forall|k: int| 0 <= k < n - 1 ==> (#[trigger] d[k]) == '#');
        assert(n - 1 < d.len() ==> d[n - 1] != '#');
        lemma_leading_hashes_at_pub(d, n - 1);
    }
}

/// The parse of one heading line `#... name`, if it is one: the level
/// (1 to 6) and the trimmed name.
pub open spec fn header_line_spec(line: Seq<char>) -> Option<(int, Seq<char>)> {
    let t = crate::text::trim_start_spec(line);
    if !(t.len() > 0 && t.first() == '#') {
        None
    } else {
        let level = leading_hashes(t);
        if level > 6 {
            None
        } else {
            let rest = t.subrange(level, t.len() as int);
            if !(rest.len() == 0 || rest.first() == ' ') {
                None
            } else {
                let name = trim_spec(rest);
                if name.len() == 0 {
                    None
                } else {
                    Some((level, name))
                }
            }
        }
    }
}

/// Try to parse a heading line into its level and name.
pub fn parse_header_line(line: &str) -> (r: Option<(usize, String)>)
    ensures
        match r {
            Some(p) => header_line_spec(line@) == Some((p.0 as int, p.1@)),
            None => header_line_spec(line@) is None,
        },
{
    let v = chars_of(line);
    let t = {
        let n = v.len();
        let mut a: usize = 0;
        while a < n && crate::text::is_space(v[a])
            invariant
                a <= n,
                n == v@.len(),
                forall|k: int| 0 <= k < a ==> crate::text::is_space_char(#[trigger] v@[k]),
            decreases n - a,
        {
            a = a + 1;
        }
        proof {
            crate::text::lemma_trim_start_at(v@, a as int);
        }
        crate::text::sub_chars(v.as_slice(), a, v.len())
    };
    let ghost tview = crate::text::trim_start_spec(line@);
    proof {
        assert(t@ == tview);
    }
    if t.len() == 0 {
        return None;
    }
    if t[0] != '#' {
        return None;
    }
    let n = t.len();
    let mut level: usize = 0;
    while level < n && t[level] == '#'
        invariant
            level <= n,
            n == t@.len(),
            forall|k: int| 0 <= k < level ==> (#[trigger] t@[k]) == '#',
        decreases n - level,
    {
        level = level + 1;
    }
    proof {
        lemma_leading_hashes_at_pub(t@, level as int);
    }
    if level > 6 {
        return None;
    }
    let rest = crate::text::sub_chars(t.as_slice(), level, n);
    if rest.len() > 0 && rest[0] != ' ' {
        return None;
    }
    let name = trim_slice(rest.as_slice());
    if name.len() == 0 {
        return None;
    }
    Some((level, string_of(name.as_slice())))
}

/// The stack of open sections, from the outermost in: levels with
/// their names.
pub open spec fn pop_to_level(stack: Seq<(int, Seq<char>)>, level: int) -> Seq<(int, Seq<char>)>
    decreases stack.len(),
{
    if stack.len() == 0 {
        stack
    } else if stack.last().0 >= level {
        pop_to_level(stack.drop_last(), level)
    } else {
        stack
    }
}

/// The names of a stack.
pub open spec fn stack_names(stack: Seq<(int, Seq<char>)>) -> Seq<Seq<char>> {
    stack.map_values(|e: (int, Seq<char>)| e.1)
}

/// The path of a stack: its names joined by `/`.
pub open spec fn path_of_stack(stack: Seq<(int, Seq<char>)>) -> Seq<char> {
    join_seqs(stack_names(stack), "/"@)
}

/// The section flushed when a new heading starts (or the text ends):
/// nothing while no heading is open.
pub open spec fn flushed(stack: Seq<(int, Seq<char>)>, content: Seq<char>) -> Seq<SectionView> {
    if stack.len() == 0 {
        Seq::<SectionView>::empty()
    } else {
        seq![
            SectionView {
                path: path_of_stack(stack),
                level: stack.last().0,
                content: trim_end_spec(content),
            },
        ]
    }
}

/// Body text extended by one line: blank lines before any body text
/// are dropped.
pub open spec fn content_append(content: Seq<char>, line: Seq<char>) -> Seq<char> {
    if content.len() == 0 && line.len() == 0 {
        content
    } else if content.len() == 0 {
        line
    } else {
        content + "\n"@ + line
    }
}

/// The sections of the lines from index `i` on, given the open
/// heading stack and the body text collected so far.
pub open spec fn sections_from_spec(
    lines: Seq<Seq<char>>,
    i: int,
    stack: Seq<(int, Seq<char>)>,
    content: Seq<char>,
) -> Seq<SectionView>
    decreases lines.len() - i when 0 <= i
{
    if i >= lines.len() {
        flushed(stack, content)
    } else {
        match header_line_spec(lines[i]) {
            Some(h) => {
                let st2 = pop_to_level(stack, h.0).push((h.0, h.1));
                flushed(stack, content) + sections_from_spec(lines, i + 1, st2, Seq::<char>::empty())
            },
            None => {
                sections_from_spec(lines, i + 1, stack, content_append(content, lines[i]))
            },
        }
    }
}

/// The sections of a memory document.
pub open spec fn parse_sections_spec(text: Seq<char>) -> Seq<SectionView> {
    sections_from_spec(split_lines_spec(text), 0, Seq::<(int, Seq<char>)>::empty(), Seq::<char>::empty())
}

/// The views of a name stack held executably.
pub open spec fn stack_views(s: Seq<(usize, String)>) -> Seq<(int, Seq<char>)> {
    s.map_values(|e: (usize, String)| (e.0 as int, e.1@))
}

fn sections_from(
    lines: &Vec<String>,
    i: usize,
    stack: Vec<(usize, String)>,
    content: String,
) -> (r: Vec<Section>)
    requires
        i <= lines@.len(),
    ensures
        section_views(r@) == sections_from_spec(
            str_views(lines@),
            i as int,
            stack_views(stack@),
            content@,
        ),
    decreases lines@.len() - i,
{
    let ghost lv = str_views(lines@);
    let ghost sv = stack_views(stack@);
    if i >= lines.len() {
        let mut r: Vec<Section> = Vec::new();
        if stack.len() > 0 {
            let mut names: Vec<String> = Vec::new();
            let m = stack.len();
            let mut k: usize = 0;
            while k < m
                invariant
                    k <= m,
                    m == stack@.len(),
                    sv == stack_views(stack@),
                    names@.len() == k,
                    forall|x: int| 0 <= x < k ==> (#[trigger] names@[x]@) == stack@[x].1@,
                decreases m - k,
            {
                let ghost pre = names@;
                names.push(stack[k].1.clone());
                k = k + 1;
                proof {
                    assert(forall|x: int| 0 <= x < pre.len() ==> names@[x] == pre[x]);
                    assert(names@[k - 1]@ == stack@[k - 1].1@);
                }
            }
            proof {
                assert(forall|x: int|
                    0 <= x < m ==> (#[trigger] stack_names(sv)[x]) == stack@[x].1@);
                assert(str_views(names@) =~= stack_names(sv));
            }
            let path = join_strings(&names, "/");
            let level = stack[stack.len() - 1].0;
            let cv = chars_of(content.as_str());
            let trimmed_content = {
                let n = cv.len();
                let mut b: usize = n;
                while b > 0 && crate::text::is_space(cv[b - 1])
                    invariant
                        b <= n,
                        n == cv@.len(),
                        forall|k2: int| b <= k2 < n ==> crate::text::is_space_char(
                            #[trigger] cv@[k2],
                        ),
                    decreases b,
                {
                    b = b - 1;
                }
                proof {
                    crate::text::lemma_trim_end_at(cv@, b as int);
                }
                crate::text::sub_chars(cv.as_slice(), 0, b)
            };
            r.push(
                Section { path, level, content: string_of(trimmed_content.as_slice()) },
            );
            proof {
                assert(sv.last() == (stack@[stack@.len() - 1].0 as int, stack@[
                    stack@.len() - 1
                ].1@));
                assert(section_views(r@) =~~= flushed(sv, content@));
            }
        } else {
            proof {
                assert(section_views(r@) =~~= flushed(sv, content@));
            }
        }
        return r;
    }
    proof {
        assert(lv[i as int] == lines@[i as int]@);
    }
    match parse_header_line(lines[i].as_str()) {
        Some(h) => {
            let flushed_out = sections_from_close(&stack, content.as_str());
            let mut st = stack;
            while st.len() > 0 && st[st.len() - 1].0 >= h.0
                invariant
                    pop_to_level(sv, h.0 as int) == pop_to_level(stack_views(st@), h.0 as int),
                decreases st@.len(),
            {
                let ghost pre = stack_views(st@);
                let _ = st.pop();
                proof {
                    assert(stack_views(st@) =~= pre.drop_last());
                }
            }
            proof {
                assert(pop_to_level(stack_views(st@), h.0 as int) == stack_views(st@));
            }
            let ghost st_after_pop = stack_views(st@);
            st.push((h.0, h.1));
            proof {
                assert(stack_views(st@) =~= st_after_pop.push((h.0 as int, h.1@)));
            }
            let rest = sections_from(lines, i + 1, st, String::new());
            let mut out = flushed_out;
            let ghost outv = section_views(out@);
            let ghost restv = section_views(rest@);
            let mut rest_mut = rest;
            let m = rest_mut.len();
            let mut k: usize = 0;
            while k < m
                invariant
                    k <= m,
                    m == rest_mut@.len(),
                    restv == section_views(rest_mut@),
                    out@.len() == outv.len() + k,
                    forall|x: int| 0 <= x < outv.len() ==> (#[trigger] out@[x]@) =~~= outv[x],
                    forall|x: int|
                        0 <= x < k ==> (#[trigger] out@[outv.len() + x]@) =~~= restv[x],
                decreases m - k,
            {
                let ghost opre = out@;
                let s_item = Section {
                    path: rest_mut[k].path.clone(),
                    level: rest_mut[k].level,
                    content: rest_mut[k].content.clone(),
                };
                let ghost siv = s_item@;
                out.push(s_item);
                k = k + 1;
                proof {
                    assert(forall|x: int| 0 <= x < opre.len() ==> out@[x] == opre[x]);
                    assert(restv[k - 1] == rest_mut@[k - 1]@);
                    assert(out@[out@.len() - 1]@ =~~= restv[k - 1]);
                }
            }
            proof {
                assert(out@.len() == outv.len() + m);
                assert forall|x: int| 0 <= x < out@.len() implies #[trigger] section_views(out@)[x]
                    =~~= (outv + restv)[x] by {
                    if x < outv.len() {
                        assert(out@[x]@ =~~= outv[x]);
                    } else {
                        let x2 = x - outv.len();
                        assert(out@[outv.len() + x2]@ =~~= restv[x2]);
                    }
                }
                assert(section_views(out@) =~~= outv + restv);
                assert(section_views(out@) =~~= flushed(sv, content@) + sections_from_spec(
                    lv,
                    i + 1,
                    pop_to_level(sv, h.0 as int).push((h.0 as int, h.1@)),
                    Seq::<char>::empty(),
                ));
            }
            out
        },
        None => {
            let new_content: String = if content.as_str().unicode_len() == 0
                && lines[i].as_str().unicode_len() == 0 {
                content
            } else if content.as_str().unicode_len() == 0 {
                lines[i].clone()
            } else {
                let mut c = content;
                c.append("\n");
                c.append(lines[i].as_str());
                c
            };
            sections_from(lines, i + 1, stack, new_content)
        },
    }
}

/// The flushed form of the current section, executably.
fn sections_from_close(stack: &Vec<(usize, String)>, content: &str) -> (r: Vec<Section>)
    ensures
        section_views(r@) == flushed(stack_views(stack@), content@),
{
    let ghost sv = stack_views(stack@);
    let mut r: Vec<Section> = Vec::new();
    if stack.len() > 0 {
        let mut names: Vec<String> = Vec::new();
        let m = stack.len();
        let mut k: usize = 0;
        while k < m
            invariant
                k <= m,
                m == stack@.len(),
                sv == stack_views(stack@),
                names@.len() == k,
                forall|x: int| 0 <= x < k ==> (#[trigger] names@[x]@) == stack@[x].1@,
            decreases m - k,
        {
            let ghost pre = names@;
            names.push(stack[k].1.clone());
            k = k + 1;
            proof {
                assert(forall|x: int| 0 <= x < pre.len() ==> names@[x] == pre[x]);
                assert(names@[k - 1]@ == stack@[k - 1].1@);
            }
        }
        proof {
            assert(forall|x: int| 0 <= x < m ==> (#[trigger] stack_names(sv)[x]) == stack@[x].1@);
            assert(str_views(names@) =~= stack_names(sv));
        }
        let path = join_strings(&names, "/");
        let level = stack[stack.len() - 1].0;
        let cv = chars_of(content);
        let n = cv.len();
        let mut b: usize = n;
        while b > 0 && crate::text::is_space(cv[b - 1])
            invariant
                b <= n,
                n == cv@.len(),
                forall|k2: int| b <= k2 < n ==> crate::text::is_space_char(#[trigger] cv@[k2]),
            decreases b,
        {
            b = b - 1;
        }
        proof {
            crate::text::lemma_trim_end_at(cv@, b as int);
        }
        let trimmed_content = crate::text::sub_chars(cv.as_slice(), 0, b);
        r.push(Section { path, level, content: string_of(trimmed_content.as_slice()) });
        proof {
            assert(sv.last() == (stack@[stack@.len() - 1].0 as int, stack@[stack@.len() - 1].1@));
            assert(section_views(r@) =~~= flushed(sv, content@));
        }
    } else {
        proof {
            assert(section_views(r@) =~~= flushed(sv, content@));
        }
    }
    r
}

/// Parse a memory document into its sections, in order of appearance;
/// text before the first heading is dropped.
pub fn parse_sections(text: &str) -> (r: Vec<Section>)
    ensures
        section_views(r@) == parse_sections_spec(text@),
{
    let lines = split_lines(text);
    let st: Vec<(usize, String)> = Vec::new();
    proof {
        assert(stack_views(st@) =~= Seq::<(int, Seq<char>)>::empty());
    }
    sections_from(&lines, 0, st, String::new())
}


/// `n` hash characters.
pub open spec fn hash_seq(n: int) -> Seq<char>
    decreases n,
{
    if n <= 0 {
        Seq::<char>::empty()
    } else {
        hash_seq(n - 1).push('#')
    }
}

fn hashes_exec(n: usize) -> (r: Vec<char>)
    ensures
        r@ == hash_seq(n as int),
{
    let mut r: Vec<char> = Vec::new();
    let mut i: usize = 0;
    while i < n
        invariant
            i <= n,
            r@ == hash_seq(i as int),
        decreases n - i,
    {
        r.push('#');
        i = i + 1;
    }
    r
}

/// The index of the last `/` in `p`, or -1.
pub open spec fn last_slash(p: Seq<char>) -> int
    decreases p.len(),
{
    if p.len() == 0 {
        -1
    } else if p.last() == '/' {
        p.len() - 1
    } else {
        last_slash(p.drop_last())
    }
}

/// The last `/`-separated segment of a path.
pub open spec fn last_segment(p: Seq<char>) -> Seq<char> {
    p.subrange(last_slash(p) + 1, p.len() as int)
}

proof fn lemma_last_slash_at(p: Seq<char>, i: int)
    requires
        0 <= i < p.len(),
        p[i] == '/',
        forall|k: int| i < k < p.len() ==> p[k] != '/',
    ensures
        last_slash(p) == i,
    decreases p.len(),
{
    if i == p.len() - 1 {
    } else {
        assert(p.last() != '/');
        let d = p.drop_last();
        assert(d[i] == '/');
        assert(forall|k: int| i < k < d.len() ==> (#[trigger] d[k]) != '/');
        lemma_last_slash_at(d, i);
    }
}

proof fn lemma_last_slash_none(p: Seq<char>)
    requires
        forall|k: int| 0 <= k < p.len() ==> (#[trigger] p[k]) != '/',
    ensures
        last_slash(p) == -1,
    decreases p.len(),
{
    if p.len() > 0 {
        let d = p.drop_last();
        assert(forall|k: int| 0 <= k < d.len() ==> (#[trigger] d[k]) != '/');
        lemma_last_slash_none(d);
    }
}

/// The last path segment, executably.
fn last_segment_exec(p: &str) -> (r: Vec<char>)
    ensures
        r@ == last_segment(p@),
{
    let v = chars_of(p);
    let n = v.len();
    let mut b: usize = n;
    while b > 0 && v[b - 1] != '/'
        invariant
            b <= n,
            n == v@.len(),
            forall|k: int| b <= k < n ==> (#[trigger] v@[k]) != '/',
        decreases b,
    {
        b = b - 1;
    }
    proof {
        if b > 0 {
            lemma_last_slash_at(v@, b - 1);
        } else {
            lemma_last_slash_none(v@);
        }
    }
    crate::text::sub_chars(v.as_slice(), b, n)
}

/// A section heading with its name, as a read renders it.
pub open spec fn rendered_heading(s: SectionView) -> Seq<char> {
    hash_seq(s.level) + " "@ + last_segment(s.path)
}

/// Whether a section lies under the requested path: its lower-cased
/// path is the target or extends it by a `/`-separated suffix.
pub open spec fn section_selected(s: SectionView, target: Seq<char>) -> bool {
    crate::validate::lower_of(s.path) == target || crate::text::starts_with_spec(
        crate::validate::lower_of(s.path),
        target + "/"@,
    )
}

/// The text of a section read: the selected sections from `i` on
/// appended to `acc`, blank-line separated, each as its heading plus
/// its non-empty body.
pub open spec fn read_from_spec(
    sections: Seq<SectionView>,
    i: int,
    target: Seq<char>,
    acc: Seq<char>,
) -> Seq<char>
    decreases sections.len() - i when 0 <= i
{
    if i >= sections.len() {
        acc
    } else {
        let s = sections[i];
        if section_selected(s, target) {
            let piece = rendered_heading(s) + (if s.content.len() > 0 {
                "\n"@ + s.content
            } else {
                Seq::<char>::empty()
            });
            let acc2 = if acc.len() > 0 {
                acc + "\n\n"@ + piece
            } else {
                piece
            };
            read_from_spec(sections, i + 1, target, acc2)
        } else {
            read_from_spec(sections, i + 1, target, acc)
        }
    }
}

/// Read the memory text, or one section of it (with its subsections).
///
/// Without a section path, the text itself is returned, or a fixed
/// note when it is blank. With one, the matching sections are rendered
/// in order; an unknown path is reported.
pub fn read_memory(text: &str, section: Option<&str>) -> (r: String)
    ensures
        ({
            match section {
                None => if crate::text::trim_spec(text@).len() == 0 {
                    r@ == "(memory is empty)"@
                } else {
                    r@ == text@
                },
                Some(sp) => {
                    let target = crate::validate::lower_of(sp@);
                    let body = read_from_spec(
                        parse_sections_spec(text@),
                        0,
                        target,
                        Seq::<char>::empty(),
                    );
                    if body.len() == 0 {
                        r@ == "(section '"@ + sp@ + "' not found)"@
                    } else {
                        r@ == body
                    }
                },
            }
        }),
{
    match section {
        None => {
            if crate::text::all_space(text) {
                String::from_str("(memory is empty)")
            } else {
                String::from_str(text)
            }
        },
        Some(section_path) => {
            let sections = parse_sections(text);
            let target = crate::validate::lowercase(section_path);
            let ghost targetv = crate::validate::lower_of(section_path@);
            let ghost sv = section_views(sections@);
            let prefix_full = {
                let mut p = target.clone();
                p.append("/");
                p
            };
            let mut result = String::new();
            let n = sections.len();
            let mut i: usize = 0;
            while i < n
                invariant
                    i <= n,
                    n == sections@.len(),
                    sv == section_views(sections@),
                    targetv == crate::validate::lower_of(section_path@),
                    target@ == targetv,
                    prefix_full@ == targetv + "/"@,
                    read_from_spec(sv, 0, targetv, Seq::<char>::empty()) == read_from_spec(
                        sv,
                        i as int,
                        targetv,
                        result@,
                    ),
                decreases n - i,
            {
                proof {
                    assert(sv[i as int] == sections@[i as int]@);
                }
                let s_lower = crate::validate::lowercase(sections[i].path.as_str());
                let slc = chars_of(s_lower.as_str());
                let tc = chars_of(target.as_str());
                let pc = chars_of(prefix_full.as_str());
                let selected = crate::text::str_eq(s_lower.as_str(), target.as_str())
                    || crate::text::starts_with_chars(slc.as_slice(), pc.as_slice());
                if selected {
                    proof {
                        assert(section_selected(sv[i as int], targetv));
                    }
                    let ghost acc_pre = result@;
                    if result.as_str().unicode_len() > 0 {
                        result.append("\n\n");
                    }
                    let hashes = hashes_exec(sections[i].level);
                    result.append(string_of(hashes.as_slice()).as_str());
                    result.append(" ");
                    let name = last_segment_exec(sections[i].path.as_str());
                    result.append(string_of(name.as_slice()).as_str());
                    if sections[i].content.as_str().unicode_len() > 0 {
                        result.append("\n");
                        result.append(sections[i].content.as_str());
                    }
                    proof {
                        let s = sv[i as int];
                        let piece = rendered_heading(s) + (if s.content.len() > 0 {
                            "\n"@ + s.content
                        } else {
                            Seq::<char>::empty()
                        });
                        let acc2 = if acc_pre.len() > 0 {
                            acc_pre + "\n\n"@ + piece
                        } else {
                            piece
                        };
                        assert(result@ =~= acc2);
                        assert(read_from_spec(sv, i as int, targetv, acc_pre) == read_from_spec(
                            sv,
                            i + 1,
                            targetv,
                            result@,
                        ));
                    }
                } else {
                    proof {
                        assert(!section_selected(sv[i as int], targetv));
                        assert(read_from_spec(sv, i as int, targetv, result@) == read_from_spec(
                            sv,
                            i + 1,
                            targetv,
                            result@,
                        ));
                    }
                }
                i = i + 1;
                proof {
                    assert(read_from_spec(sv, 0, targetv, Seq::<char>::empty()) == read_from_spec(
                        sv,
                        i as int,
                        targetv,
                        result@,
                    ));
                }
            }
            if result.as_str().unicode_len() == 0 {
                let mut msg = String::from_str("(section '");
                msg.append(section_path);
                msg.append("' not found)");
                msg
            } else {
                result
            }
        },
    }
}

/// One line of the section listing.
pub open spec fn listing_line(s: SectionView) -> Seq<char> {
    indent_seq(s.level - 1) + "- "@ + last_segment(s.path) + " ["@ + s.path + "]"@
}

/// `n` two-space indents.
pub open spec fn indent_seq(n: int) -> Seq<char>
    decreases n,
{
    if n <= 0 {
        Seq::<char>::empty()
    } else {
        indent_seq(n - 1) + "  "@
    }
}

fn indent_exec(n: usize) -> (r: String)
    ensures
        r@ == indent_seq(n as int),
{
    let mut r = String::new();
    let mut i: usize = 0;
    while i < n
        invariant
            i <= n,
            r@ == indent_seq(i as int),
        decreases n - i,
    {
        r.append("  ");
        i = i + 1;
    }
    r
}

/// List the sections of the memory text, one indented line per
/// section; fixed notes report a blank text and a text without
/// sections.
pub fn list_sections(text: &str) -> (r: String)
    ensures
        ({
            let sections = parse_sections_spec(text@);
            if sections.len() == 0 {
                r@ == "(no sections found)"@
            } else {
                r@ == join_seqs(
                    Seq::new(sections.len(), |j: int| listing_line(sections[j])),
                    "\n"@,
                )
            }
        }),
{
    let sections = parse_sections(text);
    let ghost sv = section_views(sections@);
    if sections.len() == 0 {
        return String::from_str("(no sections found)");
    }
    let mut parts: Vec<String> = Vec::new();
    let n = sections.len();
    let mut i: usize = 0;
    while i < n
        invariant
            i <= n,
            n == sections@.len(),
            sv == section_views(sections@),
            parts@.len() == i,
            forall|j: int| 0 <= j < i ==> (#[trigger] parts@[j]@) == listing_line(sv[j]),
        decreases n - i,
    {
        let ghost pre = parts@;
        proof {
            assert(sv[i as int] == sections@[i as int]@);
        }
        let level = sections[i].level;
        let mut line = indent_exec(if level > 0 {
            level - 1
        } else {
            0
        });
        proof {
            if level == 0 {
                assert(indent_seq(0) == indent_seq(-1));
            }
        }
        line.append("- ");
        let name = last_segment_exec(sections[i].path.as_str());
        line.append(string_of(name.as_slice()).as_str());
        line.append(" [");
        line.append(sections[i].path.as_str());
        line.append("]");
        parts.push(line);
        i = i + 1;
        proof {
            assert(forall|x: int| 0 <= x < pre.len() ==> parts@[x] == pre[x]);
        }
    }
    let joined = join_strings(&parts, "\n");
    proof {
        assert(str_views(parts@) =~= Seq::new(sv.len(), |j: int| listing_line(sv[j])));
    }
    joined
}


/// Whether some section's lower-cased path equals the target.
pub open spec fn has_path(sections: Seq<SectionView>, target: Seq<char>) -> bool {
    exists|j: int|
        0 <= j < sections.len() && crate::validate::lower_of((#[trigger] sections[j]).path)
            == target
}

/// Whether some section's lower-cased path equals the target,
/// executably.
fn has_path_exec(sections: &Vec<Section>, target: &str) -> (r: bool)
    ensures
        r == has_path(section_views(sections@), target@),
{
    let ghost sv = section_views(sections@);
    let n = sections.len();
    let mut i: usize = 0;
    while i < n
        invariant
            i <= n,
            n == sections@.len(),
            sv == section_views(sections@),
            forall|j: int|
                0 <= j < i ==> crate::validate::lower_of((#[trigger] sv[j]).path) != target@,
        decreases n - i,
    {
        proof {
            assert(sv[i as int] == sections@[i as int]@);
        }
        let lower = crate::validate::lowercase(sections[i].path.as_str());
        if crate::text::str_eq(lower.as_str(), target) {
            proof {
                assert(crate::validate::lower_of((#[trigger] sv[i as int]).path) == target@);
            }
            return true;
        }
        i = i + 1;
    }
    false
}

/// The document rebuilt around an existing target section: every
/// section is re-emitted with its heading; the target's body is
/// replaced by the new content, the others keep theirs; a final
/// newline closes the document.
pub open spec fn rebuild_existing_from(
    sections: Seq<SectionView>,
    i: int,
    target: Seq<char>,
    content: Seq<char>,
    acc: Seq<char>,
) -> Seq<char>
    decreases sections.len() - i when 0 <= i
{
    if i >= sections.len() {
        acc + "\n"@
    } else {
        let s = sections[i];
        let body = if crate::validate::lower_of(s.path) == target {
            content
        } else {
            s.content
        };
        let piece = rendered_heading(s) + (if body.len() > 0 {
            "\n"@ + body
        } else {
            Seq::<char>::empty()
        });
        let acc2 = if acc.len() > 0 {
            acc + "\n\n"@ + piece
        } else {
            piece
        };
        rebuild_existing_from(sections, i + 1, target, content, acc2)
    }
}

/// The document extended by the missing parts of a new section path:
/// one heading line per path part that does not exist yet, the content
/// under the last part, and a blank line after each intermediate part.
pub open spec fn rebuild_missing_from(
    sections: Seq<SectionView>,
    parts: Seq<Seq<char>>,
    i: int,
    content: Seq<char>,
    acc: Seq<char>,
) -> Seq<char>
    decreases parts.len() - i when 0 <= i
{
    if i >= parts.len() {
        acc
    } else {
        let partial = crate::validate::lower_of(join_seqs(parts.subrange(0, i + 1), "/"@));
        let acc2 = if has_path(sections, partial) {
            acc
        } else {
            acc + hash_seq(i + 1) + " "@ + parts[i] + "\n"@ + (if i == parts.len() - 1
                && content.len() > 0 {
                content + "\n"@
            } else {
                Seq::<char>::empty()
            }) + (if i < parts.len() - 1 {
                "\n"@
            } else {
                Seq::<char>::empty()
            })
        };
        rebuild_missing_from(sections, parts, i + 1, content, acc2)
    }
}

/// The rebuilt document for a write to the given section path.
pub open spec fn rebuild_spec(text: Seq<char>, parts: Seq<Seq<char>>, content: Seq<char>) -> Seq<
    char,
> {
    let sections = parse_sections_spec(text);
    let target = crate::validate::lower_of(join_seqs(parts, "/"@));
    if has_path(sections, target) {
        rebuild_existing_from(sections, 0, target, content, Seq::<char>::empty())
    } else {
        (if text.len() == 0 {
            Seq::<char>::empty()
        } else {
            crate::text::trim_end_spec(text) + "\n\n"@
        }) + rebuild_missing_from(sections, parts, 0, content, Seq::<char>::empty())
    }
}

/// Rebuild the memory document with `content` written under the
/// section named by `path_parts` (names from outermost in). An
/// existing section (matched by lower-cased path) has its body
/// replaced; otherwise the missing headings are appended and the
/// content placed under the innermost one.
pub fn rebuild_with_section(text: &str, path_parts: &Vec<String>, content: &str) -> (r: String)
    ensures
        r@ == rebuild_spec(text@, crate::text::str_views(path_parts@), content@),
{
    let sections = parse_sections(text);
    let ghost sv = section_views(sections@);
    let ghost pv = crate::text::str_views(path_parts@);
    let joined = join_strings(path_parts, "/");
    let target = crate::validate::lowercase(joined.as_str());
    let ghost targetv = crate::validate::lower_of(join_seqs(pv, "/"@));
    proof {
        assert(target@ == targetv);
    }
    if has_path_exec(&sections, target.as_str()) {
        let mut acc = String::new();
        let n = sections.len();
        let mut i: usize = 0;
        while i < n
            invariant
                i <= n,
                n == sections@.len(),
                sv == section_views(sections@),
                target@ == targetv,
                rebuild_existing_from(sv, 0, targetv, content@, Seq::<char>::empty())
                    == rebuild_existing_from(sv, i as int, targetv, content@, acc@),
            decreases n - i,
        {
            proof {
                assert(sv[i as int] == sections@[i as int]@);
            }
            let ghost acc_pre = acc@;
            let lower = crate::validate::lowercase(sections[i].path.as_str());
            let is_target = crate::text::str_eq(lower.as_str(), target.as_str());
            if acc.as_str().unicode_len() > 0 {
                acc.append("\n\n");
            }
            let hashes = hashes_exec(sections[i].level);
            acc.append(string_of(hashes.as_slice()).as_str());
            acc.append(" ");
            let name = last_segment_exec(sections[i].path.as_str());
            acc.append(string_of(name.as_slice()).as_str());
            let body_nonempty = if is_target {
                content.unicode_len() > 0
            } else {
                sections[i].content.as_str().unicode_len() > 0
            };
            if body_nonempty {
                acc.append("\n");
                if is_target {
                    acc.append(content);
                } else {
                    acc.append(sections[i].content.as_str());
                }
            }
            proof {
                let s = sv[i as int];
                let body = if crate::validate::lower_of(s.path) == targetv {
                    content@
                } else {
                    s.content
                };
                let piece = rendered_heading(s) + (if body.len() > 0 {
                    "\n"@ + body
                } else {
                    Seq::<char>::empty()
                });
                let acc2 = if acc_pre.len() > 0 {
                    acc_pre + "\n\n"@ + piece
                } else {
                    piece
                };
                assert(acc@ =~= acc2);
                assert(rebuild_existing_from(sv, i as int, targetv, content@, acc_pre)
                    == rebuild_existing_from(sv, i + 1, targetv, content@, acc@));
            }
            i = i + 1;
        }
        acc.append("\n");
        acc
    } else {
        let mut acc = String::new();
        if text.unicode_len() > 0 {
            let tv = chars_of(text);
            let tn = tv.len();
            let mut b: usize = tn;
            while b > 0 && crate::text::is_space(tv[b - 1])
                invariant
                    b <= tn,
                    tn == tv@.len(),
                    forall|k: int| b <= k < tn ==> crate::text::is_space_char(#[trigger] tv@[k]),
                decreases b,
            {
                b = b - 1;
            }
            proof {
                crate::text::lemma_trim_end_at(tv@, b as int);
            }
            let trimmed = crate::text::sub_chars(tv.as_slice(), 0, b);
            acc.append(string_of(trimmed.as_slice()).as_str());
            acc.append("\n\n");
        }
        let ghost base = acc@;
        let m = path_parts.len();
        let mut i: usize = 0;
        let mut partial = String::new();
        let mut tail = String::new();
        proof {
            assert(pv.subrange(0, 0) =~= Seq::<Seq<char>>::empty());
        }
        while i < m
            invariant
                i <= m,
                m == path_parts@.len(),
                sv == section_views(sections@),
                pv == crate::text::str_views(path_parts@),
                partial@ == join_seqs(pv.subrange(0, i as int), "/"@),
                rebuild_missing_from(sv, pv, 0, content@, Seq::<char>::empty())
                    == rebuild_missing_from(sv, pv, i as int, content@, tail@),
            decreases m - i,
        {
            proof {
                assert(pv[i as int] == path_parts@[i as int]@);
                assert(pv.subrange(0, i + 1) =~= pv.subrange(0, i as int).push(pv[i as int]));
                crate::text::lemma_join_push_pub(pv.subrange(0, i as int), "/"@, pv[i as int]);
            }
            if i == 0 {
                partial = path_parts[0].clone();
            } else {
                partial.append("/");
                partial.append(path_parts[i].as_str());
            }
            let pl = crate::validate::lowercase(partial.as_str());
            let ghost partialv = crate::validate::lower_of(
                join_seqs(pv.subrange(0, i + 1), "/"@),
            );
            proof {
                assert(pl@ == partialv);
            }
            let present = has_path_exec(&sections, pl.as_str());
            if !present {
                let ghost pre = tail@;
                let hashes = hashes_exec(i + 1);
                tail.append(string_of(hashes.as_slice()).as_str());
                tail.append(" ");
                tail.append(path_parts[i].as_str());
                tail.append("\n");
                if i == m - 1 && content.unicode_len() > 0 {
                    tail.append(content);
                    tail.append("\n");
                }
                if i < m - 1 {
                    tail.append("\n");
                }
                proof {
                    let acc2 = pre + hash_seq(i + 1) + " "@ + pv[i as int] + "\n"@ + (if i == m - 1
                        && content@.len() > 0 {
                        content@ + "\n"@
                    } else {
                        Seq::<char>::empty()
                    }) + (if i < m - 1 {
                        "\n"@
                    } else {
                        Seq::<char>::empty()
                    });
                    assert(tail@ =~= acc2);
                    assert(rebuild_missing_from(sv, pv, i as int, content@, pre)
                        == rebuild_missing_from(sv, pv, i + 1, content@, tail@));
                }
            } else {
                proof {
                    assert(rebuild_missing_from(sv, pv, i as int, content@, tail@)
                        == rebuild_missing_from(sv, pv, i + 1, content@, tail@));
                }
            }
            i = i + 1;
        }
        acc.append(tail.as_str());
        proof {
            assert(acc@ == base + rebuild_missing_from(sv, pv, 0, content@, Seq::<char>::empty()));
        }
        acc
    }
}

} // verus!
