//! Skills: named prompt fragments with a description and a body. The
//! body text joins the system preamble; name and description appear in
//! the injected skill summary.
//!
//! Reading skill files from disk is the caller's concern; here a skill
//! is plain data, and the frontmatter of a skill file is parsed from
//! its text.

use vstd::prelude::*;

use crate::text::{chars_of, join_seqs, str_eq, string_of};

verus! {

/// One skill: a name, a one-line description, and the prompt body.
pub struct Skill {
    pub name: String,
    pub description: String,
    pub body: String,
}

/// The mathematical value of a skill.
#[verifier::ext_equal]
pub ghost struct SkillView {
    pub name: Seq<char>,
    pub description: Seq<char>,
    pub body: Seq<char>,
}

impl View for Skill {
    type V = SkillView;

    open spec fn view(&self) -> SkillView {
        SkillView { name: self.name@, description: self.description@, body: self.body@ }
    }
}

impl Clone for Skill {
    fn clone(&self) -> (r: Self)
        ensures
            r == *self,
    {
        Skill {
            name: self.name.clone(),
            description: self.description.clone(),
            body: self.body.clone(),
        }
    }
}

/// The views of a skill sequence.
pub open spec fn skill_views(s: Seq<Skill>) -> Seq<SkillView> {
    s.map_values(|x: Skill| x@)
}

/// Equality of two skill vectors, as values.
pub fn skills_eq(a: &Vec<Skill>, b: &Vec<Skill>) -> (r: bool)
    ensures
        r == (skill_views(a@) == skill_views(b@)),
{
    if a.len() != b.len() {
        proof {
            assert(skill_views(a@).len() != skill_views(b@).len());
        }
        return false;
    }
    let n = a.len();
    let mut i: usize = 0;
    while i < n
        invariant
            i <= n,
            n == a@.len(),
            n == b@.len(),
            forall|j: int| 0 <= j < i ==> skill_views(a@)[j] == skill_views(b@)[j],
        decreases n - i,
    {
        let same = str_eq(a[i].name.as_str(), b[i].name.as_str()) && str_eq(
            a[i].description.as_str(),
            b[i].description.as_str(),
        ) && str_eq(a[i].body.as_str(), b[i].body.as_str());
        if !same {
            proof {
                assert(skill_views(a@)[i as int] =~~= skill_views(b@)[i as int] ==> (
                a@[i as int]@.name == b@[i as int]@.name && a@[i as int]@.description
                    == b@[i as int]@.description && a@[i as int]@.body == b@[i as int]@.body));
            }
            return false;
        }
        i = i + 1;
    }
    proof {
        assert(skill_views(a@) =~= skill_views(b@));
    }
    true
}

/// The base preamble as a (possibly empty) list of parts.
pub open spec fn base_part(base: Option<Seq<char>>) -> Seq<Seq<char>> {
    match base {
        Some(p) => if p.len() > 0 {
            seq![p]
        } else {
            Seq::<Seq<char>>::empty()
        },
        None => Seq::<Seq<char>>::empty(),
    }
}

/// The bodies of a skill sequence.
pub open spec fn skill_bodies(skills: Seq<SkillView>) -> Seq<Seq<char>> {
    skills.map_values(|s: SkillView| s.body)
}

/// The text of the system preamble: the base preamble (when non-empty)
/// and every skill body, joined by blank lines.
pub open spec fn preamble_parts(base: Option<Seq<char>>, skills: Seq<SkillView>) -> Seq<Seq<char>> {
    base_part(base) + skill_bodies(skills)
}

/// Build the system preamble from a base preamble and the skill bodies,
/// joined by blank lines.
pub fn build_preamble(base_preamble: Option<&str>, skills: &Vec<Skill>) -> (r: String)
    ensures
        r@ == join_seqs(
            preamble_parts(
                match base_preamble {
                    Some(p) => Some(p@),
                    None => None,
                },
                skill_views(skills@),
            ),
            "\n\n"@,
        ),
{
    let ghost base_view: Option<Seq<char>> = match base_preamble {
        Some(p) => Some(p@),
        None => None,
    };
    let mut parts: Vec<String> = Vec::new();
    match base_preamble {
        Some(p) => {
            if p.unicode_len() > 0 {
                parts.push(String::from_str(p));
            }
        },
        None => {},
    }
    let ghost base_len = base_part(base_view).len() as int;
    proof {
        assert(forall|j: int|
            0 <= j < parts@.len() ==> (#[trigger] parts@[j]@) == base_part(base_view)[j]);
    }
    let n = skills.len();
    let mut i: usize = 0;
    while i < n
        invariant
            i <= n,
            n == skills@.len(),
            base_len == base_part(base_view).len(),
            parts@.len() == base_len + i,
            forall|j: int| 0 <= j < base_len ==> (#[trigger] parts@[j]@) == base_part(base_view)[j],
            forall|j: int|
                base_len <= j < parts@.len() ==> (#[trigger] parts@[j]@) == skills@[j - base_len]@.body,
        decreases n - i,
    {
        let ghost pre_parts = parts@;
        let b = skills[i].body.clone();
        let ghost bv = b@;
        parts.push(b);
        i = i + 1;
        proof {
            assert(forall|j: int| 0 <= j < pre_parts.len() ==> parts@[j] == pre_parts[j]);
            assert(parts@[parts@.len() - 1]@ == bv);
        }
    }
    proof {
        assert(crate::text::str_views(parts@) =~= preamble_parts(base_view, skill_views(skills@)));
    }
    crate::text::join_strings(&parts, "\n\n")
}


/// The first index where `p` occurs in `s`, or -1.
pub open spec fn find_sub(s: Seq<char>, p: Seq<char>) -> int
    decreases s.len(),
{
    if p.len() > s.len() {
        -1
    } else if s.subrange(0, p.len() as int) == p {
        0
    } else if s.len() == p.len() {
        -1
    } else {
        let r = find_sub(s.drop_first(), p);
        if r < 0 {
            -1
        } else {
            r + 1
        }
    }
}

proof fn lemma_find_sub_at(s: Seq<char>, p: Seq<char>, i: int)
    requires
        0 <= i,
        i + p.len() <= s.len(),
        s.subrange(i, i + p.len() as int) == p,
        forall|k: int| 0 <= k < i ==> (#[trigger] s.subrange(k, k + p.len() as int)) != p,
    ensures
        find_sub(s, p) == i,
    decreases s.len(),
{
    if i == 0 {
        assert(s.subrange(0, p.len() as int) == p);
    } else {
        let z: int = 0;
        assert(s.subrange(z, z + p.len() as int) != p);
        assert(s.subrange(0, p.len() as int) == s.subrange(z, z + p.len() as int));
        assert(s.len() > p.len());
        let d = s.drop_first();
        assert(d.subrange(i - 1, i - 1 + p.len() as int) =~= s.subrange(i, i + p.len() as int));
        assert forall|k: int| 0 <= k < i - 1 implies (#[trigger] d.subrange(k, k + p.len() as int))
            != p by {
            assert(d.subrange(k, k + p.len() as int) =~= s.subrange(k + 1, k + 1 + p.len() as int));
        }
        lemma_find_sub_at(d, p, i - 1);
    }
}

proof fn lemma_find_sub_none(s: Seq<char>, p: Seq<char>)
    requires
        forall|k: int|
            0 <= k && k + p.len() <= s.len() ==> (#[trigger] s.subrange(k, k + p.len() as int))
                != p,
    ensures
        find_sub(s, p) == -1,
    decreases s.len(),
{
    if p.len() <= s.len() {
        let z: int = 0;
        assert(s.subrange(z, z + p.len() as int) != p);
        assert(s.subrange(0, p.len() as int) == s.subrange(z, z + p.len() as int));
        if s.len() > p.len() {
            let d = s.drop_first();
            assert forall|k: int| 0 <= k && k + p.len() <= d.len() implies (#[trigger] d.subrange(
                k,
                k + p.len() as int,
            )) != p by {
                assert(d.subrange(k, k + p.len() as int) =~= s.subrange(
                    k + 1,
                    k + 1 + p.len() as int,
                ));
            }
            lemma_find_sub_none(d, p);
        }
    }
}

/// The first occurrence of `p` in `v`, if any.
fn find_sub_exec(v: &[char], p: &[char]) -> (r: Option<usize>)
    ensures
        match r {
            Some(i) => i + p@.len() <= v@.len() && find_sub(v@, p@) == i as int,
            None => find_sub(v@, p@) == -1,
        },
{
    let n = v.len();
    let m = p.len();
    if m > n {
        proof {
            lemma_find_sub_none(v@, p@);
        }
        return None;
    }
    if m == 0 {
        proof {
            assert(v@.subrange(0, 0int) =~= p@);
        }
        return Some(0);
    }
    let mut i: usize = 0;
    while i <= n - m
        invariant
            0 < m <= n,
            i <= n - m + 1,
            n == v@.len(),
            m == p@.len(),
            forall|k: int|
                0 <= k < i ==> (#[trigger] v@.subrange(k, k + p@.len() as int)) != p@,
        decreases n - i,
    {
        let mut j: usize = 0;
        let mut matched = true;
        while j < m
            invariant
                j <= m,
                i + m <= n,
                n == v@.len(),
                m == p@.len(),
                matched ==> forall|k: int| 0 <= k < j ==> v@[i + k] == p@[k],
                !matched ==> v@.subrange(i as int, i + p@.len() as int) != p@,
            decreases m - j,
        {
            if v[i + j] != p[j] {
                proof {
                    assert(v@.subrange(i as int, i + p@.len() as int) == p@ ==> v@.subrange(
                        i as int,
                        i + p@.len() as int,
                    )[j as int] == p@[j as int]);
                }
                matched = false;
                j = m;
            } else {
                j = j + 1;
            }
        }
        if matched {
            proof {
                assert(v@.subrange(i as int, i + p@.len() as int) =~= p@);
                lemma_find_sub_at(v@, p@, i as int);
            }
            return Some(i);
        }
        i = i + 1;
    }
    proof {
        lemma_find_sub_none(v@, p@);
    }
    None
}

/// `s` with every leading `c` removed.
pub open spec fn strip_lead_char(s: Seq<char>, c: char) -> Seq<char>
    decreases s.len(),
{
    if s.len() > 0 && s.first() == c {
        strip_lead_char(s.drop_first(), c)
    } else {
        s
    }
}

/// `s` with every trailing `c` removed.
pub open spec fn strip_trail_char(s: Seq<char>, c: char) -> Seq<char>
    decreases s.len(),
{
    if s.len() > 0 && s.last() == c {
        strip_trail_char(s.drop_last(), c)
    } else {
        s
    }
}

/// `s` with every leading and trailing `c` removed.
pub open spec fn strip_char(s: Seq<char>, c: char) -> Seq<char> {
    strip_trail_char(strip_lead_char(s, c), c)
}

proof fn lemma_strip_lead_at(s: Seq<char>, c: char, a: int)
    requires
        0 <= a <= s.len(),
        forall|k: int| 0 <= k < a ==> s[k] == c,
        a < s.len() ==> s[a] != c,
    ensures
        strip_lead_char(s, c) == s.subrange(a, s.len() as int),
    decreases a,
{
    if a == 0 {
        assert(strip_lead_char(s, c) =~= s.subrange(0, s.len() as int));
    } else {
        let d = s.drop_first();
        assert(forall|k: int| 0 <= k < a - 1 ==> (#[trigger] d[k]) == c);
        assert(a - 1 < d.len() ==> d[a - 1] != c);
        lemma_strip_lead_at(d, c, a - 1);
        assert(d.subrange(a - 1, d.len() as int) =~= s.subrange(a, s.len() as int));
    }
}

proof fn lemma_strip_trail_at(s: Seq<char>, c: char, b: int)
    requires
        0 <= b <= s.len(),
        forall|k: int| b <= k < s.len() ==> s[k] == c,
        b > 0 ==> s[b - 1] != c,
    ensures
        strip_trail_char(s, c) == s.subrange(0, b),
    decreases s.len() - b,
{
    if b == s.len() {
        assert(strip_trail_char(s, c) =~= s.subrange(0, b));
    } else {
        let d = s.drop_last();
        assert(forall|k: int| b <= k < d.len() ==> (#[trigger] d[k]) == c);
        lemma_strip_trail_at(d, c, b);
        assert(d.subrange(0, b) =~= s.subrange(0, b));
    }
}

/// The characters of `v` with leading and trailing `c` removed.
fn strip_char_exec(v: &[char], c: char) -> (r: Vec<char>)
    ensures
        r@ == strip_char(v@, c),
{
    let n = v.len();
    let mut a: usize = 0;
    while a < n && v[a] == c
        invariant
            a <= n,
            n == v@.len(),
            forall|k: int| 0 <= k < a ==> (#[trigger] v@[k]) == c,
        decreases n - a,
    {
        a = a + 1;
    }
    let mut b: usize = n;
    while b > a && v[b - 1] == c
        invariant
            a <= b <= n,
            n == v@.len(),
            forall|k: int| b <= k < n ==> (#[trigger] v@[k]) == c,
        decreases b,
    {
        b = b - 1;
    }
    let r = crate::text::sub_chars(v, a, b);
    proof {
        lemma_strip_lead_at(v@, c, a as int);
        let t1 = v@.subrange(a as int, n as int);
        if b == a {
            assert(forall|k: int| 0 <= k < t1.len() ==> (#[trigger] t1[k]) == c);
            lemma_strip_trail_at(t1, c, 0);
            assert(r@ =~= t1.subrange(0, 0));
        } else {
            assert(forall|k: int| b - a <= k < t1.len() ==> (#[trigger] t1[k]) == c);
            assert(t1[b - a - 1] != c);
            lemma_strip_trail_at(t1, c, b - a);
            assert(r@ =~= t1.subrange(0, b - a));
        }
    }
    r
}

/// The description named by the frontmatter lines: the first line of
/// the form `description: ...`, its value trimmed and stripped of
/// surrounding quotes; the fallback when no line names one.
pub open spec fn frontmatter_desc(lines: Seq<Seq<char>>, i: int, fallback: Seq<char>) -> Seq<char>
    decreases lines.len() - i when 0 <= i
{
    if i >= lines.len() {
        fallback
    } else {
        let l = crate::text::trim_spec(lines[i]);
        if crate::text::starts_with_spec(l, "description:"@) {
            strip_char(
                strip_char(crate::text::trim_spec(l.subrange(12, l.len() as int)), '"'),
                '\'',
            )
        } else {
            frontmatter_desc(lines, i + 1, fallback)
        }
    }
}

/// The parse of a skill file: a frontmatter block delimited by `---`
/// yields the description and the body after it; without one, the
/// fallback name describes the whole content.
pub open spec fn frontmatter_spec(content: Seq<char>, fallback: Seq<char>) -> (Seq<char>, Seq<char>) {
    let t = crate::text::trim_start_spec(content);
    if !crate::text::starts_with_spec(t, "---"@) {
        (fallback, content)
    } else {
        let after = t.subrange(3, t.len() as int);
        let e = find_sub(after, "---"@);
        if e < 0 {
            (fallback, content)
        } else {
            let fm = after.subrange(0, e);
            let body = crate::text::trim_start_spec(after.subrange(e + 3, after.len() as int));
            (frontmatter_desc(crate::text::split_lines_spec(fm), 0, fallback), body)
        }
    }
}

/// Parse the frontmatter of a skill file into its description and
/// body.
pub fn parse_frontmatter(content: &str, fallback_name: &str) -> (r: (String, String))
    ensures
        (r.0@, r.1@) == frontmatter_spec(content@, fallback_name@),
{
    let v = chars_of(content);
    let n = v.len();
    let mut a: usize = 0;
    while a < n && crate::text::is_space(v[a])
        invariant
            a <= n,
            n == v@.len(),
            forall|k: int| 0 <= k < a ==> crate::text::is_space_char(#[trigger] v@[k]),
        decreases n - a,
    {
        a = a + 1;
    }
    proof {
        crate::text::lemma_trim_start_at(v@, a as int);
    }
    let t = crate::text::sub_chars(v.as_slice(), a, n);
    let dashes = chars_of("---");
    proof {
        reveal_strlit("---");
    }
    if !crate::text::starts_with_chars(t.as_slice(), dashes.as_slice()) {
        return (String::from_str(fallback_name), String::from_str(content));
    }
    let after = crate::text::sub_chars(t.as_slice(), 3, t.len());
    let e = match find_sub_exec(after.as_slice(), dashes.as_slice()) {
        Some(e) => e,
        None => {
            return (String::from_str(fallback_name), String::from_str(content));
        },
    };
    let ghost fallback_view = fallback_name@;
    let fm = crate::text::sub_chars(after.as_slice(), 0, e);
    let body_raw = crate::text::sub_chars(after.as_slice(), e + 3, after.len());
    let body = {
        let m = body_raw.len();
        let mut c0: usize = 0;
        while c0 < m && crate::text::is_space(body_raw[c0])
            invariant
                c0 <= m,
                m == body_raw@.len(),
                forall|k: int| 0 <= k < c0 ==> crate::text::is_space_char(#[trigger] body_raw@[k]),
            decreases m - c0,
        {
            c0 = c0 + 1;
        }
        proof {
            crate::text::lemma_trim_start_at(body_raw@, c0 as int);
        }
        crate::text::sub_chars(body_raw.as_slice(), c0, m)
    };
    let fm_text = string_of(fm.as_slice());
    let lines = crate::text::split_lines(fm_text.as_str());
    let ghost lv = crate::text::split_lines_spec(fm@);
    let nl = lines.len();
    let mut i: usize = 0;
    proof {
        assert(t@ == crate::text::trim_start_spec(content@));
        assert(after@ =~= t@.subrange(3, t@.len() as int));
        assert(fm@ =~= after@.subrange(0, e as int));
        assert(body_raw@ =~= after@.subrange(e + 3, after@.len() as int));
        assert(frontmatter_spec(content@, fallback_view) == (
            frontmatter_desc(lv, 0, fallback_view),
            body@,
        ));
    }
    while i < nl
        invariant
            i <= nl,
            nl == lines@.len(),
            lv == crate::text::str_views(lines@),
            fallback_view == fallback_name@,
            frontmatter_spec(content@, fallback_view) == (
                frontmatter_desc(lv, 0, fallback_view),
                body@,
            ),
            frontmatter_desc(lv, 0, fallback_view) == frontmatter_desc(lv, i as int, fallback_view),
        decreases nl - i,
    {
        proof {
            assert(lv[i as int] == lines@[i as int]@);
        }
        let lt = crate::text::trim_str(lines[i].as_str());
        let ltc = chars_of(lt.as_str());
        let prefix = chars_of("description:");
        proof {
            reveal_strlit("description:");
        }
        if crate::text::starts_with_chars(ltc.as_slice(), prefix.as_slice()) {
            let value_raw = crate::text::sub_chars(ltc.as_slice(), 12, ltc.len());
            let value_trimmed = crate::text::trim_slice(value_raw.as_slice());
            let unquoted = strip_char_exec(value_trimmed.as_slice(), '"');
            let unquoted2 = strip_char_exec(unquoted.as_slice(), '\'');
            proof {
                let l = crate::text::trim_spec(lv[i as int]);
                assert(ltc@ == l);
                assert(value_raw@ =~= l.subrange(12, l.len() as int));
                assert(frontmatter_desc(lv, i as int, fallback_view) == unquoted2@);
            }
            return (string_of(unquoted2.as_slice()), string_of(body.as_slice()));
        }
        i = i + 1;
    }
    (String::from_str(fallback_name), string_of(body.as_slice()))
}


/// One line of the skill listing.
pub open spec fn skill_list_line(s: SkillView) -> Seq<char> {
    "\u{2022} "@ + s.name + " \u{2014} "@ + s.description
}

/// The `/skills` listing: one bullet line per loaded skill, or a fixed
/// message when none are loaded.
pub fn format_skills(skills: &Vec<Skill>) -> (r: String)
    ensures
        skills@.len() == 0 ==> r@ == "No skills loaded."@,
        skills@.len() > 0 ==> r@ == join_seqs(
            seq!["Loaded skills:"@] + Seq::new(
                skills@.len(),
                |j: int| skill_list_line(skills@[j]@),
            ),
            "\n"@,
        ),
{
    if skills.len() == 0 {
        return String::from_str("No skills loaded.");
    }
    let mut parts: Vec<String> = Vec::new();
    parts.push(String::from_str("Loaded skills:"));
    let n = skills.len();
    let mut i: usize = 0;
    while i < n
        invariant
            i <= n,
            n == skills@.len(),
            parts@.len() == 1 + i,
            parts@[0]@ == "Loaded skills:"@,
            forall|j: int|
                0 <= j < i ==> (#[trigger] parts@[1 + j]@) == skill_list_line(skills@[j]@),
        decreases n - i,
    {
        let ghost pre = parts@;
        let mut line = String::from_str("\u{2022} ");
        line.append(skills[i].name.as_str());
        line.append(" \u{2014} ");
        line.append(skills[i].description.as_str());
        parts.push(line);
        i = i + 1;
        proof {
            assert(forall|x: int| 0 <= x < pre.len() ==> parts@[x] == pre[x]);
        }
    }
    let joined = crate::text::join_strings(&parts, "\n");
    proof {
        let rhs = seq!["Loaded skills:"@] + Seq::new(
            skills@.len(),
            |j: int| skill_list_line(skills@[j]@),
        );
        assert forall|x: int| 0 <= x < parts@.len() implies #[trigger] crate::text::str_views(
            parts@,
        )[x] == rhs[x] by {
            if x > 0 {
                assert(parts@[1 + (x - 1)]@ == skill_list_line(skills@[x - 1]@));
            }
        }
        assert(crate::text::str_views(parts@) =~= rhs);
    }
    joined
}

} // verus!
