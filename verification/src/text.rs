//! Small executable helpers for working with strings as character
//! sequences, shared by the parsing and formatting modules.

use vstd::prelude::*;

verus! {

/// Equality of two string slices, specified over their character views.
pub fn str_eq(a: &str, b: &str) -> (r: bool)
    ensures
        r == (a@ == b@),
{
    let sa = String::from_str(a);
    let sb = String::from_str(b);
    sa.eq(&sb)
}

/// Relies on `String::push`: appends exactly the one character.
#[verifier::external_body]
pub fn push_char(s: &mut String, c: char)
    ensures
        final(s)@ == old(s)@.push(c),
{
    s.push(c);
}

/// The characters of a string slice as a vector.
pub fn chars_of(s: &str) -> (v: Vec<char>)
    ensures
        v@ == s@,
{
    let n = s.unicode_len();
    let mut v: Vec<char> = Vec::new();
    let mut i: usize = 0;
    while i < n
        invariant
            i <= n,
            n == s@.len(),
            v@ == s@.subrange(0, i as int),
        decreases n - i,
    {
        v.push(s.get_char(i));
        i = i + 1;
        proof {
            assert(v@ =~= s@.subrange(0, i as int));
        }
    }
    proof {
        assert(v@ =~= s@);
    }
    v
}

/// The views of a sequence of strings.
pub open spec fn str_views(s: Seq<String>) -> Seq<Seq<char>> {
    s.map_values(|x: String| x@)
}

/// The parts joined with `sep` between consecutive parts.
pub open spec fn join_seqs(parts: Seq<Seq<char>>, sep: Seq<char>) -> Seq<char>
    decreases parts.len(),
{
    if parts.len() == 0 {
        Seq::<char>::empty()
    } else if parts.len() == 1 {
        parts[0]
    } else {
        join_seqs(parts.drop_last(), sep) + sep + parts.last()
    }
}

/// `p` occurs in `s` starting at index `i`.
pub open spec fn is_sub_at(s: Seq<char>, p: Seq<char>, i: int) -> bool {
    0 <= i && i + p.len() <= s.len() && p == s.subrange(i, i + p.len())
}

/// `p` occurs somewhere in `s`.
pub open spec fn has_sub(s: Seq<char>, p: Seq<char>) -> bool {
    exists|i: int| is_sub_at(s, p, i)
}

/// A substring stays a substring when text is appended on either side.
pub proof fn lemma_has_sub_extend(s: Seq<char>, t: Seq<char>, p: Seq<char>)
    requires
        has_sub(s, p) || has_sub(t, p),
    ensures
        has_sub(s + t, p),
{
    if has_sub(s, p) {
        let i = choose|i: int| is_sub_at(s, p, i);
        assert(p =~= (s + t).subrange(i, i + p.len() as int));
        assert(is_sub_at(s + t, p, i));
    } else {
        let i = choose|i: int| is_sub_at(t, p, i);
        assert(p =~= (s + t).subrange(s.len() + i, s.len() + i + p.len() as int));
        assert(is_sub_at(s + t, p, s.len() + i));
    }
}

/// Every part occurs in the joined text.
pub proof fn lemma_join_contains(parts: Seq<Seq<char>>, sep: Seq<char>, k: int)
    requires
        0 <= k < parts.len(),
    ensures
        has_sub(join_seqs(parts, sep), parts[k]),
    decreases parts.len(),
{
    if parts.len() == 1 {
        assert(parts[k] =~= join_seqs(parts, sep).subrange(0, parts[k].len() as int));
        assert(is_sub_at(join_seqs(parts, sep), parts[k], 0));
    } else {
        let head = join_seqs(parts.drop_last(), sep);
        if k < parts.len() - 1 {
            lemma_join_contains(parts.drop_last(), sep, k);
            lemma_has_sub_extend(head, sep + parts.last(), parts[k]);
            assert(head + (sep + parts.last()) =~= join_seqs(parts, sep));
        } else {
            let whole = join_seqs(parts, sep);
            let start = head.len() + sep.len();
            assert(parts[k] =~= whole.subrange(start as int, start + parts[k].len() as int));
            assert(is_sub_at(whole, parts[k], start as int));
        }
    }
}

pub proof fn lemma_join_push_pub(parts: Seq<Seq<char>>, sep: Seq<char>, x: Seq<char>)
    ensures
        join_seqs(parts.push(x), sep) == if parts.len() == 0 {
            x
        } else {
            join_seqs(parts, sep) + sep + x
        },
{
    let p2 = parts.push(x);
    assert(p2.last() == x);
    if parts.len() == 0 {
        assert(p2.len() == 1);
        assert(p2[0] == x);
    } else {
        assert(p2.drop_last() =~= parts);
    }
}

/// Join the parts with `sep` between consecutive parts.
pub fn join_strings(parts: &Vec<String>, sep: &str) -> (r: String)
    ensures
        r@ == join_seqs(str_views(parts@), sep@),
{
    let n = parts.len();
    let mut acc = String::new();
    let mut i: usize = 0;
    proof {
        assert(str_views(parts@).subrange(0, 0) =~= Seq::<Seq<char>>::empty());
    }
    while i < n
        invariant
            i <= n,
            n == parts@.len(),
            acc@ == join_seqs(str_views(parts@).subrange(0, i as int), sep@),
        decreases n - i,
    {
        proof {
            let vs = str_views(parts@);
            assert(vs.subrange(0, i + 1) =~= vs.subrange(0, i as int).push(vs[i as int]));
            lemma_join_push_pub(vs.subrange(0, i as int), sep@, vs[i as int]);
            assert(vs[i as int] == parts@[i as int]@);
        }
        if i > 0 {
            acc.append(sep);
        }
        acc.append(parts[i].as_str());
        i = i + 1;
    }
    proof {
        assert(str_views(parts@).subrange(0, n as int) =~= str_views(parts@));
    }
    acc
}

/// Equality of two string vectors, as character sequences.
pub fn vec_str_eq(a: &Vec<String>, b: &Vec<String>) -> (r: bool)
    ensures
        r == (str_views(a@) == str_views(b@)),
{
    if a.len() != b.len() {
        proof {
            assert(str_views(a@).len() != str_views(b@).len());
        }
        return false;
    }
    let n = a.len();
    let mut i: usize = 0;
    while i < n
        invariant
            i <= n,
            n == a@.len(),
            n == b@.len(),
            forall|j: int| 0 <= j < i ==> str_views(a@)[j] == str_views(b@)[j],
        decreases n - i,
    {
        if !str_eq(a[i].as_str(), b[i].as_str()) {
            proof {
                assert(str_views(a@)[i as int] != str_views(b@)[i as int]);
            }
            return false;
        }
        i = i + 1;
    }
    proof {
        assert(str_views(a@) =~= str_views(b@));
    }
    true
}

/// A string built from a slice of characters.
pub fn string_of(v: &[char]) -> (s: String)
    ensures
        s@ == v@,
{
    let mut s = String::new();
    let n = v.len();
    let mut i: usize = 0;
    while i < n
        invariant
            i <= n,
            n == v@.len(),
            s@ == v@.subrange(0, i as int),
        decreases n - i,
    {
        push_char(&mut s, v[i]);
        i = i + 1;
        proof {
            assert(s@ =~= v@.subrange(0, i as int));
        }
    }
    proof {
        assert(s@ =~= v@);
    }
    s
}


/// The Unicode white-space characters, as `char::is_whitespace` sees
/// them.
pub open spec fn is_space_char(c: char) -> bool {
    ||| c == ' '
    ||| c == '\t'
    ||| c == '\n'
    ||| c as u32 == 0x0B
    ||| c as u32 == 0x0C
    ||| c == '\r'
    ||| c as u32 == 0x85
    ||| c as u32 == 0xA0
    ||| c as u32 == 0x1680
    ||| (0x2000 <= c as u32 && c as u32 <= 0x200A)
    ||| c as u32 == 0x2028
    ||| c as u32 == 0x2029
    ||| c as u32 == 0x202F
    ||| c as u32 == 0x205F
    ||| c as u32 == 0x3000
}

/// Whether a character is white space.
pub fn is_space(c: char) -> (r: bool)
    ensures
        r == is_space_char(c),
{
    let u = c as u32;
    u == 0x20 || u == 0x09 || u == 0x0A || u == 0x0B || u == 0x0C || u == 0x0D || u == 0x85 || u
        == 0xA0 || u == 0x1680 || (0x2000 <= u && u <= 0x200A) || u == 0x2028 || u == 0x2029 || u
        == 0x202F || u == 0x205F || u == 0x3000
}

/// `s` without leading white space.
pub open spec fn trim_start_spec(s: Seq<char>) -> Seq<char>
    decreases s.len(),
{
    if s.len() == 0 {
        s
    } else if is_space_char(s.first()) {
        trim_start_spec(s.drop_first())
    } else {
        s
    }
}

/// `s` without trailing white space.
pub open spec fn trim_end_spec(s: Seq<char>) -> Seq<char>
    decreases s.len(),
{
    if s.len() == 0 {
        s
    } else if is_space_char(s.last()) {
        trim_end_spec(s.drop_last())
    } else {
        s
    }
}

/// `s` without leading and trailing white space.
pub open spec fn trim_spec(s: Seq<char>) -> Seq<char> {
    trim_end_spec(trim_start_spec(s))
}

pub proof fn lemma_trim_start_at(s: Seq<char>, a: int)
    requires
        0 <= a <= s.len(),
        forall|k: int| 0 <= k < a ==> is_space_char(#[trigger] s[k]),
        a < s.len() ==> !is_space_char(s[a]),
    ensures
        trim_start_spec(s) == s.subrange(a, s.len() as int),
    decreases a,
{
    if a == 0 {
        if s.len() == 0 {
            assert(trim_start_spec(s) =~= s.subrange(0, s.len() as int));
        } else {
            assert(!is_space_char(s.first()));
            assert(trim_start_spec(s) =~= s.subrange(0, s.len() as int));
        }
    } else {
        assert(is_space_char(s.first()));
        let d = s.drop_first();
        assert(forall|k: int| 0 <= k < a - 1 ==> is_space_char(#[trigger] d[k]));
        assert(a - 1 < d.len() ==> !is_space_char(d[a - 1]));
        lemma_trim_start_at(d, a - 1);
        assert(d.subrange(a - 1, d.len() as int) =~= s.subrange(a, s.len() as int));
    }
}

pub proof fn lemma_trim_end_at(s: Seq<char>, b: int)
    requires
        0 <= b <= s.len(),
        forall|k: int| b <= k < s.len() ==> is_space_char(#[trigger] s[k]),
        b > 0 ==> !is_space_char(s[b - 1]),
    ensures
        trim_end_spec(s) == s.subrange(0, b),
    decreases s.len() - b,
{
    if b == s.len() {
        if b == 0 {
            assert(trim_end_spec(s) =~= s.subrange(0, b));
        } else {
            assert(!is_space_char(s.last()));
            assert(trim_end_spec(s) =~= s.subrange(0, b));
        }
    } else {
        assert(is_space_char(s.last()));
        let d = s.drop_last();
        assert(forall|k: int| b <= k < d.len() ==> is_space_char(#[trigger] d[k]));
        assert(b > 0 ==> !is_space_char(d[b - 1]));
        lemma_trim_end_at(d, b);
        assert(d.subrange(0, b) =~= s.subrange(0, b));
    }
}

/// The characters of `v` with leading and trailing white space removed.
pub fn trim_slice(v: &[char]) -> (r: Vec<char>)
    ensures
        r@ == trim_spec(v@),
{
    let n = v.len();
    let mut a: usize = 0;
    while a < n && is_space(v[a])
        invariant
            a <= n,
            n == v@.len(),
            forall|k: int| 0 <= k < a ==> is_space_char(#[trigger] v@[k]),
        decreases n - a,
    {
        a = a + 1;
    }
    let mut b: usize = n;
    while b > a && is_space(v[b - 1])
        invariant
            a <= b <= n,
            n == v@.len(),
            forall|k: int| b <= k < n ==> is_space_char(#[trigger] v@[k]),
        decreases b,
    {
        b = b - 1;
    }
    let mut r: Vec<char> = Vec::new();
    let mut i: usize = a;
    while i < b
        invariant
            a <= i <= b <= n,
            n == v@.len(),
            r@ == v@.subrange(a as int, i as int),
        decreases b - i,
    {
        r.push(v[i]);
        i = i + 1;
        proof {
            assert(r@ =~= v@.subrange(a as int, i as int));
        }
    }
    proof {
        lemma_trim_start_at(v@, a as int);
        let t1 = v@.subrange(a as int, n as int);
        if b == a {
            assert(forall|k: int| 0 <= k < t1.len() ==> is_space_char(#[trigger] t1[k]));
            lemma_trim_end_at(t1, 0);
            assert(r@ =~= t1.subrange(0, 0));
        } else {
            assert(forall|k: int| b - a <= k < t1.len() ==> is_space_char(#[trigger] t1[k]));
            assert(!is_space_char(t1[b - a - 1]));
            lemma_trim_end_at(t1, b - a);
            assert(r@ =~= t1.subrange(0, b - a));
        }
    }
    r
}

/// `s` with leading and trailing white space removed.
pub fn trim_str(s: &str) -> (r: String)
    ensures
        r@ == trim_spec(s@),
{
    let v = chars_of(s);
    let trimmed = trim_slice(v.as_slice());
    string_of(trimmed.as_slice())
}

/// Whether every character of `s` is white space (so that trimming
/// leaves nothing).
pub fn all_space(s: &str) -> (r: bool)
    ensures
        r == (trim_spec(s@).len() == 0),
{
    let v = chars_of(s);
    let t = trim_slice(v.as_slice());
    t.len() == 0
}

/// `p` occurs at the start of `s`.
pub open spec fn starts_with_spec(s: Seq<char>, p: Seq<char>) -> bool {
    p.len() <= s.len() && p == s.subrange(0, p.len() as int)
}

/// Whether `s` starts with `p`.
pub fn starts_with_chars(s: &[char], p: &[char]) -> (r: bool)
    ensures
        r == starts_with_spec(s@, p@),
{
    let m = p.len();
    if m > s.len() {
        return false;
    }
    let mut i: usize = 0;
    while i < m
        invariant
            i <= m,
            m == p@.len(),
            m <= s@.len(),
            forall|k: int| 0 <= k < i ==> s@[k] == p@[k],
        decreases m - i,
    {
        if s[i] != p[i] {
            proof {
                assert(s@[i as int] != p@[i as int]);
                assert(p@ == s@.subrange(0, m as int) ==> p@[i as int] == s@[i as int]);
            }
            return false;
        }
        i = i + 1;
    }
    proof {
        assert(p@ =~= s@.subrange(0, m as int));
    }
    true
}

/// Whether `p` occurs anywhere in `s`.
pub fn contains_chars(s: &[char], p: &[char]) -> (r: bool)
    ensures
        r == has_sub(s@, p@),
{
    let n = s.len();
    let m = p.len();
    if m > n {
        proof {
            assert(forall|i: int| is_sub_at(s@, p@, i) ==> i + p@.len() <= s@.len());
        }
        return false;
    }
    if m == 0 {
        proof {
            assert(p@ =~= s@.subrange(0, 0));
            assert(is_sub_at(s@, p@, 0));
        }
        return true;
    }
    let mut i: usize = 0;
    while i <= n - m
        invariant
            i <= n - m + 1,
            0 < m <= n,
            n == s@.len(),
            m == p@.len(),
            forall|k: int| 0 <= k < i ==> !is_sub_at(s@, p@, k),
        decreases n - i,
    {
        let mut j: usize = 0;
        let mut matched = true;
        while j < m
            invariant
                j <= m,
                i + m <= n,
                n == s@.len(),
                m == p@.len(),
                matched ==> forall|k: int| 0 <= k < j ==> s@[i + k] == p@[k],
                !matched ==> !is_sub_at(s@, p@, i as int),
            decreases m - j,
        {
            if s[i + j] != p[j] {
                proof {
                    assert(p@ == s@.subrange(i as int, i + p@.len()) ==> p@[j as int] == s@[
                        i + j
                    ]);
                }
                matched = false;
                j = m;
            } else {
                j = j + 1;
            }
        }
        if matched {
            proof {
                assert(p@ =~= s@.subrange(i as int, i + p@.len()));
                assert(is_sub_at(s@, p@, i as int));
            }
            return true;
        }
        i = i + 1;
    }
    proof {
        assert(forall|k: int| is_sub_at(s@, p@, k) ==> 0 <= k <= n - m);
    }
    false
}

/// Whether `pat` occurs anywhere in `s`.
pub fn contains_sub(s: &str, pat: &str) -> (r: bool)
    ensures
        r == has_sub(s@, pat@),
{
    let sv = chars_of(s);
    let pv = chars_of(pat);
    contains_chars(sv.as_slice(), pv.as_slice())
}

/// The ASCII-lowercase image of one character.
pub open spec fn ascii_lower_char(c: char) -> char {
    if 'A' <= c && c <= 'Z' {
        ((c as u8) + 32) as char
    } else {
        c
    }
}

/// The ASCII-lowercase image of a text.
pub open spec fn ascii_lower(s: Seq<char>) -> Seq<char> {
    s.map_values(|c: char| ascii_lower_char(c))
}

/// Lower-case the ASCII letters of `s`.
pub fn to_ascii_lower(s: &str) -> (r: String)
    ensures
        r@ == ascii_lower(s@),
{
    let v = chars_of(s);
    let n = v.len();
    let mut out: Vec<char> = Vec::new();
    let mut i: usize = 0;
    while i < n
        invariant
            i <= n,
            n == v@.len(),
            v@ == s@,
            out@.len() == i,
            forall|k: int| 0 <= k < i ==> (#[trigger] out@[k]) == ascii_lower_char(s@[k]),
        decreases n - i,
    {
        let c = v[i];
        let u = c as u32;
        if 0x41 <= u && u <= 0x5A {
            out.push(((u + 32) as u8) as char);
        } else {
            out.push(c);
        }
        i = i + 1;
    }
    proof {
        assert(out@ =~= ascii_lower(s@));
    }
    string_of(out.as_slice())
}

/// The decimal digits of `n`.
pub open spec fn dec_str(n: int) -> Seq<char>
    decreases n,
{
    if n < 10 {
        seq![((48 + (if n < 0 { 0int } else { n }) % 10) as u8) as char]
    } else {
        dec_str(n / 10).push(((48 + n % 10) as u8) as char)
    }
}

/// `n` in decimal.
pub fn u64_to_string(n: u64) -> (r: String)
    ensures
        r@ == dec_str(n as int),
    decreases n,
{
    if n < 10 {
        let mut s = String::new();
        push_char(&mut s, ((48 + n) as u8) as char);
        proof {
            assert(s@ =~= dec_str(n as int));
        }
        s
    } else {
        let mut s = u64_to_string(n / 10);
        push_char(&mut s, ((48 + (n % 10)) as u8) as char);
        s
    }
}

/// `usize` in decimal.
pub fn usize_to_string(n: usize) -> (r: String)
    ensures
        r@ == dec_str(n as int),
{
    u64_to_string(n as u64)
}

/// The lines of a text, in the manner of `str::lines`: pieces between
/// newline characters, a final empty piece dropped, and a trailing
/// carriage return removed from each piece.
pub open spec fn split_lines_spec(s: Seq<char>) -> Seq<Seq<char>>
    decreases s.len(),
    via split_lines_spec_dec
{
    if s.len() == 0 {
        Seq::<Seq<char>>::empty()
    } else {
        let nl = first_newline(s);
        if nl < 0 {
            seq![strip_cr(s)]
        } else {
            seq![strip_cr(s.subrange(0, nl))] + split_lines_spec(
                s.subrange(nl + 1, s.len() as int),
            )
        }
    }
}

#[via_fn]
proof fn split_lines_spec_dec(s: Seq<char>) {
    if s.len() > 0 {
        lemma_first_newline_bounds(s);
    }
}

/// The index of the first newline in `s`, or -1.
pub open spec fn first_newline(s: Seq<char>) -> int
    decreases s.len(),
{
    if s.len() == 0 {
        -1
    } else if s.first() == '\n' {
        0
    } else {
        let r = first_newline(s.drop_first());
        if r < 0 {
            -1
        } else {
            r + 1
        }
    }
}

proof fn lemma_first_newline_bounds(s: Seq<char>)
    ensures
        -1 <= first_newline(s) < s.len(),
    decreases s.len(),
{
    if s.len() > 0 && s.first() != '\n' {
        lemma_first_newline_bounds(s.drop_first());
    }
}

/// `s` without one trailing carriage return.
pub open spec fn strip_cr(s: Seq<char>) -> Seq<char> {
    if s.len() > 0 && s.last() == '\r' {
        s.drop_last()
    } else {
        s
    }
}

proof fn lemma_first_newline_at(s: Seq<char>, i: int)
    requires
        0 <= i < s.len(),
        s[i] == '\n',
        forall|k: int| 0 <= k < i ==> s[k] != '\n',
    ensures
        first_newline(s) == i,
    decreases s.len(),
{
    if i == 0 {
        assert(s.first() == '\n');
    } else {
        assert(s.first() != '\n');
        let d = s.drop_first();
        assert(d[i - 1] == '\n');
        assert(forall|k: int| 0 <= k < i - 1 ==> (#[trigger] d[k]) != '\n');
        lemma_first_newline_at(d, i - 1);
    }
}

proof fn lemma_no_newline(s: Seq<char>)
    requires
        forall|k: int| 0 <= k < s.len() ==> (#[trigger] s[k]) != '\n',
    ensures
        first_newline(s) == -1,
    decreases s.len(),
{
    if s.len() > 0 {
        assert(s.first() != '\n');
        let d = s.drop_first();
        assert(forall|k: int| 0 <= k < d.len() ==> (#[trigger] d[k]) != '\n');
        lemma_no_newline(d);
    }
}

fn strip_cr_vec(piece: Vec<char>) -> (r: Vec<char>)
    ensures
        r@ == strip_cr(piece@),
{
    let mut piece = piece;
    if piece.len() > 0 {
        let last = piece[piece.len() - 1];
        if last == '\r' {
            let ghost pre = piece@;
            let popped = piece.pop();
            proof {
                assert(piece@ =~= pre.drop_last());
            }
        }
    }
    piece
}

/// The lines of `s`, in the manner of `str::lines`.
#[verifier::rlimit(60)]
pub fn split_lines(s: &str) -> (r: Vec<String>)
    ensures
        str_views(r@) == split_lines_spec(s@),
{
    let v = chars_of(s);
    let n = v.len();
    let mut out: Vec<String> = Vec::new();
    let mut start: usize = 0;
    let mut i: usize = 0;
    proof {
        assert(s@.subrange(0, n as int) =~= s@);
        assert(str_views(out@) + split_lines_spec(s@.subrange(0, n as int)) =~= split_lines_spec(
            s@,
        ));
    }
    while i < n
        invariant
            start <= i <= n,
            n == v@.len(),
            v@ == s@,
            str_views(out@) + split_lines_spec(s@.subrange(start as int, n as int))
                == split_lines_spec(s@),
            forall|k: int| start <= k < i ==> s@[k] != '\n',
        decreases n - i,
    {
        if v[i] == '\n' {
            let mut piece: Vec<char> = Vec::new();
            let mut k: usize = start;
            while k < i
                invariant
                    start <= k <= i <= n,
                    n == v@.len(),
                    v@ == s@,
                    piece@ == s@.subrange(start as int, k as int),
                decreases i - k,
            {
                piece.push(v[k]);
                k = k + 1;
                proof {
                    assert(piece@ =~= s@.subrange(start as int, k as int));
                }
            }
            let piece = strip_cr_vec(piece);
            let ghost out_pre = str_views(out@);
            out.push(string_of(piece.as_slice()));
            proof {
                let rest = s@.subrange(start as int, n as int);
                let rel = i - start;
                assert(rest[rel] == '\n');
                assert(forall|k: int| 0 <= k < rel ==> rest[k] != '\n');
                lemma_first_newline_at(rest, rel);
                assert(rest.subrange(0, rel) =~= s@.subrange(start as int, i as int));
                assert(rest.subrange(rel + 1, rest.len() as int) =~= s@.subrange(
                    i + 1,
                    n as int,
                ));
                assert(split_lines_spec(rest) == seq![strip_cr(s@.subrange(start as int, i as int))]
                    + split_lines_spec(s@.subrange(i + 1, n as int)));
                assert(str_views(out@) =~= out_pre.push(strip_cr(
                    s@.subrange(start as int, i as int),
                )));
                assert(str_views(out@) + split_lines_spec(s@.subrange(i + 1, n as int))
                    =~= split_lines_spec(s@));
            }
            start = i + 1;
            i = i + 1;
        } else {
            i = i + 1;
        }
    }
    if start < n {
        let mut piece: Vec<char> = Vec::new();
        let mut k: usize = start;
        while k < n
            invariant
                start <= k <= n,
                n == v@.len(),
                v@ == s@,
                piece@ == s@.subrange(start as int, k as int),
            decreases n - k,
        {
            piece.push(v[k]);
            k = k + 1;
            proof {
                assert(piece@ =~= s@.subrange(start as int, k as int));
            }
        }
        let piece = strip_cr_vec(piece);
        let ghost out_pre = str_views(out@);
        out.push(string_of(piece.as_slice()));
        proof {
            let rest = s@.subrange(start as int, n as int);
            assert(forall|k: int| 0 <= k < rest.len() ==> rest[k] != '\n');
            lemma_no_newline(rest);
            assert(rest.len() > 0);
            assert(split_lines_spec(rest) == seq![strip_cr(rest)]);
            assert(rest =~= s@.subrange(start as int, n as int));
            assert(str_views(out@) =~= out_pre.push(strip_cr(rest)));
            assert(str_views(out@) =~= split_lines_spec(s@));
        }
    } else {
        proof {
            assert(s@.subrange(start as int, n as int).len() == 0);
            assert(split_lines_spec(s@.subrange(start as int, n as int))
                == Seq::<Seq<char>>::empty());
            assert(str_views(out@) =~= split_lines_spec(s@));
        }
    }
    out
}


/// The index of the first occurrence of `c` in `s`, or -1.
pub open spec fn find_char(s: Seq<char>, c: char) -> int
    decreases s.len(),
{
    if s.len() == 0 {
        -1
    } else if s.first() == c {
        0
    } else {
        let r = find_char(s.drop_first(), c);
        if r < 0 {
            -1
        } else {
            r + 1
        }
    }
}

pub proof fn lemma_find_char_at(s: Seq<char>, c: char, i: int)
    requires
        0 <= i < s.len(),
        s[i] == c,
        forall|k: int| 0 <= k < i ==> s[k] != c,
    ensures
        find_char(s, c) == i,
    decreases s.len(),
{
    if i == 0 {
    } else {
        assert(s.first() != c);
        let d = s.drop_first();
        assert(d[i - 1] == c);
        assert(forall|k: int| 0 <= k < i - 1 ==> (#[trigger] d[k]) != c);
        lemma_find_char_at(d, c, i - 1);
    }
}

pub proof fn lemma_find_char_none(s: Seq<char>, c: char)
    requires
        forall|k: int| 0 <= k < s.len() ==> (#[trigger] s[k]) != c,
    ensures
        find_char(s, c) == -1,
    decreases s.len(),
{
    if s.len() > 0 {
        let d = s.drop_first();
        assert(forall|k: int| 0 <= k < d.len() ==> (#[trigger] d[k]) != c);
        lemma_find_char_none(d, c);
    }
}

/// The index of the first occurrence of `c`, when there is one.
pub fn index_of_char(v: &[char], c: char) -> (r: Option<usize>)
    ensures
        match r {
            Some(i) => i < v@.len() && find_char(v@, c) == i as int,
            None => find_char(v@, c) == -1,
        },
{
    let n = v.len();
    let mut i: usize = 0;
    while i < n
        invariant
            i <= n,
            n == v@.len(),
            forall|k: int| 0 <= k < i ==> (#[trigger] v@[k]) != c,
        decreases n - i,
    {
        if v[i] == c {
            proof {
                lemma_find_char_at(v@, c, i as int);
            }
            return Some(i);
        }
        i = i + 1;
    }
    proof {
        lemma_find_char_none(v@, c);
    }
    None
}

/// `s` ends with `p`.
pub open spec fn ends_with_spec(s: Seq<char>, p: Seq<char>) -> bool {
    p.len() <= s.len() && p == s.subrange(s.len() - p.len(), s.len() as int)
}

/// Whether `s` ends with `p`.
pub fn ends_with_chars(s: &[char], p: &[char]) -> (r: bool)
    ensures
        r == ends_with_spec(s@, p@),
{
    let m = p.len();
    let n = s.len();
    if m > n {
        return false;
    }
    let mut i: usize = 0;
    while i < m
        invariant
            i <= m,
            m <= n,
            n == s@.len(),
            m == p@.len(),
            forall|k: int| 0 <= k < i ==> s@[n - m + k] == p@[k],
        decreases m - i,
    {
        if s[n - m + i] != p[i] {
            proof {
                assert(p@ == s@.subrange(n - m, n as int) ==> p@[i as int] == s@[n - m + i]);
            }
            return false;
        }
        i = i + 1;
    }
    proof {
        assert(p@ =~= s@.subrange(n - m, n as int));
    }
    true
}

/// The concatenation of the parts, in order.
pub open spec fn concat_seqs(parts: Seq<Seq<char>>) -> Seq<char>
    decreases parts.len(),
{
    if parts.len() == 0 {
        Seq::<char>::empty()
    } else {
        concat_seqs(parts.drop_last()) + parts.last()
    }
}

/// The characters `v[a..b]` as a vector.
pub fn sub_chars(v: &[char], a: usize, b: usize) -> (r: Vec<char>)
    requires
        a <= b <= v@.len(),
    ensures
        r@ == v@.subrange(a as int, b as int),
{
    let mut r: Vec<char> = Vec::new();
    let mut i: usize = a;
    while i < b
        invariant
            a <= i <= b <= v@.len(),
            r@ == v@.subrange(a as int, i as int),
        decreases b - i,
    {
        r.push(v[i]);
        i = i + 1;
        proof {
            assert(r@ =~= v@.subrange(a as int, i as int));
        }
    }
    proof {
        assert(r@ =~= v@.subrange(a as int, b as int));
    }
    r
}

} // verus!
