//! Character-level string helpers shared by the build pipeline, the
//! system probe and the confirmation dialog: prefix tests, searching,
//! line splitting, ASCII lower-casing and decimal rendering of numbers.

use vstd::prelude::*;

verus! {

/// True when `p` is a prefix of `s`.
pub open spec fn starts_with(s: Seq<char>, p: Seq<char>) -> bool {
    p.len() <= s.len() && s.subrange(0, p.len() as int) == p
}

/// Index of the first occurrence of `c` in `s` at or after `from`,
/// or `s.len()` when there is none.
pub open spec fn find_from(s: Seq<char>, from: int, c: char) -> int
    decreases s.len() - from,
{
    if from < 0 || from >= s.len() {
        s.len() as int
    } else if s[from] == c {
        from
    } else {
        find_from(s, from + 1, c)
    }
}

/// The defining properties of `find_from`: it points at the first
/// occurrence of `c` at or after `from`, or at the end of `s`.
pub proof fn lemma_find_from(s: Seq<char>, from: int, c: char)
    requires
        0 <= from <= s.len(),
    ensures
        from <= find_from(s, from, c) <= s.len(),
        find_from(s, from, c) < s.len() ==> s[find_from(s, from, c)] == c,
        forall|k: int| from <= k < find_from(s, from, c) ==> s[k] != c,
    decreases s.len() - from,
{
    if from < s.len() && s[from] != c {
        lemma_find_from(s, from + 1, c);
    }
}

/// Finds the first occurrence of `c` in `s` at or after `from`.
pub fn find_char_from(s: &str, from: usize, c: char) -> (r: usize)
    requires
        from <= s@.len(),
    ensures
        r == find_from(s@, from as int, c),
{
    let n = s.unicode_len();
    let mut j = from;
    while j < n
        invariant
            from <= j <= n,
            n == s@.len(),
            find_from(s@, from as int, c) == find_from(s@, j as int, c),
        decreases n - j,
    {
        if s.get_char(j) == c {
            return j;
        }
        j = j + 1;
    }
    j
}

/// True when `p` is a prefix of `s`.
pub fn has_prefix(s: &str, p: &str) -> (r: bool)
    ensures
        r == starts_with(s@, p@),
{
    let np = p.unicode_len();
    let ns = s.unicode_len();
    if np > ns {
        return false;
    }
    let mut i: usize = 0;
    while i < np
        invariant
            i <= np,
            np == p@.len(),
            ns == s@.len(),
            np <= ns,
            forall|k: int| 0 <= k < i ==> s@[k] == p@[k],
        decreases np - i,
    {
        if s.get_char(i) != p.get_char(i) {
            assert(s@.subrange(0, np as int)[i as int] != p@[i as int]);
            return false;
        }
        i = i + 1;
    }
    assert(s@.subrange(0, np as int) =~= p@);
    true
}

/// Character-wise equality of two string slices.
pub fn str_eq(a: &str, b: &str) -> (r: bool)
    ensures
        r == (a@ == b@),
{
    let na = a.unicode_len();
    let nb = b.unicode_len();
    if na != nb {
        return false;
    }
    let mut i: usize = 0;
    while i < na
        invariant
            i <= na,
            na == a@.len(),
            nb == b@.len(),
            na == nb,
            forall|k: int| 0 <= k < i ==> a@[k] == b@[k],
        decreases na - i,
    {
        if a.get_char(i) != b.get_char(i) {
            return false;
        }
        i = i + 1;
    }
    assert(a@ =~= b@);
    true
}

/// `line` with a single trailing carriage return removed.
pub open spec fn strip_cr(line: Seq<char>) -> Seq<char> {
    if line.len() > 0 && line[line.len() - 1] == '\r' {
        line.drop_last()
    } else {
        line
    }
}

/// The lines of `s` from position `from` on: segments separated by
/// newline characters. A carriage return immediately before a newline
/// is removed, and a trailing newline produces no final empty line.
pub open spec fn lines_from(s: Seq<char>, from: int) -> Seq<Seq<char>>
    decreases s.len() - from,
        via lines_from_decreases
{
    if from < 0 || from >= s.len() {
        Seq::empty()
    } else {
        let j = find_from(s, from, '\n');
        let seg = s.subrange(from, j);
        if j < s.len() {
            seq![strip_cr(seg)] + lines_from(s, j + 1)
        } else {
            seq![seg]
        }
    }
}

#[via_fn]
proof fn lines_from_decreases(s: Seq<char>, from: int) {
    if 0 <= from && from < s.len() {
        lemma_find_from(s, from, '\n');
    }
}

/// The lines of `s`, as `str::lines` yields them.
pub open spec fn spec_lines(s: Seq<char>) -> Seq<Seq<char>> {
    lines_from(s, 0)
}

/// Splits `s` into its lines: segments separated by newlines, each
/// with a carriage return before the newline removed, and with no
/// final empty line for a trailing newline.
pub fn split_lines(s: &str) -> (res: Vec<String>)
    ensures
        res.deep_view() == spec_lines(s@),
{
    let n = s.unicode_len();
    let mut res: Vec<String> = Vec::new();
    let mut i: usize = 0;
    while i < n
        invariant
            n == s@.len(),
            i <= n,
            spec_lines(s@) == res.deep_view() + lines_from(s@, i as int),
        decreases n - i,
    {
        let j = find_char_from(s, i, '\n');
        proof {
            lemma_find_from(s@, i as int, '\n');
        }
        let line_end = if j < n && j > i && s.get_char(j - 1) == '\r' {
            j - 1
        } else {
            j
        };
        let line = s.substring_char(i, line_end).to_owned();
        proof {
            let seg = s@.subrange(i as int, j as int);
            let spec_line = if j < s@.len() {
                strip_cr(seg)
            } else {
                seg
            };
            if j < n && j > i && s@[j - 1] == '\r' {
                assert(seg.len() > 0 && seg[seg.len() - 1] == '\r');
                assert(seg.drop_last() =~= s@.subrange(i as int, line_end as int));
            } else {
                if j < n && seg.len() > 0 {
                    assert(seg[seg.len() - 1] == s@[j - 1]);
                }
                assert(spec_line =~= s@.subrange(i as int, line_end as int));
            }
            assert(line@ == spec_line);
        }
        res.push(line);
        proof {
            assert(res.deep_view() =~= res.deep_view().subrange(0, res.deep_view().len() - 1).push(
                line@,
            ));
        }
        i = if j < n {
            j + 1
        } else {
            n
        };
    }
    proof {
        assert(res.deep_view() =~= spec_lines(s@));
    }
    res
}

/// Joins `parts` with a single newline separator between them.
pub open spec fn join_lines(parts: Seq<Seq<char>>) -> Seq<char>
    decreases parts.len(),
{
    if parts.len() == 0 {
        Seq::empty()
    } else if parts.len() == 1 {
        parts[0]
    } else {
        parts[0] + seq!['\n'] + join_lines(parts.drop_first())
    }
}

/// Appending one more part to a join appends a newline and the part.
pub proof fn lemma_join_push(parts: Seq<Seq<char>>, x: Seq<char>)
    ensures
        parts.len() == 0 ==> join_lines(parts.push(x)) == x,
        parts.len() > 0 ==> join_lines(parts.push(x)) == join_lines(parts) + seq!['\n'] + x,
    decreases parts.len(),
{
    if parts.len() == 0 {
        assert(join_lines(parts.push(x)) == parts.push(x)[0]);
        assert(parts.push(x)[0] == x);
    } else if parts.len() == 1 {
        assert(parts.push(x).drop_first() =~= parts.drop_first().push(x));
        lemma_join_push(parts.drop_first(), x);
        assert(parts.push(x)[0] == parts[0]);
        assert(join_lines(parts) == parts[0]);
    } else {
        assert(parts.push(x).drop_first() =~= parts.drop_first().push(x));
        lemma_join_push(parts.drop_first(), x);
        assert(parts.push(x)[0] == parts[0]);
    }
}

/// The ASCII lower-case counterpart of `c`; other characters unchanged.
pub open spec fn lower_char(c: char) -> char {
    if 'A' <= c && c <= 'Z' {
        "abcdefghijklmnopqrstuvwxyz"@[c as int - 'A' as int]
    } else {
        c
    }
}

/// `s` with every ASCII upper-case letter lower-cased.
pub open spec fn spec_lower(s: Seq<char>) -> Seq<char> {
    Seq::new(s.len(), |i: int| lower_char(s[i]))
}

/// Lower-cases the ASCII letters of `s`, leaving other characters as
/// they are.
pub fn to_lowercase(s: &str) -> (r: String)
    ensures
        r@ == spec_lower(s@),
{
    let lowers = "abcdefghijklmnopqrstuvwxyz";
    proof {
        reveal_strlit("abcdefghijklmnopqrstuvwxyz");
    }
    let n = s.unicode_len();
    let mut r = String::new();
    let mut i: usize = 0;
    while i < n
        invariant
            n == s@.len(),
            i <= n,
            lowers@ == "abcdefghijklmnopqrstuvwxyz"@,
            lowers@.len() == 26,
            r@ == spec_lower(s@.subrange(0, i as int)),
        decreases n - i,
    {
        let c = s.get_char(i);
        if 'A' <= c && c <= 'Z' {
            let idx = (c as u32 - 'A' as u32) as usize;
            assert(idx < 26);
            r.append(lowers.substring_char(idx, idx + 1));
            proof {
                assert(lowers@.subrange(idx as int, idx + 1) =~= seq![lower_char(c)]);
            }
        } else {
            r.append(s.substring_char(i, i + 1));
            proof {
                assert(s@.subrange(i as int, i + 1) =~= seq![lower_char(c)]);
            }
        }
        i = i + 1;
        proof {
            assert(spec_lower(s@.subrange(0, i as int)) =~= spec_lower(
                s@.subrange(0, i - 1),
            ).push(lower_char(s@[i - 1])));
        }
    }
    proof {
        assert(s@.subrange(0, n as int) =~= s@);
    }
    r
}

/// The digit character for a value below ten.
pub open spec fn dec_digit(d: int) -> char {
    "0123456789"@[d]
}

/// The decimal rendering of `n`, most significant digit first, with
/// no leading zeros (a single zero digit for zero).
pub open spec fn dec_str(n: nat) -> Seq<char>
    decreases n,
{
    if n < 10 {
        seq![dec_digit(n as int)]
    } else {
        dec_str(n / 10) + seq![dec_digit((n % 10) as int)]
    }
}

/// Renders `n` in decimal.
pub fn usize_to_string(n: usize) -> (r: String)
    ensures
        r@ == dec_str(n as nat),
    decreases n,
{
    let digits = "0123456789";
    proof {
        reveal_strlit("0123456789");
    }
    if n < 10 {
        let d = digits.substring_char(n, n + 1);
        proof {
            assert(digits@.subrange(n as int, n + 1) =~= seq![dec_digit(n as int)]);
        }
        d.to_owned()
    } else {
        let mut r = usize_to_string(n / 10);
        let m = n % 10;
        let d = digits.substring_char(m, m + 1);
        proof {
            assert(digits@.subrange(m as int, m + 1) =~= seq![dec_digit(m as int)]);
        }
        r.append(d);
        r
    }
}

} // verus!
