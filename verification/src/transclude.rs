//! The build-time script pipeline: candidate discovery rules and the
//! transclusion engine that rewrites each candidate script into a
//! flattened, include-free script at the same relative path.
//!
//! The source tree is modelled as a sequence of files, each a relative
//! path with its full text. Directory walking and file reading are
//! performed by the surrounding program, which hands the tree in as
//! plain values; everything from the candidate test to the flattened
//! catalog is computed here.

use vstd::prelude::*;

use crate::strutil::{
    find_char_from, find_from, has_prefix, join_lines, lemma_find_from, lemma_join_push,
    spec_lines, split_lines, starts_with, str_eq,
};

verus! {

/// A file of the script tree: a path relative to the tree's root, and
/// the file's full text.
#[derive(Debug)]
pub struct ScriptFile {
    pub path: String,
    pub content: String,
}

impl View for ScriptFile {
    type V = (Seq<char>, Seq<char>);

    open spec fn view(&self) -> (Seq<char>, Seq<char>) {
        (self.path@, self.content@)
    }
}

impl DeepView for ScriptFile {
    type V = (Seq<char>, Seq<char>);

    open spec fn deep_view(&self) -> (Seq<char>, Seq<char>) {
        self.view()
    }
}

/// The largest index of `c` in `s`, or `-1` when `c` does not occur.
pub open spec fn rfind(s: Seq<char>, c: char) -> int
    decreases s.len(),
{
    if s.len() == 0 {
        -1
    } else if s[s.len() - 1] == c {
        s.len() - 1
    } else {
        rfind(s.drop_last(), c)
    }
}

/// The defining properties of `rfind`: it points at the last
/// occurrence of `c` in `s`, or at `-1` when there is none.
pub proof fn lemma_rfind(s: Seq<char>, c: char)
    ensures
        -1 <= rfind(s, c) < s.len(),
        rfind(s, c) >= 0 ==> s[rfind(s, c)] == c,
        forall|k: int| rfind(s, c) < k < s.len() ==> s[k] != c,
    decreases s.len(),
{
    if s.len() > 0 && s[s.len() - 1] != c {
        lemma_rfind(s.drop_last(), c);
        assert(forall|k: int|
            0 <= k < s.len() - 1 ==> s[k] == s.drop_last()[k]);
    }
}

/// Finds the last occurrence of `c` in `s`, if any.
pub fn rfind_char(s: &str, c: char) -> (r: Option<usize>)
    ensures
        match r {
            Some(i) => i == rfind(s@, c),
            None => rfind(s@, c) == -1,
        },
{
    proof {
        lemma_rfind(s@, c);
    }
    let n = s.unicode_len();
    let mut i = n;
    while i > 0
        invariant
            i <= n,
            n == s@.len(),
            forall|k: int| i <= k < s@.len() ==> s@[k] != c,
        decreases i,
    {
        if s.get_char(i - 1) == c {
            proof {
                lemma_rfind_unique(s@, c, i - 1);
            }
            return Some(i - 1);
        }
        i = i - 1;
    }
    None
}

/// When `s[j] == c` and nothing after `j` is `c`, the last occurrence
/// is `j`.
proof fn lemma_rfind_unique(s: Seq<char>, c: char, j: int)
    requires
        0 <= j < s.len(),
        s[j] == c,
        forall|k: int| j < k < s.len() ==> s[k] != c,
    ensures
        rfind(s, c) == j,
    decreases s.len(),
{
    if s[s.len() - 1] != c {
        assert(j < s.len() - 1);
        lemma_rfind_unique(s.drop_last(), c, j);
    }
}

/// The directory part of a relative path: everything before the last
/// slash, or the empty path when there is no slash.
pub open spec fn parent_dir(path: Seq<char>) -> Seq<char> {
    let b = rfind(path, '/');
    if b < 0 {
        Seq::empty()
    } else {
        path.subrange(0, b)
    }
}

/// The directory part of `path`.
pub fn parent_of(path: &str) -> (r: String)
    ensures
        r@ == parent_dir(path@),
{
    proof {
        lemma_rfind(path@, '/');
    }
    match rfind_char(path, '/') {
        Some(b) => path.substring_char(0, b).to_owned(),
        None => {
            proof {
                assert(Seq::<char>::empty() =~= parent_dir(path@));
            }
            String::new()
        },
    }
}

/// A path relative to a directory: the directory, a slash, and the
/// relative path; just the relative path under the root directory.
/// The join is textual: `..` segments and absolute paths are not
/// normalized, so a resolved target must name a tree path below the
/// including script's directory.
pub open spec fn joined_path(dir: Seq<char>, rel: Seq<char>) -> Seq<char> {
    if dir.len() == 0 {
        rel
    } else {
        dir + seq!['/'] + rel
    }
}

/// Resolves `rel` against the directory `dir`.
pub fn join_path(dir: &str, rel: &str) -> (r: String)
    ensures
        r@ == joined_path(dir@, rel@),
{
    if dir.unicode_len() == 0 {
        rel.to_owned()
    } else {
        let mut s = dir.to_owned();
        s.append("/");
        s.append(rel);
        proof {
            reveal_strlit("/");
            assert(dir@ + "/"@ + rel@ =~= dir@ + seq!['/'] + rel@);
        }
        s
    }
}

/// True when the path's file name carries either no extension or the
/// shell-script extension. The file name is what follows the last
/// slash; its extension is what follows its last dot, and a name whose
/// only dot is its first character has no extension.
pub open spec fn spec_has_shell_ext(path: Seq<char>) -> bool {
    let fname = path.subrange(rfind(path, '/') + 1, path.len() as int);
    let d = rfind(fname, '.');
    d <= 0 || fname.subrange(d + 1, fname.len() as int) == seq!['s', 'h']
}

/// Decides whether `path` has an accepted script extension.
pub fn has_shell_ext(path: &str) -> (r: bool)
    ensures
        r == spec_has_shell_ext(path@),
{
    proof {
        lemma_rfind(path@, '/');
    }
    let n = path.unicode_len();
    let b = match rfind_char(path, '/') {
        Some(i) => i + 1,
        None => 0,
    };
    let fname = path.substring_char(b, n);
    proof {
        assert(fname@ =~= path@.subrange(rfind(path@, '/') + 1, path@.len() as int));
        lemma_rfind(fname@, '.');
    }
    match rfind_char(fname, '.') {
        None => true,
        Some(0) => true,
        Some(d) => {
            let ext = fname.substring_char(d + 1, fname.unicode_len());
            let r = str_eq(ext, "sh");
            proof {
                reveal_strlit("sh");
                assert("sh"@ =~= seq!['s', 'h']);
            }
            r
        },
    }
}

/// True when the text begins with the two-character shebang marker.
pub open spec fn spec_has_shebang(content: Seq<char>) -> bool {
    content.len() >= 2 && content[0] == '#' && content[1] == '!'
}

/// Decides whether `content` begins with the shebang marker.
pub fn starts_with_shebang(content: &str) -> (r: bool)
    ensures
        r == spec_has_shebang(content@),
{
    let n = content.unicode_len();
    n >= 2 && content.get_char(0) == '#' && content.get_char(1) == '!'
}

/// A file is a candidate script exactly when its extension is absent
/// or the shell-script extension, and its text begins with the
/// shebang marker.
pub open spec fn spec_is_candidate(f: (Seq<char>, Seq<char>)) -> bool {
    spec_has_shell_ext(f.0) && spec_has_shebang(f.1)
}

/// Decides whether the file at `path` with text `content` is a
/// candidate script.
pub fn is_candidate(path: &str, content: &str) -> (r: bool)
    ensures
        r == spec_is_candidate((path@, content@)),
{
    let e = has_shell_ext(path);
    let s = starts_with_shebang(content);
    e && s
}

/// True when the line is an include directive: it begins with a dot
/// and a space, or with the word `source` and a space.
pub open spec fn is_include_line(line: Seq<char>) -> bool {
    starts_with(line, seq!['.', ' ']) || starts_with(
        line,
        seq!['s', 'o', 'u', 'r', 'c', 'e', ' '],
    )
}

/// The include target named by an include directive: the remainder of
/// the line after its first space.
pub open spec fn include_target(line: Seq<char>) -> Seq<char> {
    line.subrange(find_from(line, 0, ' ') + 1, line.len() as int)
}

/// The text of the first file in `files` whose path is `path`.
pub open spec fn lookup(files: Seq<(Seq<char>, Seq<char>)>, path: Seq<char>) -> Option<Seq<char>>
    decreases files.len(),
{
    if files.len() == 0 {
        None
    } else if files[0].0 == path {
        Some(files[0].1)
    } else {
        lookup(files.drop_first(), path)
    }
}

/// Finds the first file in `files` whose path is `path`.
fn lookup_file<'a>(files: &'a Vec<ScriptFile>, path: &str) -> (r: Option<&'a String>)
    ensures
        match r {
            Some(c) => lookup(files.deep_view(), path@) == Some(c@),
            None => lookup(files.deep_view(), path@) is None,
        },
{
    let n = files.len();
    let mut i: usize = 0;
    proof {
        assert(files.deep_view().skip(0) =~= files.deep_view());
    }
    while i < n
        invariant
            i <= n,
            n == files.len(),
            lookup(files.deep_view(), path@) == lookup(
                files.deep_view().skip(i as int),
                path@,
            ),
        decreases n - i,
    {
        if str_eq(files[i].path.as_str(), path) {
            proof {
                assert(files.deep_view().skip(i as int)[0] == files@[i as int].deep_view());
            }
            return Some(&files[i].content);
        }
        proof {
            assert(files.deep_view().skip(i as int)[0] == files@[i as int].deep_view());
            assert(files.deep_view().skip(i as int).drop_first() =~= files.deep_view().skip(
                i as int + 1,
            ));
        }
        i = i + 1;
    }
    None
}

/// The expansion of `lines[i..]`: every include directive replaced by
/// the text of its target, resolved against `dir` and looked up in
/// `files`; other lines kept. `Err` carries the resolved path of the
/// first include target that is not in the tree.
pub open spec fn expand_from(
    files: Seq<(Seq<char>, Seq<char>)>,
    dir: Seq<char>,
    lines: Seq<Seq<char>>,
    i: int,
) -> Result<Seq<Seq<char>>, Seq<char>>
    decreases lines.len() - i,
{
    if i < 0 || i >= lines.len() {
        Ok(Seq::empty())
    } else {
        let line = lines[i];
        if is_include_line(line) {
            let p = joined_path(dir, include_target(line));
            match lookup(files, p) {
                Some(c) => match expand_from(files, dir, lines, i + 1) {
                    Ok(rest) => Ok(seq![c] + rest),
                    Err(e) => Err(e),
                },
                None => Err(p),
            }
        } else {
            match expand_from(files, dir, lines, i + 1) {
                Ok(rest) => Ok(seq![line] + rest),
                Err(e) => Err(e),
            }
        }
    }
}

/// The flattened text of one script whose directory is `dir`: each
/// include directive replaced, exactly one level deep, by the raw
/// text of its target; all other lines kept unchanged; the results
/// joined with a single newline between them. `Err` carries the
/// resolved path of the first include target missing from the tree.
pub open spec fn spec_flatten(
    files: Seq<(Seq<char>, Seq<char>)>,
    dir: Seq<char>,
    content: Seq<char>,
) -> Result<Seq<char>, Seq<char>> {
    match expand_from(files, dir, spec_lines(content), 0) {
        Ok(parts) => Ok(join_lines(parts)),
        Err(e) => Err(e),
    }
}

/// The fatal failure of the build pipeline: an include directive
/// names a target that the source tree does not contain.
#[derive(Debug)]
pub enum BuildError {
    MissingInclude(String),
}

/// Rewrites one script into its flattened form: lines that are
/// include directives are replaced by the raw text of their targets,
/// resolved against the script's directory `dir` and read from the
/// tree `files`; inlining is exactly one level deep, so included text
/// is not scanned again. Fails on the first include target that the
/// tree does not contain. Targets are resolved by textual join, so a
/// directive must name a path below the script's own directory: `..`
/// segments and absolute paths find no tree entry and are fatal.
pub fn flatten_script(files: &Vec<ScriptFile>, dir: &str, content: &str) -> (r: Result<
    String,
    BuildError,
>)
    ensures
        match r {
            Ok(out) => spec_flatten(files.deep_view(), dir@, content@) == Ok::<
                Seq<char>,
                Seq<char>,
            >(out@),
            Err(BuildError::MissingInclude(p)) => spec_flatten(files.deep_view(), dir@, content@)
                == Err::<Seq<char>, Seq<char>>(p@),
        },
{
    let ghost fdv = files.deep_view();
    let ghost sl = spec_lines(content@);
    let lines = split_lines(content);
    let n = lines.len();
    let mut parts: Vec<String> = Vec::new();
    let mut i: usize = 0;
    while i < n
        invariant
            i <= n,
            n == lines.len(),
            lines.deep_view() == sl,
            sl == spec_lines(content@),
            fdv == files.deep_view(),
            expand_from(fdv, dir@, sl, 0) == (match expand_from(fdv, dir@, sl, i as int) {
                Ok(rest) => Ok::<Seq<Seq<char>>, Seq<char>>(parts.deep_view() + rest),
                Err(e) => Err::<Seq<Seq<char>>, Seq<char>>(e),
            }),
        decreases n - i,
    {
        let line: &String = &lines[i];
        proof {
            assert(line@ == sl[i as int]);
        }
        let inc_dot = has_prefix(line.as_str(), ". ");
        let inc_src = has_prefix(line.as_str(), "source ");
        proof {
            reveal_strlit(". ");
            reveal_strlit("source ");
            assert(". "@ =~= seq!['.', ' ']);
            assert("source "@ =~= seq!['s', 'o', 'u', 'r', 'c', 'e', ' ']);
        }
        if inc_dot || inc_src {
            proof {
                lemma_find_from(line@, 0, ' ');
                if inc_dot {
                    assert(line@[1] == ' ');
                } else {
                    assert(line@[6] == ' ');
                }
            }
            let sp = find_char_from(line.as_str(), 0, ' ');
            let nl = line.as_str().unicode_len();
            let target = line.as_str().substring_char(sp + 1, nl);
            proof {
                assert(target@ == include_target(line@));
            }
            let full = join_path(dir, target);
            match lookup_file(files, full.as_str()) {
                Some(c) => {
                    let ghost dv_old = parts.deep_view();
                    let piece = c.clone();
                    parts.push(piece);
                    proof {
                        assert(parts.deep_view() =~= dv_old.push(c@));
                        let rest_n = expand_from(fdv, dir@, sl, i as int + 1);
                        if rest_n is Ok {
                            assert(dv_old + (seq![c@] + rest_n->Ok_0) =~= dv_old.push(c@)
                                + rest_n->Ok_0);
                        }
                    }
                },
                None => {
                    return Err(BuildError::MissingInclude(full));
                },
            }
        } else {
            let ghost dv_old = parts.deep_view();
            let piece = line.clone();
            parts.push(piece);
            proof {
                assert(parts.deep_view() =~= dv_old.push(line@));
                let rest_n = expand_from(fdv, dir@, sl, i as int + 1);
                if rest_n is Ok {
                    assert(dv_old + (seq![line@] + rest_n->Ok_0) =~= dv_old.push(line@)
                        + rest_n->Ok_0);
                }
            }
        }
        i = i + 1;
    }
    proof {
        assert(parts.deep_view() + Seq::<Seq<char>>::empty() =~= parts.deep_view());
        assert(expand_from(fdv, dir@, sl, 0) == Ok::<Seq<Seq<char>>, Seq<char>>(
            parts.deep_view(),
        ));
    }
    let ghost pdv = parts.deep_view();
    let m = parts.len();
    if m == 0 {
        return Ok(String::new());
    }
    let mut out = parts[0].clone();
    proof {
        assert(pdv.take(1) =~= seq![pdv[0]]);
        lemma_join_push(Seq::<Seq<char>>::empty(), pdv[0]);
        assert(Seq::<Seq<char>>::empty().push(pdv[0]) =~= pdv.take(1));
    }
    let mut k: usize = 1;
    while k < m
        invariant
            1 <= k <= m,
            m == parts.len(),
            pdv == parts.deep_view(),
            out@ == join_lines(pdv.take(k as int)),
        decreases m - k,
    {
        out.append("\n");
        out.append(parts[k].as_str());
        proof {
            reveal_strlit("\n");
            assert("\n"@ =~= seq!['\n']);
            lemma_join_push(pdv.take(k as int), pdv[k as int]);
            assert(pdv.take(k as int).push(pdv[k as int]) =~= pdv.take(k as int + 1));
        }
        k = k + 1;
    }
    proof {
        assert(pdv.take(m as int) =~= pdv);
    }
    Ok(out)
}

/// The catalog built from `files[i..]`: one flattened script per
/// candidate, at its original relative path, in tree order; includes
/// are looked up in the whole tree. `Err` carries the resolved path
/// of the first missing include target.
pub open spec fn spec_catalog_from(files: Seq<(Seq<char>, Seq<char>)>, i: int) -> Result<
    Seq<(Seq<char>, Seq<char>)>,
    Seq<char>,
>
    decreases files.len() - i,
{
    if i < 0 || i >= files.len() {
        Ok(Seq::empty())
    } else {
        let f = files[i];
        if spec_is_candidate(f) {
            match spec_flatten(files, parent_dir(f.0), f.1) {
                Ok(flat) => match spec_catalog_from(files, i + 1) {
                    Ok(rest) => Ok(seq![(f.0, flat)] + rest),
                    Err(e) => Err(e),
                },
                Err(e) => Err(e),
            }
        } else {
            spec_catalog_from(files, i + 1)
        }
    }
}

/// The catalog built from the whole tree.
pub open spec fn spec_catalog(files: Seq<(Seq<char>, Seq<char>)>) -> Result<
    Seq<(Seq<char>, Seq<char>)>,
    Seq<char>,
> {
    spec_catalog_from(files, 0)
}

/// Runs the pipeline over the source tree: keeps exactly the
/// candidate scripts, flattens each against its own directory, and
/// yields the flattened scripts at their original relative paths, in
/// tree order. Non-candidates are silently excluded; the first
/// missing include target aborts the whole build.
pub fn build_catalog(files: &Vec<ScriptFile>) -> (r: Result<Vec<ScriptFile>, BuildError>)
    ensures
        match r {
            Ok(out) => spec_catalog(files.deep_view()) == Ok::<
                Seq<(Seq<char>, Seq<char>)>,
                Seq<char>,
            >(out.deep_view()),
            Err(BuildError::MissingInclude(p)) => spec_catalog(files.deep_view()) == Err::<
                Seq<(Seq<char>, Seq<char>)>,
                Seq<char>,
            >(p@),
        },
{
    let ghost fdv = files.deep_view();
    let n = files.len();
    let mut out: Vec<ScriptFile> = Vec::new();
    let mut i: usize = 0;
    while i < n
        invariant
            i <= n,
            n == files.len(),
            fdv == files.deep_view(),
            spec_catalog(fdv) == (match spec_catalog_from(fdv, i as int) {
                Ok(rest) => Ok::<Seq<(Seq<char>, Seq<char>)>, Seq<char>>(out.deep_view() + rest),
                Err(e) => Err::<Seq<(Seq<char>, Seq<char>)>, Seq<char>>(e),
            }),
        decreases n - i,
    {
        let f: &ScriptFile = &files[i];
        proof {
            assert(f@ == fdv[i as int]);
        }
        if is_candidate(f.path.as_str(), f.content.as_str()) {
            let dir = parent_of(f.path.as_str());
            match flatten_script(files, dir.as_str(), f.content.as_str()) {
                Ok(flat) => {
                    let ghost dv_old = out.deep_view();
                    let ghost flatv = flat@;
                    out.push(
                        ScriptFile { path: f.path.clone(), content: flat },
                    );
                    proof {
                        assert(out.deep_view() =~= dv_old.push((f.path@, flatv)));
                        let rest_n = spec_catalog_from(fdv, i as int + 1);
                        if rest_n is Ok {
                            assert(dv_old + (seq![(f.path@, flatv)] + rest_n->Ok_0) =~= dv_old.push(
                                (f.path@, flatv),
                            ) + rest_n->Ok_0);
                        }
                    }
                },
                Err(e) => {
                    return Err(e);
                },
            }
        }
        i = i + 1;
    }
    proof {
        assert(out.deep_view() + Seq::<(Seq<char>, Seq<char>)>::empty() =~= out.deep_view());
    }
    Ok(out)
}

/// Flattening preserves the shebang marker at the start of a script:
/// the first line of a candidate is never an include directive, so it
/// passes through unchanged to the head of the joined output.
pub proof fn lemma_flatten_shebang(
    files: Seq<(Seq<char>, Seq<char>)>,
    dir: Seq<char>,
    content: Seq<char>,
)
    requires
        spec_has_shebang(content),
        spec_flatten(files, dir, content) is Ok,
    ensures
        spec_has_shebang(spec_flatten(files, dir, content)->Ok_0),
{
    lemma_find_from(content, 0, '\n');
    let j = find_from(content, 0, '\n');
    assert(j >= 2) by {
        if j < 2 {
            assert(content[j] == '\n');
        }
    }
    let lines = spec_lines(content);
    let seg = content.subrange(0, j);
    assert(seg[0] == '#' && seg[1] == '!' && seg.len() >= 2);
    let line0 = lines[0];
    assert(line0[0] == '#' && line0[1] == '!' && line0.len() >= 2);
    assert(!is_include_line(line0)) by {
        assert(line0[0] != '.' && line0[0] != 's');
    }
    let parts = expand_from(files, dir, lines, 0)->Ok_0;
    assert(parts[0] == line0 && parts.len() >= 1);
    let out = join_lines(parts);
    if parts.len() == 1 {
        assert(out == line0);
    } else {
        assert(out[0] == (parts[0] + seq!['\n'])[0]);
        assert(out[1] == (parts[0] + seq!['\n'])[1]);
    }
}

/// A text that begins with the shebang characters encodes, in UTF-8,
/// to bytes that begin with the shebang marker's two bytes.
pub proof fn lemma_shebang_bytes(content: Seq<char>)
    requires
        spec_has_shebang(content),
    ensures
        vstd::utf8::encode_utf8(content).len() >= 2,
        vstd::utf8::encode_utf8(content)[0] == 35u8,
        vstd::utf8::encode_utf8(content)[1] == 33u8,
{
    assert('#' as u32 == 35);
    assert('!' as u32 == 33);
    assert(35u32 & 0x7F == 35) by (bit_vector);
    assert(33u32 & 0x7F == 33) by (bit_vector);
    let rest = content.drop_first();
    assert(vstd::utf8::encode_utf8(content) == vstd::utf8::encode_scalar(content[0] as u32)
        + vstd::utf8::encode_utf8(rest));
    assert(rest[0] == content[1] && rest.len() >= 1);
    assert(vstd::utf8::encode_utf8(rest) == vstd::utf8::encode_scalar(rest[0] as u32)
        + vstd::utf8::encode_utf8(rest.drop_first()));
}

/// Every script of a successfully built catalog begins with the
/// shebang marker.
pub proof fn lemma_catalog_shebang(files: Seq<(Seq<char>, Seq<char>)>, out: Seq<(Seq<char>, Seq<char>)>)
    requires
        spec_catalog(files) == Ok::<Seq<(Seq<char>, Seq<char>)>, Seq<char>>(out),
    ensures
        forall|k: int| 0 <= k < out.len() ==> spec_has_shebang(#[trigger] out[k].1),
{
    lemma_catalog_from_shebang(files, 0, out);
}

/// Every emitted file's first two bytes, once the text is encoded as
/// UTF-8, are the shebang marker.
pub proof fn lemma_catalog_shebang_first_two_bytes(
    files: Seq<(Seq<char>, Seq<char>)>,
    out: Seq<(Seq<char>, Seq<char>)>,
)
    requires
        spec_catalog(files) == Ok::<Seq<(Seq<char>, Seq<char>)>, Seq<char>>(out),
    ensures
        forall|k: int| 0 <= k < out.len() ==> {
            let bytes = vstd::utf8::encode_utf8(#[trigger] out[k].1);
            bytes.len() >= 2 && bytes[0] == 35u8 && bytes[1] == 33u8
        },
{
    lemma_catalog_shebang(files, out);
    assert forall|k: int| 0 <= k < out.len() implies {
        let bytes = vstd::utf8::encode_utf8(#[trigger] out[k].1);
        bytes.len() >= 2 && bytes[0] == 35u8 && bytes[1] == 33u8
    } by {
        lemma_shebang_bytes(out[k].1);
    }
}

proof fn lemma_catalog_from_shebang(
    files: Seq<(Seq<char>, Seq<char>)>,
    i: int,
    out: Seq<(Seq<char>, Seq<char>)>,
)
    requires
        spec_catalog_from(files, i) == Ok::<Seq<(Seq<char>, Seq<char>)>, Seq<char>>(out),
    ensures
        forall|k: int| 0 <= k < out.len() ==> spec_has_shebang(#[trigger] out[k].1),
    decreases files.len() - i,
{
    if 0 <= i < files.len() {
        let f = files[i];
        if spec_is_candidate(f) {
            let flat = spec_flatten(files, parent_dir(f.0), f.1);
            lemma_flatten_shebang(files, parent_dir(f.0), f.1);
            let rest = spec_catalog_from(files, i + 1)->Ok_0;
            lemma_catalog_from_shebang(files, i + 1, rest);
            assert forall|k: int| 0 <= k < out.len() implies spec_has_shebang(
                #[trigger] out[k].1,
            ) by {
                if k > 0 {
                    assert(out[k] == rest[k - 1]);
                }
            }
        } else {
            lemma_catalog_from_shebang(files, i + 1, out);
        }
    }
}

/// The pipeline is deterministic: two runs over the same source tree
/// produce the same catalog, byte for byte.
pub proof fn lemma_catalog_deterministic(
    files1: Seq<(Seq<char>, Seq<char>)>,
    files2: Seq<(Seq<char>, Seq<char>)>,
    out1: Seq<(Seq<char>, Seq<char>)>,
    out2: Seq<(Seq<char>, Seq<char>)>,
)
    requires
        files1 == files2,
        spec_catalog(files1) == Ok::<Seq<(Seq<char>, Seq<char>)>, Seq<char>>(out1),
        spec_catalog(files2) == Ok::<Seq<(Seq<char>, Seq<char>)>, Seq<char>>(out2),
    ensures
        out1 == out2,
{
}

} // verus!
