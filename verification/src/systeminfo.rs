//! The system identification probe: parses the platform metadata
//! text (an `/etc/os-release`-style file of `KEY=VALUE` lines) into a
//! normalized descriptor, and resolves the distribution id to a known
//! package manager where one exists.
//!
//! Reading the metadata file is the surrounding program's business;
//! it hands the file's text in as a plain value. A missing file is a
//! violated platform precondition and is fatal there; a missing `ID`
//! or `PRETTY_NAME` entry is a soft absence resolved here to the
//! literal fallback `"unknown"`.

use vstd::prelude::*;

use crate::strutil::{
    find_char_from, find_from, spec_lines, spec_lower, split_lines, str_eq, to_lowercase,
};
use crate::systeminfo::packagemanagers::PackageManager;

pub mod packagemanagers;

verus! {

/// A metadata value with at most one layer of surrounding double
/// quotes removed.
pub open spec fn unquote(v: Seq<char>) -> Seq<char> {
    if v.len() >= 2 && v[0] == '"' && v[v.len() - 1] == '"' {
        v.subrange(1, v.len() - 1)
    } else {
        v
    }
}

/// One parsed metadata line: split at the first `=`, the key
/// lower-cased, the value unquoted. A line without `=` parses to
/// nothing.
pub open spec fn parse_line(line: Seq<char>) -> Option<(Seq<char>, Seq<char>)> {
    let e = find_from(line, 0, '=');
    if e == line.len() {
        None
    } else {
        Some((spec_lower(line.subrange(0, e)), unquote(line.subrange(e + 1, line.len() as int))))
    }
}

/// The key/value entries of the metadata lines from index `i` on,
/// in line order, lines without `=` skipped.
pub open spec fn parsed_from(lines: Seq<Seq<char>>, i: int) -> Seq<(Seq<char>, Seq<char>)>
    decreases lines.len() - i,
{
    if i < 0 || i >= lines.len() {
        Seq::empty()
    } else {
        match parse_line(lines[i]) {
            Some(kv) => seq![kv] + parsed_from(lines, i + 1),
            None => parsed_from(lines, i + 1),
        }
    }
}

/// All key/value entries of the metadata text, in line order.
pub open spec fn spec_os_pairs(contents: Seq<char>) -> Seq<(Seq<char>, Seq<char>)> {
    parsed_from(spec_lines(contents), 0)
}

/// Parses the platform metadata text: each line split at its first
/// `=`, the key lower-cased, the value stripped of one layer of
/// surrounding double quotes; lines without `=` are skipped.
pub fn get_os_info(contents: &str) -> (r: Vec<(String, String)>)
    ensures
        r.deep_view() == spec_os_pairs(contents@),
{
    let ghost sl = spec_lines(contents@);
    let lines = split_lines(contents);
    let n = lines.len();
    let mut r: Vec<(String, String)> = Vec::new();
    let mut i: usize = 0;
    while i < n
        invariant
            i <= n,
            n == lines.len(),
            lines.deep_view() == sl,
            sl == spec_lines(contents@),
            spec_os_pairs(contents@) == r.deep_view() + parsed_from(sl, i as int),
        decreases n - i,
    {
        let line: &String = &lines[i];
        proof {
            assert(line@ == sl[i as int]);
        }
        let nl = line.as_str().unicode_len();
        let e = find_char_from(line.as_str(), 0, '=');
        proof {
            crate::strutil::lemma_find_from(line@, 0, '=');
        }
        if e < nl {
            let key = to_lowercase(line.as_str().substring_char(0, e));
            let rawv = line.as_str().substring_char(e + 1, nl);
            let vn = rawv.unicode_len();
            let value = if vn >= 2 && rawv.get_char(0) == '"' && rawv.get_char(vn - 1) == '"' {
                rawv.substring_char(1, vn - 1).to_owned()
            } else {
                rawv.to_owned()
            };
            let ghost dv_old = r.deep_view();
            let ghost kv = (key@, value@);
            r.push((key, value));
            proof {
                assert(parse_line(line@) == Some(kv));
                assert(r.deep_view() =~= dv_old.push(kv));
                assert(dv_old + (seq![kv] + parsed_from(sl, i as int + 1)) =~= dv_old.push(kv)
                    + parsed_from(sl, i as int + 1));
            }
        } else {
            proof {
                assert(parse_line(line@) is None);
            }
        }
        i = i + 1;
    }
    proof {
        assert(r.deep_view() + Seq::<(Seq<char>, Seq<char>)>::empty() =~= r.deep_view());
    }
    r
}

/// The value of the last entry with the given key, if any.
pub open spec fn last_value(pairs: Seq<(Seq<char>, Seq<char>)>, key: Seq<char>) -> Option<
    Seq<char>,
>
    decreases pairs.len(),
{
    if pairs.len() == 0 {
        None
    } else if pairs.last().0 == key {
        Some(pairs.last().1)
    } else {
        last_value(pairs.drop_last(), key)
    }
}

/// Finds the value of the last entry with the given key.
fn lookup_value<'a>(pairs: &'a Vec<(String, String)>, key: &str) -> (r: Option<&'a String>)
    ensures
        match r {
            Some(v) => last_value(pairs.deep_view(), key@) == Some(v@),
            None => last_value(pairs.deep_view(), key@) is None,
        },
{
    let n = pairs.len();
    let mut i = n;
    proof {
        assert(pairs.deep_view().take(n as int) =~= pairs.deep_view());
    }
    while i > 0
        invariant
            i <= n,
            n == pairs.len(),
            last_value(pairs.deep_view(), key@) == last_value(
                pairs.deep_view().take(i as int),
                key@,
            ),
        decreases i,
    {
        proof {
            assert(pairs.deep_view().take(i as int).last() == pairs.deep_view()[i - 1]);
            assert(pairs.deep_view().take(i as int).drop_last() =~= pairs.deep_view().take(
                i - 1,
            ));
        }
        if str_eq(pairs[i - 1].0.as_str(), key) {
            return Some(&pairs[i - 1].1);
        }
        i = i - 1;
    }
    None
}

/// The metadata field under `key`, or the fallback `"unknown"` when
/// no line defines it.
pub open spec fn spec_os_field(contents: Seq<char>, key: Seq<char>) -> Seq<char> {
    match last_value(spec_os_pairs(contents), key) {
        Some(v) => v,
        None => "unknown"@,
    }
}

/// The normalized distribution id: the `id` field of the metadata
/// text, lower-cased.
pub open spec fn spec_distro_id(contents: Seq<char>) -> Seq<char> {
    spec_lower(spec_os_field(contents, "id"@))
}

/// The normalized lowercase distribution id and the display name from
/// the metadata text, each falling back to `"unknown"` when absent.
pub fn get_distribution(contents: &str) -> (r: (String, String))
    ensures
        r.0@ == spec_distro_id(contents@),
        r.1@ == spec_os_field(contents@, "pretty_name"@),
{
    let pairs = get_os_info(contents);
    let raw_id = match lookup_value(&pairs, "id") {
        Some(v) => v.clone(),
        None => String::from_str("unknown"),
    };
    let id = to_lowercase(raw_id.as_str());
    let pretty_name = match lookup_value(&pairs, "pretty_name") {
        Some(v) => v.clone(),
        None => String::from_str("unknown"),
    };
    (id, pretty_name)
}

/// The package manager's invocation name for a distribution id, from
/// the fixed table of supported distributions; absence of a match is
/// a normal state, never an error.
pub open spec fn spec_package_manager(distro: Seq<char>) -> Option<Seq<char>> {
    if distro == "fedora"@ {
        Some("dnf"@)
    } else if distro == "debian"@ {
        Some("apt-get"@)
    } else if distro == "arch"@ {
        Some("pacman"@)
    } else if distro == "opensuse"@ {
        Some("zypper"@)
    } else {
        None
    }
}

/// Maps a normalized distribution id to its package manager's
/// invocation name, or to nothing when the id is not in the table.
pub fn get_package_manager(distro: &str) -> (r: Option<&'static str>)
    ensures
        match r {
            Some(name) => spec_package_manager(distro@) == Some(name@),
            None => spec_package_manager(distro@) is None,
        },
{
    if str_eq(distro, "fedora") {
        Some("dnf")
    } else if str_eq(distro, "debian") {
        Some("apt-get")
    } else if str_eq(distro, "arch") {
        Some("pacman")
    } else if str_eq(distro, "opensuse") {
        Some("zypper")
    } else {
        None
    }
}

/// The manager capability derived from the metadata text: the
/// normalized id's table entry resolved to a manager, or nothing.
pub open spec fn spec_resolved_manager(contents: Seq<char>) -> Option<PackageManager> {
    match spec_package_manager(spec_distro_id(contents)) {
        Some(name) => packagemanagers::spec_get(name),
        None => None,
    }
}

/// The host system's identity: normalized distribution id, display
/// name, and the optional package-manager capability. Built once at
/// process start from the platform metadata text; immutable after.
pub struct System {
    pub id: String,
    pub pretty_name: String,
    pub package_manager: Option<PackageManager>,
}

impl System {
    /// Builds the descriptor from the platform metadata text: the
    /// lower-cased id and the display name, each with the `"unknown"`
    /// fallback, and the package manager resolved from the normalized
    /// id, absent when the id has no entry in the table.
    pub fn info(os_release: &str) -> (s: System)
        ensures
            s.id@ == spec_distro_id(os_release@),
            s.pretty_name@ == spec_os_field(os_release@, "pretty_name"@),
            s.package_manager == spec_resolved_manager(os_release@),
    {
        let (id, pretty_name) = get_distribution(os_release);
        let package_manager = match get_package_manager(id.as_str()) {
            Some(name) => packagemanagers::get(name),
            None => None,
        };
        System { id, pretty_name, package_manager }
    }
}

/// A distribution id outside the fixed table yields no package
/// manager capability: absence is a represented state, not an error.
pub proof fn lemma_unknown_id_no_manager(contents: Seq<char>)
    requires
        spec_package_manager(spec_distro_id(contents)) is None,
    ensures
        spec_resolved_manager(contents) is None,
{
}

} // verus!
