//! The fixed table of known package managers: a small sum type, one
//! variant per supported manager, each carrying its invocation name.

use vstd::prelude::*;

use crate::strutil::str_eq;

verus! {

/// A known package manager, identified by its invocation name.
#[derive(Debug, Clone, Copy, PartialEq, Eq, Structural)]
pub enum PackageManager {
    Dnf,
    AptGet,
    Pacman,
    Zypper,
}

/// The invocation name of each known package manager.
pub open spec fn spec_name(pm: PackageManager) -> Seq<char> {
    match pm {
        PackageManager::Dnf => "dnf"@,
        PackageManager::AptGet => "apt-get"@,
        PackageManager::Pacman => "pacman"@,
        PackageManager::Zypper => "zypper"@,
    }
}

/// The manager with the given invocation name, if it is known.
pub open spec fn spec_get(name: Seq<char>) -> Option<PackageManager> {
    if name == "dnf"@ {
        Some(PackageManager::Dnf)
    } else if name == "apt-get"@ {
        Some(PackageManager::AptGet)
    } else if name == "pacman"@ {
        Some(PackageManager::Pacman)
    } else if name == "zypper"@ {
        Some(PackageManager::Zypper)
    } else {
        None
    }
}

impl PackageManager {
    /// The name under which this manager is invoked.
    pub fn name(&self) -> (r: &'static str)
        ensures
            r@ == spec_name(*self),
    {
        match self {
            PackageManager::Dnf => "dnf",
            PackageManager::AptGet => "apt-get",
            PackageManager::Pacman => "pacman",
            PackageManager::Zypper => "zypper",
        }
    }
}

/// Looks a manager up by its invocation name.
pub fn get(name: &str) -> (r: Option<PackageManager>)
    ensures
        r == spec_get(name@),
{
    if str_eq(name, "dnf") {
        Some(PackageManager::Dnf)
    } else if str_eq(name, "apt-get") {
        Some(PackageManager::AptGet)
    } else if str_eq(name, "pacman") {
        Some(PackageManager::Pacman)
    } else if str_eq(name, "zypper") {
        Some(PackageManager::Zypper)
    } else {
        None
    }
}

/// Looking a manager up by its own name finds it: the table's names
/// are distinct and `get` inverts `name`.
pub proof fn lemma_get_name(pm: PackageManager)
    ensures
        spec_get(spec_name(pm)) == Some(pm),
{
    reveal_strlit("dnf");
    reveal_strlit("apt-get");
    reveal_strlit("pacman");
    reveal_strlit("zypper");
    match pm {
        PackageManager::Dnf => {},
        PackageManager::AptGet => {
            assert("apt-get"@.len() != "dnf"@.len());
        },
        PackageManager::Pacman => {
            assert("pacman"@.len() != "dnf"@.len());
            assert("pacman"@.len() != "apt-get"@.len());
        },
        PackageManager::Zypper => {
            assert("zypper"@.len() != "dnf"@.len());
            assert("zypper"@.len() != "apt-get"@.len());
            assert("zypper"@[0] != "pacman"@[0]);
        },
    }
}

} // verus!
