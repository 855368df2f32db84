use linutil_core::systeminfo::packagemanagers::{self, PackageManager};
use linutil_core::systeminfo::{get_distribution, get_os_info, get_package_manager, System};

#[test]
fn pretty_name_quotes_are_stripped() {
    let contents = "PRETTY_NAME=\"Ubuntu 22.04\"\nVERSION=22.04";
    let (id, pretty_name) = get_distribution(contents);
    assert_eq!(pretty_name, "Ubuntu 22.04");
    assert_eq!(id, "unknown");
}

#[test]
fn missing_id_falls_back_to_unknown() {
    let (id, pretty_name) = get_distribution("NAME=Something");
    assert_eq!(id, "unknown");
    assert_eq!(pretty_name, "unknown");
}

#[test]
fn keys_are_lowercased() {
    let pairs = get_os_info("ID=fedora\nPretty_Name=Fedora");
    assert_eq!(pairs.len(), 2);
    assert_eq!(pairs[0].0, "id");
    assert_eq!(pairs[0].1, "fedora");
    assert_eq!(pairs[1].0, "pretty_name");
    assert_eq!(pairs[1].1, "Fedora");
}

#[test]
fn split_happens_at_first_equals_only() {
    let pairs = get_os_info("VERSION_ID=22.04=x");
    assert_eq!(pairs[0].0, "version_id");
    assert_eq!(pairs[0].1, "22.04=x");
}

#[test]
fn only_one_quote_layer_is_stripped() {
    let pairs = get_os_info("A=\"\"inner\"\"");
    assert_eq!(pairs[0].1, "\"inner\"");
    let pairs = get_os_info("B=\"\"");
    assert_eq!(pairs[0].1, "");
    let pairs = get_os_info("C=\"");
    assert_eq!(pairs[0].1, "\"");
}

#[test]
fn lines_without_equals_are_skipped() {
    let pairs = get_os_info("garbage line\nID=arch\n\n# comment");
    assert_eq!(pairs.len(), 1);
    assert_eq!(pairs[0].0, "id");
    assert_eq!(pairs[0].1, "arch");
}

#[test]
fn id_is_normalized_to_lowercase() {
    let (id, _) = get_distribution("ID=Debian");
    assert_eq!(id, "debian");
    let sys = System::info("ID=Debian\nPRETTY_NAME=\"Debian GNU/Linux\"");
    assert_eq!(sys.id, "debian");
    assert_eq!(sys.package_manager, Some(PackageManager::AptGet));
}

#[test]
fn later_entries_win() {
    let (id, _) = get_distribution("ID=first\nID=second");
    assert_eq!(id, "second");
}

#[test]
fn debian_resolves_to_apt_get() {
    assert_eq!(get_package_manager("debian"), Some("apt-get"));
}

#[test]
fn unknown_distro_resolves_to_no_manager() {
    assert_eq!(get_package_manager("unknownos"), None);
}

#[test]
fn manager_table_is_exact() {
    assert_eq!(get_package_manager("fedora"), Some("dnf"));
    assert_eq!(get_package_manager("arch"), Some("pacman"));
    assert_eq!(get_package_manager("opensuse"), Some("zypper"));
    assert_eq!(get_package_manager("ubuntu"), None);
    assert_eq!(get_package_manager(""), None);
}

#[test]
fn manager_names_round_trip() {
    for pm in [
        PackageManager::Dnf,
        PackageManager::AptGet,
        PackageManager::Pacman,
        PackageManager::Zypper,
    ] {
        assert_eq!(packagemanagers::get(pm.name()), Some(pm));
    }
    assert_eq!(packagemanagers::get("brew"), None);
}

#[test]
fn info_builds_full_descriptor() {
    let sys = System::info("ID=arch\nPRETTY_NAME=\"Arch Linux\"");
    assert_eq!(sys.id, "arch");
    assert_eq!(sys.pretty_name, "Arch Linux");
    assert_eq!(sys.package_manager, Some(PackageManager::Pacman));
    assert_eq!(sys.package_manager.unwrap().name(), "pacman");
}

#[test]
fn info_without_table_entry_has_no_manager() {
    let sys = System::info("ID=gentoo\nPRETTY_NAME=Gentoo");
    assert_eq!(sys.id, "gentoo");
    assert_eq!(sys.package_manager, None);
}

#[test]
fn info_on_empty_metadata() {
    let sys = System::info("");
    assert_eq!(sys.id, "unknown");
    assert_eq!(sys.pretty_name, "unknown");
    assert_eq!(sys.package_manager, None);
}
