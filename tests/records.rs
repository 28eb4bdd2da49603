use std::time::Duration;

use pacview::error::AppError;
use pacview::pman::{combine_packages, command_line};
use pacview::structs::{EventCommand, Package, PackageUpdate, TimedString};
use pacview::version::{ChangeType, Version};

fn named(name: &str, installed: bool) -> Package {
    Package {
        name: name.to_string(),
        installed: if installed { Some("today".to_string()) } else { None },
        ..Default::default()
    }
}

#[test]
fn version_parts() {
    let v = Version::parse("1:2.3.4.5.6-7");
    assert_eq!(v.raw, "1:2.3.4.5.6-7");
    assert_eq!(v.epoch, 1);
    assert_eq!(v.pkgver, 7);
    let w = Version::parse("2.3.4-1");
    assert_eq!(w.epoch, 0);
    assert_eq!(w.pkgver, 1);
}

#[test]
fn version_change_types() {
    let c = |a: &str, b: &str| Version::parse(a).change_type(&Version::parse(b));
    assert_eq!(c("1.2.3-1", "1.2.3-2"), ChangeType::Pkgver);
    assert_eq!(c("1.2.3.4-1", "1.2.3.5-1"), ChangeType::Revision);
    assert_eq!(c("1.2.3-1", "1.2.4-1"), ChangeType::Patch);
    assert_eq!(c("1.2.3-1", "1.3.0-1"), ChangeType::Minor);
    assert_eq!(c("1.2.3-1", "2.0.0-1"), ChangeType::Major);
    assert_eq!(c("1.2.3-1", "1:1.2.3-1"), ChangeType::Epoch);
    assert!(ChangeType::Major.at_least(&ChangeType::Minor));
    assert!(!ChangeType::Patch.at_least(&ChangeType::Minor));
}

#[test]
fn version_without_release() {
    let v = Version::parse("abc");
    assert_eq!(v.epoch, 0);
    assert_eq!(v.pkgver, 0);
    assert_eq!(Version::parse("1.0-x").pkgver, 0);
}

#[test]
fn combine_merges_sorts_and_attaches() {
    let installed = vec![named("b10", true), named("b2", true)];
    let all = vec![named("a", false), named("b2", false), named("c", false)];
    let updates = vec![PackageUpdate {
        name: "b2".to_string(),
        current_version: "1".to_string(),
        new_version: "2".to_string(),
        change_type: ChangeType::Major,
    }];
    let provides = vec![("a".to_string(), vec!["/usr/bin/a".to_string()])];
    let r = combine_packages(installed, all, updates, provides);
    let names: Vec<&str> = r.iter().map(|p| p.name.as_str()).collect();
    assert_eq!(names, vec!["a", "b2", "b10", "c"]);
    assert_eq!(r[1].new_version.as_deref(), Some("2"));
    assert_eq!(r[1].change_type, Some(ChangeType::Major));
    assert!(r[1].installed.is_some());
    assert_eq!(r[0].provides, vec!["/usr/bin/a".to_string()]);
    assert!(r[2].new_version.is_none());
}

#[test]
fn command_lines() {
    let ok = command_line(EventCommand::RemoveSelected(vec!["x".to_string(), "y".to_string()])).unwrap();
    assert_eq!(ok, vec!["pacman", "-R", "x", "y"]);
    assert_eq!(command_line(EventCommand::SyncDatabase).unwrap(), vec!["pacman", "-Sy"]);
    assert_eq!(command_line(EventCommand::SyncAndUpdateAll).unwrap(), vec!["pacman", "-Syu"]);
    match command_line(EventCommand::InstallOrUpdateSelected(vec![])) {
        Err(AppError::Other(m)) => assert_eq!(m, "No packages selected"),
        other => panic!("unexpected {other:?}"),
    }
}

#[test]
fn error_messages() {
    assert_eq!(AppError::Other("boom".to_string()).message(), "Error: boom");
    let io = std::io::Error::new(std::io::ErrorKind::NotFound, "missing");
    assert_eq!(AppError::from(io).message(), "Command Error: missing");
    let bad = String::from_utf8(vec![0xff]).unwrap_err();
    assert!(AppError::from(bad).message().starts_with("String Conversion Error: "));
}

#[test]
fn timed_string_shows_then_expires() {
    let t = TimedString::new("hello", Duration::from_secs(60));
    assert_eq!(t.length(), 5);
    assert_eq!(t.as_str(), "hello");
    let gone = TimedString::new("bye", Duration::from_secs(0));
    let mut spin = 0u64;
    for i in 0..100_000u64 {
        spin = spin.wrapping_add(i);
    }
    assert!(spin > 0);
    assert_eq!(gone.length(), 0);
    assert_eq!(gone.as_str(), "");
}

const REPORT: &str = "Name            : bash\r
Version         : 5.2.026-2\r
Description     : The GNU Bourne Again shell\r
Depends On      : readline  libreadline.so=8-64  glibc\r
Optional For    : None\r
Required By     : base  bzip2\r
Install Date    : Mon Jan  8 10:15:42 2024\r
Install Reason  : Explicitly installed\r
Validated By    : Signature\r
\r
Name            : zlib\r
Version         : 1:1.3.1-1\r
Depends On      : None\r
Install Reason  : Installed as a dependency for another package\r
Install Date    : not a date\r
Validated By    : None\r
zlib /usr/lib/libz.so\r
";

#[test]
fn package_report_fields() {
    let packs = pacview::report::parse_packages(REPORT);
    assert_eq!(packs.len(), 2);
    let bash = &packs[0];
    assert_eq!(bash.name, "bash");
    assert_eq!(bash.version, "5.2.026-2");
    assert_eq!(bash.description, "The GNU Bourne Again shell");
    assert_eq!(bash.dependencies, vec!["readline", "libreadline.so=8-64", "glibc"]);
    assert!(bash.optional_for.is_empty());
    assert_eq!(bash.required_by, vec!["base", "bzip2"]);
    assert_eq!(bash.installed.as_deref(), Some("2024-01-08 10:15:42"));
    assert_eq!(bash.reason, pacview::structs::Reason::Explicit);
    assert!(bash.validated);
    let zlib = &packs[1];
    assert_eq!(zlib.name, "zlib");
    assert!(zlib.dependencies.is_empty());
    assert_eq!(zlib.reason, pacview::structs::Reason::Dependency);
    assert_eq!(zlib.installed.as_deref(), Some("not a date"));
    assert!(!zlib.validated);
    assert_eq!(zlib.provides, vec!["/usr/lib/libz.so"]);
}

#[test]
fn package_report_other_reason_and_empty_text() {
    let packs = pacview::report::parse_packages("Name : x\nInstall Reason : Something else\n");
    assert_eq!(packs.len(), 1);
    assert_eq!(packs[0].reason, pacview::structs::Reason::Other("Something else".to_string()));
    let none = pacview::report::parse_packages("");
    assert_eq!(none.len(), 1);
    assert_eq!(none[0].name, "");
}

#[test]
fn update_report_lines() {
    let ups = pacview::report::parse_updates("bash 5.2.026-1 -> 5.2.026-2\nlinux 6.6.1.arch1-1 -> 6.7.0.arch1-1\nbroken line\n");
    assert_eq!(ups.len(), 2);
    assert_eq!(ups[0].name, "bash");
    assert_eq!(ups[0].current_version, "5.2.026-1");
    assert_eq!(ups[0].new_version, "5.2.026-2");
    assert_eq!(ups[0].change_type, ChangeType::Pkgver);
    assert_eq!(ups[1].change_type, ChangeType::Minor);
}

#[test]
fn provides_report_groups_by_package() {
    let groups = pacview::report::parse_provides("a /usr/\na /usr/bin/a\nb /etc/b.conf\na /usr/share/a\nnospace\n");
    assert_eq!(groups.len(), 2);
    assert_eq!(groups[0].0, "a");
    assert_eq!(groups[0].1, vec!["/usr/", "/usr/bin/a", "/usr/share/a"]);
    assert_eq!(groups[1].0, "b");
    assert_eq!(groups[1].1, vec!["/etc/b.conf"]);
}

#[test]
fn timed_string_given_expiry() {
    let t = TimedString::new("héllo", Duration::from_secs(60));
    assert_eq!(t.length_when(false), 6);
    assert_eq!(t.length_when(true), 0);
    assert_eq!(t.text_when(false), "héllo");
    assert_eq!(t.text_when(true), "");
    assert!(!t.is_expired());
}
