use cgroup_reclaim::discover::cgroup_name_matches;
use cgroup_reclaim::discover::contains_bytes;
use cgroup_reclaim::discover::scope_pattern;

#[test]
fn pattern_appends_scope_suffix() {
    assert_eq!(scope_pattern(b"vm7"), b"vm7.scope".to_vec());
    assert_eq!(scope_pattern(b""), b".scope".to_vec());
}

#[test]
fn contains_finds_runs_anywhere() {
    assert!(contains_bytes(b"machine-qemu.scope", b"qemu.scope"));
    assert!(contains_bytes(b"abc", b"abc"));
    assert!(contains_bytes(b"abc", b""));
    assert!(!contains_bytes(b"abc", b"abcd"));
    assert!(!contains_bytes(b"machine-qemu.slice", b"qemu.scope"));
    assert!(!contains_bytes(b"", b"x"));
}

#[test]
fn domain_name_matching() {
    assert!(cgroup_name_matches(
        b"/sys/fs/cgroup/machine.slice/machine-qemu-vm7.scope",
        b"vm7"
    ));
    assert!(!cgroup_name_matches(
        b"/sys/fs/cgroup/machine.slice/machine-qemu-vm8.scope",
        b"vm7"
    ));
    // The rule is plain containment: the domain alone is not enough.
    assert!(!cgroup_name_matches(b"machine-vm7", b"vm7"));
}
