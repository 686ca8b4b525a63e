use kernel_core::boot::{BootError, DtbEvent, HartDiscovery, WalkOp};

fn subnode(path_is_root: bool, path_name: &str, name: &str) -> DtbEvent {
    DtbEvent::SubNode {
        path_is_root,
        path_name: path_name.as_bytes().to_vec(),
        name: name.as_bytes().to_vec(),
    }
}

fn status(path_name: &str, okay: bool) -> DtbEvent {
    DtbEvent::StatusProperty { path_name: path_name.as_bytes().to_vec(), okay }
}

#[test]
fn discovers_and_starts_all_but_the_last_pending_hart() {
    let mut d = HartDiscovery::new();
    assert_eq!(d.step(&subnode(true, "", "chosen")), Ok((WalkOp::StepOver, None)));
    assert_eq!(d.step(&subnode(true, "", "cpus")), Ok((WalkOp::StepInto, None)));
    assert!(d.in_cpus);
    assert_eq!(d.step(&subnode(false, "cpus", "cpu@0")), Ok((WalkOp::StepInto, None)));
    assert_eq!(d.pending, Some(0));
    assert_eq!(d.step(&DtbEvent::OtherProperty), Ok((WalkOp::StepOver, None)));
    assert_eq!(d.step(&status("cpu@0", true)), Ok((WalkOp::StepOver, None)));
    // The next processor node releases the previous candidate.
    assert_eq!(d.step(&subnode(false, "cpus", "cpu@1")), Ok((WalkOp::StepInto, Some(0))));
    assert_eq!(d.step(&subnode(false, "cpus", "cpu@2")), Ok((WalkOp::StepInto, Some(1))));
    // Leaving the cpus section ends the walk and releases the last one.
    assert_eq!(d.step(&subnode(true, "", "memory")), Ok((WalkOp::Terminate, Some(2))));
    assert_eq!(d.pending, None);
}

#[test]
fn a_bare_cpu_node_means_single_core() {
    let mut d = HartDiscovery::new();
    d.step(&subnode(true, "", "cpus")).unwrap();
    assert_eq!(d.step(&subnode(false, "cpus", "cpu")), Ok((WalkOp::Terminate, None)));
}

#[test]
fn a_disabled_hart_is_dropped_not_started() {
    let mut d = HartDiscovery::new();
    d.step(&subnode(true, "", "cpus")).unwrap();
    d.step(&subnode(false, "cpus", "cpu@3")).unwrap();
    assert_eq!(d.pending, Some(3));
    assert_eq!(d.step(&status("cpu@3", false)), Ok((WalkOp::StepOut, None)));
    assert_eq!(d.pending, None);
    // Nothing left to start when the walk ends.
    assert_eq!(d.step(&subnode(true, "", "memory")), Ok((WalkOp::Terminate, None)));
}

#[test]
fn nodes_before_cpus_are_skipped() {
    let mut d = HartDiscovery::new();
    assert_eq!(d.step(&subnode(true, "", "memory")), Ok((WalkOp::StepOver, None)));
    assert!(!d.in_cpus);
    assert_eq!(d.step(&subnode(false, "soc", "uart@10000000")), Ok((WalkOp::StepOver, None)));
}

#[test]
fn hart_ids_parse_as_hexadecimal() {
    let mut d = HartDiscovery::new();
    d.step(&subnode(true, "", "cpus")).unwrap();
    d.step(&subnode(false, "cpus", "cpu@1f")).unwrap();
    assert_eq!(d.pending, Some(0x1f));
    assert_eq!(d.step(&subnode(false, "cpus", "cpu@2B")), Ok((WalkOp::StepInto, Some(0x1f))));
    assert_eq!(d.pending, Some(0x2b));
}

#[test]
fn malformed_hart_ids_are_an_error() {
    let mut d = HartDiscovery::new();
    d.step(&subnode(true, "", "cpus")).unwrap();
    assert_eq!(d.step(&subnode(false, "cpus", "cpu@")), Err(BootError::MalformedCpuId));
    assert_eq!(d.step(&subnode(false, "cpus", "cpu@1x")), Err(BootError::MalformedCpuId));
    // 17 hex digits overflow the machine word.
    assert_eq!(
        d.step(&subnode(false, "cpus", "cpu@1ffffffffffffffff")),
        Err(BootError::MalformedCpuId)
    );
    // A name that is not cpu@... is just another node to skip.
    assert_eq!(d.step(&subnode(false, "cpus", "cpu-map")), Ok((WalkOp::StepOver, None)));
}

#[test]
fn status_elsewhere_is_ignored() {
    let mut d = HartDiscovery::new();
    d.step(&subnode(true, "", "cpus")).unwrap();
    d.step(&subnode(false, "cpus", "cpu@4")).unwrap();
    assert_eq!(d.step(&status("flash@20000000", false)), Ok((WalkOp::StepOver, None)));
    assert_eq!(d.pending, Some(4));
}
