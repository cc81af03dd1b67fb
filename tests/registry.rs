use tool_supervisor::{OutputRelay, Probe, ProcessManager, Stream};

fn started(names: &[(&str, u32)]) -> ProcessManager<u32> {
    let mut m = ProcessManager::new();
    for (name, h) in names {
        let (prev, res) = m.start_tool(name.to_string(), Ok(*h));
        assert_eq!(prev, None);
        assert_eq!(res, Ok(()));
    }
    m
}

#[test]
fn new_registry_holds_nothing() {
    let mut m: ProcessManager<u32> = ProcessManager::new();
    assert_eq!(m.stop_tool("parser"), None);
    assert!(m.stop_all().is_empty());
}

#[test]
fn start_then_stop_hands_back_the_handle() {
    let mut m = started(&[("parser", 1)]);
    assert_eq!(m.stop_tool("parser"), Some(1));
    assert_eq!(m.stop_tool("parser"), None);
}

#[test]
fn restart_replaces_the_previous_handle() {
    let mut m = started(&[("parser", 1)]);
    let (prev, res) = m.start_tool("parser".to_string(), Ok(2));
    assert_eq!(prev, Some(1));
    assert_eq!(res, Ok(()));
    assert_eq!(m.stop_tool("parser"), Some(2));
    assert_eq!(m.stop_tool("parser"), None);
}

#[test]
fn failed_restart_still_removes_the_previous_handle() {
    let mut m = started(&[("parser", 1), ("viewer", 5)]);
    let (prev, res) = m.start_tool("parser".to_string(), Err("No such file or directory".to_string()));
    assert_eq!(prev, Some(1));
    assert_eq!(res, Err("No such file or directory".to_string()));
    assert_eq!(m.stop_tool("parser"), None);
    assert_eq!(m.stop_tool("viewer"), Some(5));
}

#[test]
fn failed_first_start_registers_nothing() {
    let mut m: ProcessManager<u32> = ProcessManager::new();
    let (prev, res) = m.start_tool("parser".to_string(), Err("denied".to_string()));
    assert_eq!(prev, None);
    assert_eq!(res, Err("denied".to_string()));
    assert!(m.stop_all().is_empty());
}

#[test]
fn stopping_an_absent_tool_changes_nothing() {
    let mut m = started(&[("viewer", 3)]);
    assert_eq!(m.stop_tool("parser"), None);
    assert_eq!(m.stop_tool("parser"), None);
    assert_eq!(m.stop_all(), vec![3]);
}

#[test]
fn exited_child_is_reaped_on_check() {
    let mut m = started(&[("parser", 7)]);
    let h = m.stop_tool("parser").unwrap();
    assert!(!m.is_running("parser".to_string(), h, Probe::Exited));
    assert_eq!(m.stop_tool("parser"), None);
}

#[test]
fn failed_probe_counts_as_exited() {
    let mut m = started(&[("parser", 7)]);
    let h = m.stop_tool("parser").unwrap();
    assert!(!m.is_running("parser".to_string(), h, Probe::Failed));
    assert!(m.stop_all().is_empty());
}

#[test]
fn running_child_stays_registered() {
    let mut m = started(&[("parser", 7)]);
    let h = m.stop_tool("parser").unwrap();
    assert!(m.is_running("parser".to_string(), h, Probe::Running));
    assert_eq!(m.stop_tool("parser"), Some(7));
}

#[test]
fn stop_all_empties_the_registry() {
    let mut m = started(&[("parser", 1), ("viewer", 2), ("editor", 3)]);
    let mut handles = m.stop_all();
    handles.sort();
    assert_eq!(handles, vec![1, 2, 3]);
    assert_eq!(m.stop_tool("parser"), None);
    assert_eq!(m.stop_tool("viewer"), None);
    assert_eq!(m.stop_tool("editor"), None);
    assert!(m.stop_all().is_empty());
}

#[test]
fn at_most_one_handle_per_name_after_a_sequence() {
    let mut m: ProcessManager<u32> = ProcessManager::new();
    let _ = m.start_tool("parser".to_string(), Ok(1));
    let _ = m.start_tool("parser".to_string(), Ok(2));
    let _ = m.start_tool("viewer".to_string(), Ok(3));
    let _ = m.stop_tool("viewer");
    let _ = m.start_tool("parser".to_string(), Ok(4));
    let _ = m.start_tool("viewer".to_string(), Ok(5));
    let mut handles = m.stop_all();
    handles.sort();
    assert_eq!(handles, vec![4, 5]);
}

#[test]
fn parser_prints_one_line_and_exits() {
    let mut m: ProcessManager<u32> = ProcessManager::new();
    let (_, res) = m.start_tool("parser".to_string(), Ok(11));
    assert_eq!(res, Ok(()));
    let mut out = OutputRelay::new("parser".to_string(), Stream::Stdout);
    let events = out.on_chunk(b"parsed 3 saves\n");
    out.on_close();
    assert_eq!(events.len(), 1);
    assert_eq!(events[0].tool, "parser");
    assert_eq!(events[0].message, "parsed 3 saves");
    assert_eq!(events[0].stream, Stream::Stdout);
    let h = m.stop_tool("parser").unwrap();
    assert!(!m.is_running("parser".to_string(), h, Probe::Exited));
    assert_eq!(m.stop_tool("parser"), None);
}

#[test]
fn viewer_stopped_right_after_start() {
    let mut m: ProcessManager<u32> = ProcessManager::new();
    let (_, res) = m.start_tool("viewer".to_string(), Ok(21));
    assert_eq!(res, Ok(()));
    assert_eq!(m.stop_tool("viewer"), Some(21));
    // a liveness check finds nothing to probe
    assert_eq!(m.stop_tool("viewer"), None);
}
