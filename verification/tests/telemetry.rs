use app_proxy::process_tree::{get_system_process_tree, AppProxyProcessNode};
use app_proxy::telemetry::{
    get_system_process_detail, get_system_tcp_connections, ipv4_string, pid_label, port_from_network,
    tcp_state_to_str, ProcessSnapshot, RawProcessInfo, TcpRow,
};

fn process(pid: u32, parent_pid: u32, name: &str) -> RawProcessInfo {
    RawProcessInfo { pid, parent_pid, name: name.into(), image_path: None }
}

fn snapshot_of(list: Vec<RawProcessInfo>) -> ProcessSnapshot {
    let mut snapshot = ProcessSnapshot::new();
    for p in list {
        snapshot.insert(p);
    }
    snapshot
}

fn count_nodes(nodes: &[AppProxyProcessNode]) -> usize {
    nodes.iter().map(|n| 1 + count_nodes(&n.children)).sum()
}

#[test]
fn test_system_telemetry_queries() {
    let snapshot = snapshot_of(vec![
        process(0, 0, "System Idle Process"),
        process(4, 0, "System"),
        process(900, 4, "smss.exe"),
        process(1200, 800, "explorer.exe"),
        process(1300, 1200, "msedge.exe"),
    ]);
    let rows = vec![
        TcpRow { pid: 1300, state: 5, local_addr: [192, 168, 1, 2], local_port: [0xC0, 0x01], remote_addr: [93, 184, 216, 34], remote_port: [0x01, 0xBB] },
        TcpRow { pid: 4, state: 2, local_addr: [0, 0, 0, 0], local_port: [0, 135], remote_addr: [0, 0, 0, 0], remote_port: [0, 0] },
    ];
    let conns = get_system_tcp_connections(&snapshot, &rows);
    let tree = get_system_process_tree(&snapshot);

    println!("Found {} active TCP connections", conns.len());
    println!("Found {} root processes in process tree", tree.len());

    assert!(!tree.is_empty(), "system process tree should not be empty");
    assert_eq!(count_nodes(&tree), 5);
    let roots: Vec<(u32, &str)> = tree.iter().map(|n| (n.pid, n.name.as_str())).collect();
    assert_eq!(roots, vec![(0, "System Idle Process"), (1200, "explorer.exe")]);
    assert_eq!(tree[0].children[0].pid, 4);
    assert_eq!(tree[0].children[0].children[0].name, "smss.exe");
    assert_eq!(tree[1].children[0].name, "msedge.exe");
    assert_eq!(conns.len(), 2);
    for c in &conns {
        assert!(!c.hijacked, "unmanaged connection should have hijacked = false");
        assert_eq!(c.proxy_status.as_deref(), Some("DIRECT"));
    }
    assert_eq!(conns[0].process_name, "msedge.exe");
    assert_eq!(conns[0].dest.as_deref(), Some("93.184.216.34:443"));
    assert_eq!(conns[0].local_port, 49153);
    assert_eq!((conns[1].process_name.as_str(), conns[1].state.as_str()), ("System", "LISTEN"));
}

#[test]
fn tcp_state_names() {
    assert_eq!(tcp_state_to_str(1), "CLOSED");
    assert_eq!(tcp_state_to_str(2), "LISTEN");
    assert_eq!(tcp_state_to_str(5), "ESTABLISHED");
    assert_eq!(tcp_state_to_str(11), "TIME_WAIT");
    assert_eq!(tcp_state_to_str(12), "DELETE_TCB");
    assert_eq!(tcp_state_to_str(0), "UNKNOWN");
    assert_eq!(tcp_state_to_str(13), "UNKNOWN");
}

#[test]
fn addresses_and_ports_from_network_order() {
    assert_eq!(ipv4_string(&[127, 0, 0, 1]), "127.0.0.1");
    assert_eq!(ipv4_string(&[192, 168, 10, 254]), "192.168.10.254");
    assert_eq!(port_from_network(&[0x1F, 0x90]), 8080);
    assert_eq!(port_from_network(&[0, 80]), 80);
    assert_eq!(pid_label(4242), "PID 4242");
}

#[test]
fn connections_are_named_and_direct() {
    let snapshot = snapshot_of(vec![process(300, 100, "chrome.exe")]);
    let rows = vec![
        TcpRow { pid: 300, state: 5, local_addr: [127, 0, 0, 1], local_port: [0, 80], remote_addr: [10, 0, 0, 2], remote_port: [0x1F, 0x90] },
        TcpRow { pid: 4, state: 2, local_addr: [0, 0, 0, 0], local_port: [0x01, 0xBB], remote_addr: [0, 0, 0, 0], remote_port: [0, 0] },
        TcpRow { pid: 0, state: 11, local_addr: [10, 1, 2, 3], local_port: [0, 1], remote_addr: [8, 8, 8, 8], remote_port: [0, 53] },
        TcpRow { pid: 777, state: 99, local_addr: [10, 1, 2, 3], local_port: [0, 2], remote_addr: [1, 1, 1, 1], remote_port: [1, 0] },
    ];
    let conns = get_system_tcp_connections(&snapshot, &rows);
    assert_eq!(conns.len(), 4);
    let c = &conns[0];
    assert_eq!(c.pid, 300);
    assert_eq!(c.process_name, "chrome.exe");
    assert_eq!((c.local_ip.as_str(), c.local_port), ("127.0.0.1", 80));
    assert_eq!((c.remote_ip.as_str(), c.remote_port), ("10.0.0.2", 8080));
    assert_eq!(c.state, "ESTABLISHED");
    assert_eq!(c.dest.as_deref(), Some("10.0.0.2:8080"));
    assert!(c.pid_alive);
    assert_eq!(conns[1].process_name, "System");
    assert_eq!(conns[1].local_port, 443);
    assert!(conns[1].pid_alive);
    assert_eq!(conns[2].process_name, "System Idle Process");
    assert_eq!(conns[2].state, "TIME_WAIT");
    assert_eq!(conns[3].process_name, "PID 777");
    assert_eq!(conns[3].state, "UNKNOWN");
    assert_eq!(conns[3].remote_port, 256);
    assert!(!conns[3].pid_alive);
    assert!(conns.iter().all(|c| !c.hijacked && c.proxy_status.as_deref() == Some("DIRECT")));
}

#[test]
fn process_detail_from_snapshot_or_query() {
    let mut chrome = process(300, 100, "chrome.exe");
    chrome.image_path = Some("C:\\chrome.exe".into());
    let snapshot = snapshot_of(vec![chrome, process(100, 50, "explorer.exe")]);
    let d = get_system_process_detail(&snapshot, 300, Some("ignored".into()));
    assert_eq!((d.pid, d.name.as_str(), d.parent_pid), (300, "chrome.exe", Some(100)));
    assert_eq!(d.image_path.as_deref(), Some("C:\\chrome.exe"));
    assert!(!d.hijacked && d.hijack_source.is_none() && d.cmdline.is_none());
    let d = get_system_process_detail(&snapshot, 100, Some("C:\\explorer.exe".into()));
    assert_eq!(d.image_path.as_deref(), Some("C:\\explorer.exe"));
    let d = get_system_process_detail(&snapshot, 999, None);
    assert_eq!((d.name.as_str(), d.parent_pid, d.image_path), ("PID 999", None, None));
}

#[test]
fn snapshot_keeps_one_entry_per_pid() {
    let snapshot = snapshot_of(vec![process(7, 1, "old"), process(8, 1, "b"), process(7, 2, "new")]);
    assert_eq!(snapshot.len(), 2);
    assert_eq!(snapshot.get(7).map(|p| p.name.as_str()), Some("new"));
    assert!(snapshot.get(9).is_none());
}

#[test]
fn process_tree_places_every_process_once() {
    let snapshot = snapshot_of(vec![
        process(0, 0, "System Idle Process"),
        process(4, 0, "System"),
        process(100, 50, "explorer.exe"),
        process(300, 100, "chrome.exe"),
        process(200, 100, "chrome.exe"),
        process(250, 100, "Code.exe"),
        process(500, 501, "loop-a"),
        process(501, 500, "loop-b"),
        process(600, 600, "self"),
    ]);
    let tree = get_system_process_tree(&snapshot);
    assert_eq!(count_nodes(&tree), 9);
    let roots: Vec<(u32, &str)> = tree.iter().map(|n| (n.pid, n.name.as_str())).collect();
    assert_eq!(roots, vec![(0, "System Idle Process"), (100, "explorer.exe"), (500, "loop-a"), (600, "self")]);
    assert_eq!(tree[0].children.len(), 1);
    assert_eq!(tree[0].children[0].pid, 4);
    let explorer: Vec<(u32, &str)> = tree[1].children.iter().map(|n| (n.pid, n.name.as_str())).collect();
    assert_eq!(explorer, vec![(250, "Code.exe"), (200, "chrome.exe"), (300, "chrome.exe")]);
    assert!(tree[1].children.iter().all(|c| c.parent_pid == 100 && c.children.is_empty()));
    assert_eq!(tree[2].children.len(), 1);
    assert_eq!(tree[2].children[0].pid, 501);
    assert!(tree[3].children.is_empty());
    assert!(tree.iter().all(|n| !n.hijacked && n.cmdline.is_none() && n.hijack_source.is_none()));
}

#[test]
fn process_tree_of_empty_snapshot_is_empty() {
    assert!(get_system_process_tree(&ProcessSnapshot::new()).is_empty());
}
