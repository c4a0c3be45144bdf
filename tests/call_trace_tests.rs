use call_trace::abi::{ContractEntry, EventEntry, FunctionEntry};
use call_trace::render::{RenderError, TraceLine};
use call_trace::trace::{CallTrace, LogRecord, TraceError};

fn frame(depth: usize, location: usize, addr: u8, data: Vec<u8>) -> CallTrace {
    CallTrace {
        depth,
        location,
        success: false,
        addr: [addr; 20],
        created: false,
        data,
        cost: 0,
        output: vec![],
        logs: vec![],
        inner: vec![],
    }
}

fn closing(depth: usize, location: usize, addr: u8, success: bool, output: Vec<u8>, cost: u64) -> CallTrace {
    CallTrace { success, output, cost, ..frame(depth, location, addr, vec![9]) }
}

fn log(topics: Vec<[u8; 32]>, data: Vec<u8>) -> LogRecord {
    LogRecord { topics, data }
}

/// Opens a call the way a tracer does: location first, then add.
fn open(root: &mut CallTrace, depth: usize, addr: u8) -> usize {
    let probe = frame(depth, 0, addr, vec![]);
    let location = root.location(&probe).unwrap();
    root.add_trace(frame(depth, location, addr, vec![])).unwrap();
    location
}

#[allow(deprecated)]
fn function(name: &str, inputs: Vec<ethers::abi::ParamType>) -> ethers::abi::Function {
    ethers::abi::Function {
        name: name.to_string(),
        inputs: inputs
            .into_iter()
            .map(|kind| ethers::abi::Param { name: "x".to_string(), kind, internal_type: None })
            .collect(),
        outputs: vec![],
        constant: None,
        state_mutability: ethers::abi::StateMutability::NonPayable,
    }
}

fn event(name: &str) -> ethers::abi::Event {
    ethers::abi::Event { name: name.to_string(), inputs: vec![], anonymous: false }
}

fn contract(name: &str, addr: u8, functions: Vec<FunctionEntry>, events: Vec<EventEntry>) -> ContractEntry {
    ContractEntry { name: name.to_string(), address: [addr; 20], functions, events }
}

#[test]
fn nested_open_then_close_in_reverse() {
    let mut root = frame(0, 0, 1, vec![]);
    assert_eq!(open(&mut root, 1, 2), 0);
    assert_eq!(open(&mut root, 2, 3), 0);
    root.update_trace(closing(2, 0, 3, true, vec![0xb], 30)).unwrap();
    root.update_trace(closing(1, 0, 2, false, vec![0xa], 20)).unwrap();
    root.update_trace(closing(0, 0, 1, true, vec![0x0], 10)).unwrap();
    assert_eq!(root.inner.len(), 1);
    let a = &root.inner[0];
    assert_eq!(a.inner.len(), 1);
    let b = &a.inner[0];
    assert!(root.success && !a.success && b.success);
    assert_eq!(root.output, vec![0x0]);
    assert_eq!(a.output, vec![0xa]);
    assert_eq!(b.output, vec![0xb]);
    assert_eq!((root.cost, a.cost, b.cost), (10, 20, 30));
    assert_eq!((a.depth, a.location, b.depth, b.location), (1, 0, 2, 0));
}

#[test]
fn add_two_levels_below_leaf_is_disconnected() {
    let mut root = frame(0, 0, 1, vec![]);
    open(&mut root, 1, 2);
    assert_eq!(root.add_trace(frame(3, 0, 3, vec![])), Err(TraceError::DisconnectedTrace));
    assert_eq!(root.location(&frame(3, 0, 3, vec![])), Err(TraceError::DisconnectedTrace));
    assert_eq!(root.inner.len(), 1);
    assert_eq!(root.inner[0].inner.len(), 0);
}

#[test]
fn add_root_fragment_changes_nothing() {
    let mut root = frame(0, 0, 1, vec![]);
    open(&mut root, 1, 2);
    assert_eq!(root.add_trace(frame(0, 0, 7, vec![5])), Ok(()));
    assert_eq!(root.addr, [1; 20]);
    assert_eq!(root.inner.len(), 1);
    assert_eq!(root.location(&frame(0, 0, 7, vec![])), Ok(0));
}

#[test]
fn stream_gives_one_frame_per_open_with_depths_and_locations() {
    let mut root = frame(0, 0, 1, vec![]);
    assert_eq!(open(&mut root, 1, 2), 0);
    assert_eq!(open(&mut root, 2, 3), 0);
    assert_eq!(open(&mut root, 2, 4), 1);
    root.update_trace(closing(2, 1, 4, true, vec![], 1)).unwrap();
    root.update_trace(closing(2, 0, 3, true, vec![], 1)).unwrap();
    root.update_trace(closing(1, 0, 2, true, vec![], 1)).unwrap();
    assert_eq!(open(&mut root, 1, 5), 1);
    assert_eq!(root.inner_number_of_inners(), 4);
    for (i, child) in root.inner.iter().enumerate() {
        assert_eq!((child.depth, child.location), (1, i));
    }
    for (i, child) in root.inner[0].inner.iter().enumerate() {
        assert_eq!((child.depth, child.location), (2, i));
    }
    assert_eq!(root.inner[0].inner[1].addr, [4; 20]);
}

#[test]
fn update_twice_keeps_values() {
    let mut root = frame(0, 0, 1, vec![]);
    open(&mut root, 1, 2);
    open(&mut root, 1, 3);
    let fragment = || CallTrace {
        logs: vec![log(vec![[7; 32]], vec![1, 2])],
        ..closing(1, 1, 3, true, vec![4, 5], 77)
    };
    root.update_trace(fragment()).unwrap();
    root.update_trace(fragment()).unwrap();
    let c = &root.inner[1];
    assert!(c.success);
    assert_eq!((c.cost, c.output.clone(), c.logs.len()), (77, vec![4, 5], 1));
    assert_eq!(c.logs[0].data, vec![1, 2]);
    assert_eq!(root.inner[0].cost, 0);
    assert_eq!(root.inner.len(), 2);
}

#[test]
fn update_unknown_location_is_disconnected() {
    let mut root = frame(0, 0, 1, vec![]);
    open(&mut root, 1, 2);
    assert_eq!(root.update_trace(closing(1, 3, 2, true, vec![], 1)), Err(TraceError::DisconnectedTrace));
    assert_eq!(root.update_trace(closing(3, 0, 2, true, vec![], 1)), Err(TraceError::DisconnectedTrace));
    assert!(!root.inner[0].success);
}

#[test]
fn descendant_calls_are_children_plus_their_descendants() {
    let mut root = frame(0, 0, 1, vec![]);
    open(&mut root, 1, 2);
    open(&mut root, 2, 3);
    open(&mut root, 2, 4);
    open(&mut root, 1, 5);
    assert_eq!(root.inner_number_of_inners(), 4);
    assert_eq!(root.inner[0].inner_number_of_inners(), 2);
    assert_eq!(root.inner[1].inner_number_of_inners(), 0);
}

#[test]
fn total_logs_counts_every_frame() {
    let mut root = frame(0, 0, 1, vec![]);
    root.logs = vec![log(vec![], vec![])];
    open(&mut root, 1, 2);
    open(&mut root, 2, 3);
    root.inner[0].logs = vec![log(vec![], vec![]), log(vec![], vec![])];
    root.inner[0].inner[0].logs = vec![log(vec![], vec![]); 3];
    assert_eq!(root.inner_number_of_logs(), 6);
    assert_eq!(root.inner[0].inner_number_of_logs(), 5);
}

#[test]
fn linear_chain_is_a_single_path() {
    let mut root = frame(0, 0, 1, vec![]);
    for d in 1..=4 {
        assert_eq!(open(&mut root, d, d as u8 + 1), 0);
    }
    for d in (1..=4).rev() {
        root.update_trace(closing(d, 0, d as u8 + 1, true, vec![], 1)).unwrap();
    }
    let mut node = &root;
    for _ in 0..4 {
        assert_eq!(node.inner.len(), 1);
        node = &node.inner[0];
    }
    assert_eq!(node.inner.len(), 0);
    assert_eq!(root.inner_number_of_inners(), 4);
}

#[test]
fn get_trace_finds_first_match() {
    let mut root = frame(0, 0, 1, vec![]);
    open(&mut root, 1, 2);
    open(&mut root, 2, 3);
    open(&mut root, 1, 4);
    open(&mut root, 2, 5);
    assert_eq!(root.get_trace(2, 0).unwrap().addr, [3; 20]);
    assert_eq!(root.get_trace(1, 1).unwrap().addr, [4; 20]);
    assert_eq!(root.get_trace(0, 0).unwrap().addr, [1; 20]);
    assert!(root.get_trace(2, 1).is_none());
    assert!(root.get_trace(0, 1).is_none());
}

#[test]
fn selector_of_known_function() {
    let f = FunctionEntry::new(
        "transfer".to_string(),
        function("transfer", vec![ethers::abi::ParamType::Address, ethers::abi::ParamType::Uint(256)]),
    );
    assert_eq!(f.selector, [0xa9, 0x05, 0x9c, 0xbb]);
    assert_eq!(f.name, "transfer");
}

#[test]
fn matched_zero_argument_function_renders_its_name() {
    let f = FunctionEntry::new("increment".to_string(), function("increment", vec![]));
    let mut root = frame(0, 0, 1, f.selector.to_vec());
    root.cost = 42;
    root.success = true;
    let contracts = vec![contract("Counter", 1, vec![f], vec![])];
    let lines = root.pretty_print(&contracts, String::new()).unwrap();
    assert_eq!(lines.len(), 1);
    match &lines[0] {
        TraceLine::Call { prefix, cost, contract, function, args, success } => {
            assert_eq!(prefix, "");
            assert_eq!(*cost, 42);
            assert_eq!(contract, "Counter");
            assert_eq!(function, "increment");
            assert_eq!(args, &Some(vec![]));
            assert!(*success);
        }
        _ => panic!("expected a call line"),
    }
}

#[test]
fn matched_function_with_bad_arguments_fails() {
    let f = FunctionEntry::new("set".to_string(), function("set", vec![ethers::abi::ParamType::Uint(256)]));
    let root = frame(0, 0, 1, f.selector.to_vec());
    let contracts = vec![contract("Store", 1, vec![f], vec![])];
    assert_eq!(root.pretty_print(&contracts, String::new()).err(), Some(RenderError::DecodeFailed));
}

#[test]
fn unknown_contract_renders_raw_hex() {
    let root = frame(0, 0, 0xab, vec![0x12, 0x34, 0x56, 0x78, 0x9a]);
    let lines = root.pretty_print(&vec![], "> ".to_string()).unwrap();
    assert_eq!(lines.len(), 1);
    match &lines[0] {
        TraceLine::RawCall { prefix, address, selector, payload } => {
            assert_eq!(prefix, "> ");
            assert_eq!(address, &"ab".repeat(20));
            assert_eq!(selector.as_deref(), Some("12345678"));
            assert_eq!(payload, "9a");
        }
        _ => panic!("expected a raw call line"),
    }
    let short = frame(0, 0, 0x0f, vec![0x01, 0xff]);
    match &short.pretty_print(&vec![], String::new()).unwrap()[0] {
        TraceLine::RawCall { selector, payload, .. } => {
            assert_eq!(selector, &None);
            assert_eq!(payload, "01ff");
        }
        _ => panic!("expected a raw call line"),
    }
}

#[test]
fn children_and_logs_get_connectors() {
    let mut root = frame(0, 0, 1, vec![]);
    open(&mut root, 1, 2);
    open(&mut root, 2, 3);
    open(&mut root, 1, 4);
    let lines = root.pretty_print(&vec![], String::new()).unwrap();
    let prefixes: Vec<String> = lines
        .iter()
        .map(|l| match l {
            TraceLine::RawCall { prefix, .. } => prefix.clone(),
            _ => panic!("expected raw call lines"),
        })
        .collect();
    assert_eq!(prefixes, vec!["", "├─ ", "|  └─ ", "└─ "]);

    root.logs = vec![log(vec![[1; 32]], vec![7])];
    let lines = root.pretty_print(&vec![], String::new()).unwrap();
    assert_eq!(lines.len(), 5);
    match &lines[3] {
        TraceLine::RawCall { prefix, .. } => assert_eq!(prefix, "├─ "),
        _ => panic!("expected a raw call line"),
    }
    match &lines[4] {
        TraceLine::RawLog { prefix, topics, data, matched } => {
            assert_eq!(prefix, "└─ ");
            assert_eq!(topics, &vec![[1; 32]]);
            assert_eq!(data, &vec![7]);
            assert!(!*matched);
        }
        _ => panic!("expected a raw log line"),
    }
}

#[test]
fn logs_of_known_contract_match_events() {
    let ping = EventEntry::new("Ping".to_string(), event("Ping"));
    let sig = ping.signature;
    let mut root = frame(0, 0, 1, vec![]);
    root.logs = vec![log(vec![sig], vec![]), log(vec![[3; 32]], vec![]), log(vec![], vec![])];
    let contracts = vec![contract("Pinger", 1, vec![], vec![ping])];
    let lines = root.pretty_print(&contracts, String::new()).unwrap();
    assert_eq!(lines.len(), 3);
    match &lines[0] {
        TraceLine::Event { prefix, name, fields } => {
            assert_eq!(prefix, "├─ ");
            assert_eq!(name, "Ping");
            assert!(fields.is_some());
        }
        _ => panic!("expected an event line"),
    }
    match &lines[1] {
        TraceLine::RawLog { prefix, matched, .. } => {
            assert_eq!(prefix, "├─ ");
            assert!(*matched);
        }
        _ => panic!("expected a raw log line"),
    }
    match &lines[2] {
        TraceLine::RawLog { prefix, matched, .. } => {
            assert_eq!(prefix, "└─ ");
            assert!(*matched);
        }
        _ => panic!("expected a raw log line"),
    }
}

#[test]
fn first_contract_with_address_wins() {
    let f = FunctionEntry::new("increment".to_string(), function("increment", vec![]));
    let g = FunctionEntry::new("increment".to_string(), function("increment", vec![]));
    let root = frame(0, 0, 1, f.selector.to_vec());
    let contracts = vec![contract("Other", 2, vec![], vec![]), contract("A", 1, vec![f], vec![]), contract("B", 1, vec![g], vec![])];
    let lines = root.pretty_print(&contracts, String::new()).unwrap();
    assert_eq!(lines.len(), 1);
    match &lines[0] {
        TraceLine::Call { contract, .. } => assert_eq!(contract, "A"),
        _ => panic!("expected a call line"),
    }
}
