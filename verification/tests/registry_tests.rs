use gol_multi::registry::{ConnKind, DeliveryOutcome, Registry};

#[test]
fn register_hands_out_fresh_ids_in_order() {
    let mut reg = Registry::new();
    assert_eq!(reg.len(), 0);
    let a = reg.register(ConnKind::Raw);
    let b = reg.register(ConnKind::WebSocket);
    let c = reg.register(ConnKind::Raw);
    assert_eq!((a, b, c), (0, 1, 2));
    assert_eq!(reg.len(), 3);
    assert_eq!(reg.get(0).id, 0);
    assert_eq!(reg.get(0).kind, ConnKind::Raw);
    assert_eq!(reg.get(1).kind, ConnKind::WebSocket);
}

#[test]
fn broadcast_drops_closed_connection_only() {
    // three connections, the middle one already closed: the other two
    // are delivered to, the closed one leaves, the counters add up
    let mut reg = Registry::new();
    reg.register(ConnKind::Raw);
    reg.register(ConnKind::WebSocket);
    reg.register(ConnKind::Raw);
    let outcomes = vec![
        DeliveryOutcome::Delivered { bytes: 10, messages: 1 },
        DeliveryOutcome::Closed,
        DeliveryOutcome::Delivered { bytes: 20, messages: 2 },
    ];
    let counters = reg.apply_broadcast(&outcomes);
    assert_eq!(counters.bytes, 30);
    assert_eq!(counters.messages, 3);
    assert_eq!(reg.len(), 2);
    assert_eq!(reg.get(0).id, 0);
    assert_eq!(reg.get(1).id, 2);
    assert_eq!(reg.next_id, 3);
}

#[test]
fn broadcast_drops_failed_write() {
    let mut reg = Registry::new();
    reg.register(ConnKind::WebSocket);
    let outcomes = vec![DeliveryOutcome::WriteFailed];
    let counters = reg.apply_broadcast(&outcomes);
    assert_eq!(counters.bytes, 0);
    assert_eq!(counters.messages, 0);
    assert_eq!(reg.len(), 0);
}

#[test]
fn broadcast_keeps_all_when_all_delivered() {
    let mut reg = Registry::new();
    reg.register(ConnKind::Raw);
    reg.register(ConnKind::Raw);
    let outcomes = vec![
        DeliveryOutcome::Delivered { bytes: 5, messages: 1 },
        DeliveryOutcome::Delivered { bytes: 5, messages: 1 },
    ];
    let counters = reg.apply_broadcast(&outcomes);
    assert_eq!(counters.bytes, 10);
    assert_eq!(counters.messages, 2);
    assert_eq!(reg.len(), 2);
}

#[test]
fn broadcast_counters_clamp_at_machine_limit() {
    let mut reg = Registry::new();
    reg.register(ConnKind::Raw);
    reg.register(ConnKind::Raw);
    let outcomes = vec![
        DeliveryOutcome::Delivered { bytes: usize::MAX, messages: 1 },
        DeliveryOutcome::Delivered { bytes: 1, messages: 1 },
    ];
    let counters = reg.apply_broadcast(&outcomes);
    assert_eq!(counters.bytes, usize::MAX);
    assert_eq!(counters.messages, 2);
}
