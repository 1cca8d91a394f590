use appscale_core::events::{propagation_order, EventPhase, EventResult, HandlerResponse};
use appscale_core::tree::NodeId;

#[test]
fn propagation_captures_down_then_bubbles_up() {
    let path = vec![NodeId(1), NodeId(2), NodeId(3)];
    let order = propagation_order(&path);
    assert_eq!(
        order,
        vec![
            (NodeId(1), EventPhase::Capture),
            (NodeId(2), EventPhase::Capture),
            (NodeId(3), EventPhase::Capture),
            (NodeId(3), EventPhase::Bubble),
            (NodeId(2), EventPhase::Bubble),
            (NodeId(1), EventPhase::Bubble),
        ]
    );
    assert!(propagation_order(&Vec::new()).is_empty());
}

#[test]
fn handler_responses_accumulate() {
    let mut r = EventResult::new();
    assert!(!r.propagation_stopped && !r.default_prevented);
    r.apply(HandlerResponse::Continue);
    assert!(!r.propagation_stopped && !r.default_prevented);
    r.apply(HandlerResponse::PreventDefault);
    assert!(!r.propagation_stopped && r.default_prevented);
    r.apply(HandlerResponse::StopPropagation);
    assert!(r.propagation_stopped && r.default_prevented);
    r.apply(HandlerResponse::Continue);
    assert!(r.propagation_stopped && r.default_prevented);
}
