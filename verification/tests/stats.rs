use appscale_core::ai::stats::{command_stats, CommandIds, CommandKind};

fn make_batch() -> Vec<CommandIds> {
    vec![
        CommandIds::CreateNode { id: 1 },
        CommandIds::CreateNode { id: 2 },
        CommandIds::AppendChild { parent: 1, child: 2 },
        CommandIds::SetRootNode { id: 1 },
    ]
}

#[test]
fn training_stats_computation() {
    let stats = command_stats(&vec![make_batch(), make_batch()]);
    assert_eq!(stats.total_batches, 2);
    assert_eq!(stats.total_commands, 8);
    assert_eq!(stats.unique_node_ids, 2);
    assert_eq!(
        stats.histogram,
        vec![(CommandKind::CreateNode, 4), (CommandKind::AppendChild, 2), (CommandKind::SetRootNode, 2)]
    );
}

#[test]
fn insertions_and_removals_touch_no_ids() {
    let stats = command_stats(&vec![vec![
        CommandIds::InsertBefore { parent: 7, child: 8, before: 9 },
        CommandIds::RemoveChild { parent: 7, child: 8 },
        CommandIds::UpdateStyle { id: 3 },
    ]]);
    assert_eq!(stats.total_commands, 3);
    assert_eq!(stats.unique_node_ids, 1);
    assert_eq!(
        stats.histogram,
        vec![(CommandKind::UpdateStyle, 1), (CommandKind::InsertBefore, 1), (CommandKind::RemoveChild, 1)]
    );
}

#[test]
fn empty_session_has_no_counts() {
    let stats = command_stats(&vec![]);
    assert_eq!(stats.total_batches, 0);
    assert_eq!(stats.total_commands, 0);
    assert!(stats.histogram.is_empty());
    assert_eq!(stats.unique_node_ids, 0);
    let stats = command_stats(&vec![vec![], vec![]]);
    assert_eq!(stats.total_batches, 2);
    assert_eq!(stats.total_commands, 0);
}

#[test]
fn kind_names() {
    assert_eq!(CommandKind::CreateNode.name(), "CreateNode");
    assert_eq!(CommandKind::SetRootNode.name(), "SetRootNode");
    assert_eq!(CommandKind::InsertBefore.name(), "InsertBefore");
}
