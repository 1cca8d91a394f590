use appscale_core::ai::{validate_commands, BatchCommand, IssueSeverity};

fn create(id: u64, is_text: bool, props: &[&str]) -> BatchCommand {
    BatchCommand::CreateNode { id, is_text, prop_names: props.iter().map(|p| p.to_string()).collect() }
}

fn make_batch() -> Vec<BatchCommand> {
    vec![
        create(1, false, &[]),
        create(2, true, &["text"]),
        BatchCommand::AppendChild { parent: 1, child: 2 },
        BatchCommand::SetRootNode { id: 1 },
    ]
}

#[test]
fn validate_well_formed_batch() {
    let issues = validate_commands(&make_batch());
    let errors: Vec<_> = issues.iter().filter(|i| i.severity == IssueSeverity::Error).collect();
    assert!(errors.is_empty(), "Expected no errors: {:?}", errors);
}

#[test]
fn validate_duplicate_ids() {
    let batch = vec![create(1, false, &[]), create(1, true, &[])];
    let issues = validate_commands(&batch);
    assert!(issues.iter().any(|i| i.severity == IssueSeverity::Error && i.message.contains("Duplicate")));
}

#[test]
fn validate_unknown_parent() {
    let batch = vec![create(1, false, &[]), BatchCommand::AppendChild { parent: 99, child: 1 }];
    let issues = validate_commands(&batch);
    assert!(issues.iter().any(|i| i.severity == IssueSeverity::Error && i.message.contains("unknown parent")));
}

#[test]
fn validate_text_node_warning() {
    let batch = vec![create(1, true, &[])];
    let issues = validate_commands(&batch);
    assert!(issues.iter().any(|i| i.severity == IssueSeverity::Warning && i.message.contains("no 'text'")));
}

#[test]
fn validation_messages_are_exact() {
    let batch = vec![
        create(7, false, &[]),
        create(7, true, &["content"]),
        BatchCommand::AppendChild { parent: 7, child: 8 },
        BatchCommand::SetRootNode { id: 9 },
        BatchCommand::Other,
    ];
    let issues = validate_commands(&batch);
    let seen: Vec<(usize, IssueSeverity, String)> =
        issues.iter().map(|i| (i.command_index, i.severity, i.message.clone())).collect();
    assert_eq!(
        seen,
        vec![
            (1, IssueSeverity::Error, "Duplicate node ID 7 (first created at command 0)".to_string()),
            (2, IssueSeverity::Error, "AppendChild references unknown child 8".to_string()),
            (3, IssueSeverity::Error, "SetRootNode references unknown node 9".to_string()),
            (0, IssueSeverity::Warning, "Node 7 is created but never attached to the tree".to_string()),
        ]
    );
}

#[test]
fn orphans_reported_only_with_a_root() {
    let batch = vec![create(1, false, &[]), create(2, false, &[])];
    assert!(validate_commands(&batch).is_empty());
    let batch = vec![create(1, false, &[]), create(2, false, &[]), BatchCommand::SetRootNode { id: 1 }];
    let issues = validate_commands(&batch);
    assert_eq!(issues.len(), 1);
    assert_eq!(issues[0].message, "Node 2 is created but never attached to the tree");
    assert_eq!(issues[0].severity, IssueSeverity::Warning);
}

#[test]
fn duplicate_reports_latest_creation() {
    let batch = vec![create(3, false, &[]), create(3, false, &[]), create(3, false, &[])];
    let issues = validate_commands(&batch);
    assert_eq!(issues.len(), 2);
    assert_eq!(issues[1].message, "Duplicate node ID 3 (first created at command 1)");
    assert_eq!(issues[1].command_index, 2);
}
