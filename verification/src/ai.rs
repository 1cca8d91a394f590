//! Checks on generated IR batches, and the plain records that describe a
//! layout hint or a tree snapshot for training data.

use vstd::prelude::*;
use std::collections::HashMap;
use crate::text::{append_decimal, decimal, str_eq};

pub mod hints;
pub mod snapshot;
pub mod stats;

verus! {

broadcast use vstd::std_specs::hash::group_hash_axioms;

#[derive(Debug, Clone, Copy, PartialEq, Eq)]
pub enum IssueSeverity {
    Warning,
    Error,
}

/// A validation issue found in a generated IR batch.
#[derive(Debug, Clone)]
pub struct ValidationIssue {
    pub command_index: usize,
    pub severity: IssueSeverity,
    pub message: String,
}

impl View for ValidationIssue {
    type V = (int, IssueSeverity, Seq<char>);

    open spec fn view(&self) -> (int, IssueSeverity, Seq<char>) {
        (self.command_index as int, self.severity, self.message@)
    }
}

#[derive(Debug, Clone)]
pub enum LayoutHintType {
    /// Node wraps a single child with no visual changes — can be flattened.
    UnnecessaryWrapper,
    /// Deep nesting that could be restructured with flexbox.
    DeepNesting { depth: u32 },
    /// Node has fixed dimensions but uses flex — simplify.
    OverconstrainedLayout,
    /// Sibling nodes have identical styles — consider shared component.
    DuplicateStyles { sibling_count: u32 },
    /// Large flat list without recycling hints.
    UnoptimizedList { child_count: u32 },
}

/// Simplified tree snapshot for training data export.
#[derive(Debug, Clone)]
pub struct TreeSnapshot {
    pub nodes: Vec<TreeNodeSnapshot>,
    pub root_id: Option<u64>,
}

/// A single node in a training data tree snapshot.
#[derive(Debug, Clone)]
pub struct TreeNodeSnapshot {
    pub id: u64,
    pub view_type: String,
    pub children: Vec<u64>,
    pub prop_count: u32,
    pub depth: u32,
}

/// What the batch check reads of one IR command: the node ids it names,
/// whether a created node is a text node, and the names of its props.
#[derive(Debug, Clone)]
pub enum BatchCommand {
    CreateNode { id: u64, is_text: bool, prop_names: Vec<String> },
    AppendChild { parent: u64, child: u64 },
    SetRootNode { id: u64 },
    Other,
}

// ── The specification of the check ──

/// The nodes created by the first `i` commands, each with the index of the
/// command that created it last.
pub open spec fn created_before(cmds: Seq<BatchCommand>, i: int) -> Map<u64, int>
    decreases i,
{
    if i <= 0 {
        Map::empty()
    } else {
        let c = created_before(cmds, i - 1);
        match cmds[i - 1] {
            BatchCommand::CreateNode { id, .. } => c.insert(id, i - 1),
            _ => c,
        }
    }
}

/// The nodes the first `i` commands attached as children.
pub open spec fn parented_before(cmds: Seq<BatchCommand>, i: int) -> Set<u64>
    decreases i,
{
    if i <= 0 {
        Set::empty()
    } else {
        let p = parented_before(cmds, i - 1);
        match cmds[i - 1] {
            BatchCommand::AppendChild { child, .. } => p.insert(child),
            _ => p,
        }
    }
}

/// Whether the names include "text" or "content".
pub open spec fn has_text_prop(names: Seq<String>) -> bool {
    exists|k: int| 0 <= k < names.len() && (names[k]@ == "text"@ || names[k]@ == "content"@)
}

pub open spec fn issue(index: int, severity: IssueSeverity, message: Seq<char>) -> (int, IssueSeverity, Seq<char>) {
    (index, severity, message)
}

/// The issues that command `i` raises, given the nodes created before it.
pub open spec fn step_issues(cmds: Seq<BatchCommand>, i: int) -> Seq<(int, IssueSeverity, Seq<char>)> {
    let c = created_before(cmds, i);
    match cmds[i] {
        BatchCommand::CreateNode { id, is_text, prop_names } => {
            let dup = if c.contains_key(id) {
                seq![
                    issue(
                        i,
                        IssueSeverity::Error,
                        "Duplicate node ID "@ + decimal(id as nat) + " (first created at command "@ + decimal(
                            c[id] as nat,
                        ) + ")"@,
                    ),
                ]
            } else {
                Seq::empty()
            };
            let text = if is_text && !has_text_prop(prop_names@) {
                seq![
                    issue(
                        i,
                        IssueSeverity::Warning,
                        "Text node "@ + decimal(id as nat) + " has no 'text' or 'content' prop"@,
                    ),
                ]
            } else {
                Seq::empty()
            };
            dup + text
        },
        BatchCommand::AppendChild { parent, child } => {
            let p = if !c.contains_key(parent) {
                seq![
                    issue(i, IssueSeverity::Error, "AppendChild references unknown parent "@ + decimal(parent as nat)),
                ]
            } else {
                Seq::empty()
            };
            let ch = if !c.contains_key(child) {
                seq![issue(i, IssueSeverity::Error, "AppendChild references unknown child "@ + decimal(child as nat))]
            } else {
                Seq::empty()
            };
            p + ch
        },
        BatchCommand::SetRootNode { id } => {
            if !c.contains_key(id) {
                seq![issue(i, IssueSeverity::Error, "SetRootNode references unknown node "@ + decimal(id as nat))]
            } else {
                Seq::empty()
            }
        },
        BatchCommand::Other => Seq::empty(),
    }
}

/// The issues that the first `i` commands raise, in command order.
pub open spec fn issues_before(cmds: Seq<BatchCommand>, i: int) -> Seq<(int, IssueSeverity, Seq<char>)>
    decreases i,
{
    if i <= 0 {
        Seq::empty()
    } else {
        issues_before(cmds, i - 1) + step_issues(cmds, i - 1)
    }
}

/// Some command sets node `id` as the root.
pub open spec fn sets_root(cmds: Seq<BatchCommand>, id: u64) -> bool {
    exists|k: int| 0 <= k < cmds.len() && cmds[k] == (BatchCommand::SetRootNode { id })
}

/// Some command sets a root.
pub open spec fn has_root(cmds: Seq<BatchCommand>) -> bool {
    exists|k: int| 0 <= k < cmds.len() && cmds[k] is SetRootNode
}

/// Command `j` is the first to create its node.
pub open spec fn first_creation(cmds: Seq<BatchCommand>, j: int) -> bool {
    cmds[j] is CreateNode && !created_before(cmds, j).contains_key(cmds[j]->CreateNode_id)
}

/// The warnings for nodes that are created but neither attached nor the
/// root, one per node, in the order the nodes were first created; looking at
/// the first `j` commands.
pub open spec fn orphan_warnings(cmds: Seq<BatchCommand>, j: int) -> Seq<(int, IssueSeverity, Seq<char>)>
    decreases j,
{
    if j <= 0 {
        Seq::empty()
    } else {
        let rest = orphan_warnings(cmds, j - 1);
        let k = j - 1;
        if first_creation(cmds, k) && !sets_root(cmds, cmds[k]->CreateNode_id) && !parented_before(
            cmds,
            cmds.len() as int,
        ).contains(cmds[k]->CreateNode_id) {
            rest.push(
                issue(
                    0,
                    IssueSeverity::Warning,
                    "Node "@ + decimal(cmds[k]->CreateNode_id as nat) + " is created but never attached to the tree"@,
                ),
            )
        } else {
            rest
        }
    }
}

/// Everything the check reports on `cmds`.
pub open spec fn batch_issues(cmds: Seq<BatchCommand>) -> Seq<(int, IssueSeverity, Seq<char>)> {
    issues_before(cmds, cmds.len() as int) + if has_root(cmds) {
        orphan_warnings(cmds, cmds.len() as int)
    } else {
        Seq::empty()
    }
}

pub open spec fn issue_views(v: Seq<ValidationIssue>) -> Seq<(int, IssueSeverity, Seq<char>)> {
    v.map_values(|x: ValidationIssue| x@)
}

} // verus!

verus! {

fn names_have_text(names: &Vec<String>) -> (r: bool)
    ensures
        r == has_text_prop(names@),
{
    let mut k: usize = 0;
    while k < names.len()
        invariant
            k <= names@.len(),
            forall|q: int| 0 <= q < k ==> !(names@[q]@ == "text"@ || names@[q]@ == "content"@),
        decreases names@.len() - k,
    {
        if str_eq(names[k].as_str(), "text") || str_eq(names[k].as_str(), "content") {
            return true;
        }
        k = k + 1;
    }
    false
}

fn contains_id(v: &Vec<u64>, x: u64) -> (r: bool)
    ensures
        r == v@.contains(x),
{
    let mut k: usize = 0;
    while k < v.len()
        invariant
            k <= v@.len(),
            forall|q: int| 0 <= q < k ==> v@[q] != x,
        decreases v@.len() - k,
    {
        if v[k] == x {
            return true;
        }
        k = k + 1;
    }
    false
}

fn sets_root_exec(cmds: &Vec<BatchCommand>, id: u64) -> (r: bool)
    ensures
        r == sets_root(cmds@, id),
{
    let mut k: usize = 0;
    while k < cmds.len()
        invariant
            k <= cmds@.len(),
            forall|q: int| 0 <= q < k ==> cmds@[q] != (BatchCommand::SetRootNode { id }),
        decreases cmds@.len() - k,
    {
        match &cmds[k] {
            BatchCommand::SetRootNode { id: r } => {
                if *r == id {
                    return true;
                }
            },
            _ => {},
        }
        k = k + 1;
    }
    false
}

fn has_root_exec(cmds: &Vec<BatchCommand>) -> (r: bool)
    ensures
        r == has_root(cmds@),
{
    let mut k: usize = 0;
    while k < cmds.len()
        invariant
            k <= cmds@.len(),
            forall|q: int| 0 <= q < k ==> !(cmds@[q] is SetRootNode),
        decreases cmds@.len() - k,
    {
        match &cmds[k] {
            BatchCommand::SetRootNode { .. } => {
                return true;
            },
            _ => {},
        }
        k = k + 1;
    }
    false
}

fn push_issue(issues: &mut Vec<ValidationIssue>, command_index: usize, severity: IssueSeverity, message: String)
    ensures
        issue_views(final(issues)@) == issue_views(old(issues)@).push(
            issue(command_index as int, severity, message@),
        ),
{
    issues.push(ValidationIssue { command_index, severity, message });
    assert(issue_views(issues@) =~= issue_views(old(issues)@).push(issue(command_index as int, severity, message@)));
}

/// Check that a generated batch is well-formed: node ids are unique, the
/// parents, children and roots it names were created before, text nodes
/// carry a "text" or "content" prop, and (where a root is set) every created
/// node ends up attached. Problems come back in command order, the nodes left
/// unattached last.
pub fn validate_commands(cmds: &Vec<BatchCommand>) -> (r: Vec<ValidationIssue>)
    requires
        cmds@.len() <= u64::MAX,
    ensures
        issue_views(r@) == batch_issues(cmds@),
{
    let mut issues: Vec<ValidationIssue> = Vec::new();
    let mut created: HashMap<u64, usize> = HashMap::new();
    let mut parented: Vec<u64> = Vec::new();
    let mut first: Vec<bool> = Vec::new();
    let n = cmds.len();
    let mut i: usize = 0;
    assert(issue_views(issues@) =~= Seq::<(int, IssueSeverity, Seq<char>)>::empty());
    while i < n
        invariant
            n == cmds@.len(),
            n <= u64::MAX,
            i <= n,
            created@.dom() == created_before(cmds@, i as int).dom(),
            forall|k: u64| #[trigger] created@.contains_key(k) ==> created@[k] as int == created_before(cmds@, i as int)[k],
            forall|x: u64| #[trigger] parented@.contains(x) <==> parented_before(cmds@, i as int).contains(x),
            first@.len() == i,
            forall|q: int| 0 <= q < i ==> #[trigger] first@[q] == first_creation(cmds@, q),
            issue_views(issues@) == issues_before(cmds@, i as int),
        decreases n - i,
    {
        let ghost before = issue_views(issues@);
        let ghost c = created_before(cmds@, i as int);
        let ghost par = parented@;
        match &cmds[i] {
            BatchCommand::CreateNode { id, is_text, prop_names } => {
                let id = *id;
                match created.get(&id) {
                    Some(prev) => {
                        let mut msg = String::from_str("Duplicate node ID ");
                        append_decimal(&mut msg, id);
                        msg.append(" (first created at command ");
                        append_decimal(&mut msg, *prev as u64);
                        msg.append(")");
                        push_issue(&mut issues, i, IssueSeverity::Error, msg);
                        first.push(false);
                    },
                    None => {
                        first.push(true);
                    },
                }
                if *is_text && !names_have_text(prop_names) {
                    let mut msg = String::from_str("Text node ");
                    append_decimal(&mut msg, id);
                    msg.append(" has no 'text' or 'content' prop");
                    push_issue(&mut issues, i, IssueSeverity::Warning, msg);
                }
                created.insert(id, i);
            },
            BatchCommand::AppendChild { parent, child } => {
                if !created.contains_key(parent) {
                    let mut msg = String::from_str("AppendChild references unknown parent ");
                    append_decimal(&mut msg, *parent);
                    push_issue(&mut issues, i, IssueSeverity::Error, msg);
                }
                if !created.contains_key(child) {
                    let mut msg = String::from_str("AppendChild references unknown child ");
                    append_decimal(&mut msg, *child);
                    push_issue(&mut issues, i, IssueSeverity::Error, msg);
                }
                parented.push(*child);
                first.push(false);
            },
            BatchCommand::SetRootNode { id } => {
                if !created.contains_key(id) {
                    let mut msg = String::from_str("SetRootNode references unknown node ");
                    append_decimal(&mut msg, *id);
                    push_issue(&mut issues, i, IssueSeverity::Error, msg);
                }
                first.push(false);
            },
            BatchCommand::Other => {
                first.push(false);
            },
        }
        proof {
            assert(issue_views(issues@) =~= before + step_issues(cmds@, i as int));
            assert(created_before(cmds@, i + 1) == match cmds@[i as int] {
                BatchCommand::CreateNode { id, .. } => c.insert(id, i as int),
                _ => c,
            });
            assert(created@.dom() =~= created_before(cmds@, i + 1).dom());
            assert forall|x: u64| #[trigger] parented@.contains(x) <==> parented_before(cmds@, i + 1).contains(x) by {
                if parented@.contains(x) {
                    let q = choose|q: int| 0 <= q < parented@.len() && parented@[q] == x;
                    if q < par.len() {
                        assert(par[q] == x);
                        assert(par.contains(x));
                    }
                }
                if par.contains(x) {
                    let q = choose|q: int| 0 <= q < par.len() && par[q] == x;
                    assert(parented@[q] == x);
                }
                match cmds@[i as int] {
                    BatchCommand::AppendChild { child, .. } => {
                        if x == child {
                            assert(parented@[par.len() as int] == x);
                        }
                    },
                    _ => {},
                }
            }
        }
        i = i + 1;
    }
    if has_root_exec(cmds) {
        let mut j: usize = 0;
        let ghost base = issue_views(issues@);
        assert(base + orphan_warnings(cmds@, 0) =~= base);
        while j < n
            invariant
                n == cmds@.len(),
                j <= n,
                first@.len() == n,
                forall|q: int| 0 <= q < n ==> #[trigger] first@[q] == first_creation(cmds@, q),
                forall|x: u64| #[trigger] parented@.contains(x) <==> parented_before(cmds@, n as int).contains(x),
                base == issues_before(cmds@, n as int),
                issue_views(issues@) == base + orphan_warnings(cmds@, j as int),
            decreases n - j,
        {
            let ghost before = issue_views(issues@);
            if first[j] {
                match &cmds[j] {
                    BatchCommand::CreateNode { id, .. } => {
                        let id = *id;
                        if !sets_root_exec(cmds, id) && !contains_id(&parented, id) {
                            let mut msg = String::from_str("Node ");
                            append_decimal(&mut msg, id);
                            msg.append(" is created but never attached to the tree");
                            push_issue(&mut issues, 0, IssueSeverity::Warning, msg);
                        }
                    },
                    _ => {},
                }
            }
            proof {
                assert(issue_views(issues@) =~= base + orphan_warnings(cmds@, j + 1));
            }
            j = j + 1;
        }
    }
    issues
}

} // verus!

verus! {

/// Command `i` creates a node not created before, or names only nodes that
/// were created before it.
pub open spec fn resolved_at(cmds: Seq<BatchCommand>, i: int) -> bool {
    match cmds[i] {
        BatchCommand::CreateNode { id, .. } => !created_before(cmds, i).contains_key(id),
        BatchCommand::AppendChild { parent, child } => created_before(cmds, i).contains_key(parent)
            && created_before(cmds, i).contains_key(child),
        BatchCommand::SetRootNode { id } => created_before(cmds, i).contains_key(id),
        BatchCommand::Other => true,
    }
}

/// Every node id is created once, and every parent, child and root is
/// created before the command that names it.
pub open spec fn references_resolved(cmds: Seq<BatchCommand>) -> bool {
    forall|i: int| 0 <= i < cmds.len() ==> #[trigger] resolved_at(cmds, i)
}

/// Command `i` creates a text node with neither a "text" nor a "content" prop.
pub open spec fn text_without_content(cmds: Seq<BatchCommand>, i: int) -> bool {
    cmds[i] matches BatchCommand::CreateNode { is_text, prop_names, .. } && is_text && !has_text_prop(
        prop_names@,
    )
}

proof fn lemma_only_warnings_before(cmds: Seq<BatchCommand>, i: int)
    requires
        references_resolved(cmds),
        0 <= i <= cmds.len(),
    ensures
        forall|k: int| 0 <= k < issues_before(cmds, i).len() ==> (#[trigger] issues_before(cmds, i)[k]).1
            == IssueSeverity::Warning,
    decreases i,
{
    if i > 0 {
        lemma_only_warnings_before(cmds, i - 1);
        let prev = issues_before(cmds, i - 1);
        let step = step_issues(cmds, i - 1);
        assert(resolved_at(cmds, i - 1));
        assert forall|k: int| 0 <= k < step.len() implies (#[trigger] step[k]).1 == IssueSeverity::Warning by {}
        assert forall|k: int| 0 <= k < issues_before(cmds, i).len() implies (#[trigger] issues_before(
            cmds,
            i,
        )[k]).1 == IssueSeverity::Warning by {
            if k < prev.len() {
                assert(issues_before(cmds, i)[k] == prev[k]);
            } else {
                assert(issues_before(cmds, i)[k] == step[k - prev.len()]);
            }
        }
    }
}

proof fn lemma_orphans_are_warnings(cmds: Seq<BatchCommand>, j: int)
    requires
        0 <= j <= cmds.len(),
    ensures
        forall|k: int| 0 <= k < orphan_warnings(cmds, j).len() ==> (#[trigger] orphan_warnings(cmds, j)[k]).1
            == IssueSeverity::Warning,
    decreases j,
{
    if j > 0 {
        lemma_orphans_are_warnings(cmds, j - 1);
    }
}

/// A batch whose node ids are unique and whose references all point to nodes
/// created earlier draws no error from the check, only warnings.
pub proof fn lemma_resolved_batch_has_no_errors(cmds: Seq<BatchCommand>)
    requires
        references_resolved(cmds),
    ensures
        forall|k: int| 0 <= k < batch_issues(cmds).len() ==> (#[trigger] batch_issues(cmds)[k]).1
            != IssueSeverity::Error,
{
    let n = cmds.len() as int;
    lemma_only_warnings_before(cmds, n);
    lemma_orphans_are_warnings(cmds, n);
    let a = issues_before(cmds, n);
    let b = if has_root(cmds) { orphan_warnings(cmds, n) } else { Seq::empty() };
    assert forall|k: int| 0 <= k < batch_issues(cmds).len() implies (#[trigger] batch_issues(cmds)[k]).1
        != IssueSeverity::Error by {
        if k < a.len() {
            assert(batch_issues(cmds)[k] == a[k]);
        } else {
            assert(batch_issues(cmds)[k] == b[k - a.len()]);
        }
    }
}

/// What command `i` raises: every issue carries index `i`; an error comes only
/// when the command is unresolved, a warning only from a text node without
/// content; and each of those two raises its issue.
proof fn lemma_step_issue_facts(cmds: Seq<BatchCommand>, i: int)
    requires
        0 <= i < cmds.len(),
    ensures
        forall|m: int| 0 <= m < step_issues(cmds, i).len() ==> (#[trigger] step_issues(cmds, i)[m]).0 == i,
        forall|m: int| 0 <= m < step_issues(cmds, i).len() && (#[trigger] step_issues(cmds, i)[m]).1
            == IssueSeverity::Error ==> !resolved_at(cmds, i),
        forall|m: int| 0 <= m < step_issues(cmds, i).len() && (#[trigger] step_issues(cmds, i)[m]).1
            == IssueSeverity::Warning ==> text_without_content(cmds, i),
        !resolved_at(cmds, i) ==> exists|m: int| 0 <= m < step_issues(cmds, i).len() && (#[trigger] step_issues(cmds, i)[m]).1
            == IssueSeverity::Error,
        text_without_content(cmds, i) ==> exists|m: int| 0 <= m < step_issues(cmds, i).len() && (#[trigger] step_issues(cmds, i)[m]).1
            == IssueSeverity::Warning,
{
    let st = step_issues(cmds, i);
    let c = created_before(cmds, i);
    match cmds[i] {
        BatchCommand::CreateNode { id, is_text, prop_names } => {
            if c.contains_key(id) {
                assert(st[0].1 == IssueSeverity::Error);
            }
            if is_text && !has_text_prop(prop_names@) {
                assert(st[st.len() - 1].1 == IssueSeverity::Warning);
            }
        },
        BatchCommand::AppendChild { parent, child } => {
            if !c.contains_key(parent) {
                assert(st[0].1 == IssueSeverity::Error);
            } else if !c.contains_key(child) {
                assert(st[0].1 == IssueSeverity::Error);
            }
        },
        BatchCommand::SetRootNode { id } => {
            if !c.contains_key(id) {
                assert(st[0].1 == IssueSeverity::Error);
            }
        },
        BatchCommand::Other => {},
    }
}

/// The issues of the first `i` commands begin the issues of the first `j`.
proof fn lemma_issues_prefix(cmds: Seq<BatchCommand>, i: int, j: int)
    requires
        0 <= i <= j,
    ensures
        issues_before(cmds, i).len() <= issues_before(cmds, j).len(),
        forall|q: int| 0 <= q < issues_before(cmds, i).len() ==> issues_before(cmds, j)[q] == #[trigger] issues_before(cmds, i)[q],
    decreases j - i,
{
    if i < j {
        lemma_issues_prefix(cmds, i, j - 1);
    }
}

/// Each issue of the first `j` commands was raised by one of them.
proof fn lemma_issue_origin(cmds: Seq<BatchCommand>, j: int, q: int) -> (im: (int, int))
    requires
        0 <= j <= cmds.len(),
        0 <= q < issues_before(cmds, j).len(),
    ensures
        0 <= im.0 < j,
        0 <= im.1 < step_issues(cmds, im.0).len(),
        issues_before(cmds, j)[q] == step_issues(cmds, im.0)[im.1],
    decreases j,
{
    let prev = issues_before(cmds, j - 1);
    if q < prev.len() {
        lemma_issue_origin(cmds, j - 1, q)
    } else {
        (j - 1, q - prev.len())
    }
}

/// Each unattached-node warning is a warning at index 0 about a node created
/// but neither attached nor the root.
proof fn lemma_orphan_origin(cmds: Seq<BatchCommand>, j: int, q: int)
    requires
        0 <= j <= cmds.len(),
        0 <= q < orphan_warnings(cmds, j).len(),
    ensures
        exists|k: int|
            0 <= k < j && first_creation(cmds, k) && !sets_root(cmds, cmds[k]->CreateNode_id)
                && !parented_before(cmds, cmds.len() as int).contains(cmds[k]->CreateNode_id)
                && #[trigger] orphan_warnings(cmds, j)[q] == issue(
                0,
                IssueSeverity::Warning,
                "Node "@ + decimal(cmds[k]->CreateNode_id as nat) + " is created but never attached to the tree"@,
            ),
    decreases j,
{
    let rest = orphan_warnings(cmds, j - 1);
    if q < rest.len() {
        lemma_orphan_origin(cmds, j - 1, q);
        let k = choose|k: int|
            0 <= k < j - 1 && first_creation(cmds, k) && !sets_root(cmds, cmds[k]->CreateNode_id)
                && !parented_before(cmds, cmds.len() as int).contains(cmds[k]->CreateNode_id)
                && #[trigger] orphan_warnings(cmds, j - 1)[q] == issue(
                0,
                IssueSeverity::Warning,
                "Node "@ + decimal(cmds[k]->CreateNode_id as nat) + " is created but never attached to the tree"@,
            );
        assert(orphan_warnings(cmds, j)[q] == orphan_warnings(cmds, j - 1)[q]);
    } else {
        assert(orphan_warnings(cmds, j)[q] == orphan_warnings(cmds, j)[q]);
    }
}

/// Where the check's issues come from. An error is reported at index `k`
/// exactly when command `k` creates a node already created, or names a parent,
/// child or root not created before it. A warning is either about a text
/// node without a "text" or "content" prop, at that node's command, or, when
/// the batch sets a root, about a node created but never attached (reported at
/// index 0); every text node without content draws its warning.
pub proof fn lemma_issue_sources(cmds: Seq<BatchCommand>)
    ensures
        forall|q: int| 0 <= q < batch_issues(cmds).len() && (#[trigger] batch_issues(cmds)[q]).1
            == IssueSeverity::Error ==> 0 <= batch_issues(cmds)[q].0 < cmds.len() && !resolved_at(
            cmds,
            batch_issues(cmds)[q].0,
        ),
        forall|q: int| 0 <= q < batch_issues(cmds).len() && (#[trigger] batch_issues(cmds)[q]).1
            == IssueSeverity::Warning ==> (0 <= batch_issues(cmds)[q].0 < cmds.len() && text_without_content(
            cmds,
            batch_issues(cmds)[q].0,
        )) || (has_root(cmds) && exists|k: int|
            0 <= k < cmds.len() && first_creation(cmds, k) && !sets_root(cmds, cmds[k]->CreateNode_id)
                && !parented_before(cmds, cmds.len() as int).contains(cmds[k]->CreateNode_id)
                && batch_issues(cmds)[q] == issue(
                0,
                IssueSeverity::Warning,
                "Node "@ + decimal(cmds[k]->CreateNode_id as nat) + " is created but never attached to the tree"@,
            )),
        forall|k: int| 0 <= k < cmds.len() && !#[trigger] resolved_at(cmds, k) ==> exists|q: int|
            0 <= q < batch_issues(cmds).len() && batch_issues(cmds)[q].0 == k && (#[trigger] batch_issues(cmds)[q]).1
                == IssueSeverity::Error,
        forall|k: int| 0 <= k < cmds.len() && #[trigger] text_without_content(cmds, k) ==> exists|q: int|
            0 <= q < batch_issues(cmds).len() && batch_issues(cmds)[q].0 == k && (#[trigger] batch_issues(cmds)[q]).1
                == IssueSeverity::Warning,
{
    let n = cmds.len() as int;
    let a = issues_before(cmds, n);
    let b = if has_root(cmds) { orphan_warnings(cmds, n) } else { Seq::empty() };
    let all = batch_issues(cmds);
    assert(all == a + b);
    lemma_orphans_are_warnings(cmds, n);
    assert forall|q: int| 0 <= q < all.len() && (#[trigger] all[q]).1 == IssueSeverity::Error implies 0 <= all[q].0 < n
        && !resolved_at(cmds, all[q].0) by {
        if q < a.len() {
            assert(all[q] == a[q]);
            let (i, m) = lemma_issue_origin(cmds, n, q);
            lemma_step_issue_facts(cmds, i);
            assert(step_issues(cmds, i)[m].1 == IssueSeverity::Error);
        } else {
            assert(all[q] == b[q - a.len()]);
        }
    }
    assert forall|q: int| 0 <= q < all.len() && (#[trigger] all[q]).1 == IssueSeverity::Warning implies (0 <= all[q].0 < n
        && text_without_content(cmds, all[q].0)) || (has_root(cmds) && exists|k: int|
        0 <= k < n && first_creation(cmds, k) && !sets_root(cmds, cmds[k]->CreateNode_id)
            && !parented_before(cmds, n).contains(cmds[k]->CreateNode_id) && all[q] == issue(
            0,
            IssueSeverity::Warning,
            "Node "@ + decimal(cmds[k]->CreateNode_id as nat) + " is created but never attached to the tree"@,
        )) by {
        if q < a.len() {
            assert(all[q] == a[q]);
            let (i, m) = lemma_issue_origin(cmds, n, q);
            lemma_step_issue_facts(cmds, i);
            assert(step_issues(cmds, i)[m].1 == IssueSeverity::Warning);
        } else {
            assert(all[q] == b[q - a.len()]);
            lemma_orphan_origin(cmds, n, q - a.len());
        }
    }
    assert forall|k: int| 0 <= k < n && !#[trigger] resolved_at(cmds, k) implies exists|q: int|
        0 <= q < all.len() && all[q].0 == k && (#[trigger] all[q]).1 == IssueSeverity::Error by {
        lemma_step_issue_facts(cmds, k);
        let m = choose|m: int| 0 <= m < step_issues(cmds, k).len() && (#[trigger] step_issues(cmds, k)[m]).1
            == IssueSeverity::Error;
        lemma_issues_prefix(cmds, k + 1, n);
        let p = issues_before(cmds, k);
        let q = p.len() + m;
        assert(issues_before(cmds, k + 1)[q] == step_issues(cmds, k)[m]);
        assert(all[q] == a[q]);
    }
    assert forall|k: int| 0 <= k < n && #[trigger] text_without_content(cmds, k) implies exists|q: int|
        0 <= q < all.len() && all[q].0 == k && (#[trigger] all[q]).1 == IssueSeverity::Warning by {
        lemma_step_issue_facts(cmds, k);
        let m = choose|m: int| 0 <= m < step_issues(cmds, k).len() && (#[trigger] step_issues(cmds, k)[m]).1
            == IssueSeverity::Warning;
        lemma_issues_prefix(cmds, k + 1, n);
        let p = issues_before(cmds, k);
        let q = p.len() + m;
        assert(issues_before(cmds, k + 1)[q] == step_issues(cmds, k)[m]);
        assert(all[q] == a[q]);
    }
}

} // verus!
