//! Counting what a recorded session did: how many batches and commands, how
//! many commands of each kind, and how many distinct nodes they touched.

use vstd::prelude::*;
use std::collections::HashSet;

verus! {

broadcast use vstd::std_specs::hash::group_hash_axioms;

/// The kinds of IR command.
#[derive(Debug, Clone, Copy, PartialEq, Eq, Structural)]
pub enum CommandKind {
    CreateNode,
    UpdateProps,
    UpdateStyle,
    AppendChild,
    InsertBefore,
    RemoveChild,
    SetRootNode,
}

/// What the statistics read of one IR command: its kind and the node ids it
/// names.
#[derive(Debug, Clone, Copy)]
pub enum CommandIds {
    CreateNode { id: u64 },
    UpdateProps { id: u64 },
    UpdateStyle { id: u64 },
    AppendChild { parent: u64, child: u64 },
    InsertBefore { parent: u64, child: u64, before: u64 },
    RemoveChild { parent: u64, child: u64 },
    SetRootNode { id: u64 },
}

pub open spec fn kind_of(c: CommandIds) -> CommandKind {
    match c {
        CommandIds::CreateNode { .. } => CommandKind::CreateNode,
        CommandIds::UpdateProps { .. } => CommandKind::UpdateProps,
        CommandIds::UpdateStyle { .. } => CommandKind::UpdateStyle,
        CommandIds::AppendChild { .. } => CommandKind::AppendChild,
        CommandIds::InsertBefore { .. } => CommandKind::InsertBefore,
        CommandIds::RemoveChild { .. } => CommandKind::RemoveChild,
        CommandIds::SetRootNode { .. } => CommandKind::SetRootNode,
    }
}

/// The node ids a command counts as touched: the created, updated and
/// rooted node, and both ends of an append; insertions and removals count
/// none.
pub open spec fn counted_ids(c: CommandIds) -> Set<u64> {
    match c {
        CommandIds::CreateNode { id } => set![id],
        CommandIds::UpdateProps { id } => set![id],
        CommandIds::UpdateStyle { id } => set![id],
        CommandIds::AppendChild { parent, child } => set![parent, child],
        CommandIds::InsertBefore { .. } => Set::empty(),
        CommandIds::RemoveChild { .. } => Set::empty(),
        CommandIds::SetRootNode { id } => set![id],
    }
}

/// The commands of all batches, in order.
pub open spec fn all_commands(batches: Seq<Seq<CommandIds>>) -> Seq<CommandIds>
    decreases batches.len(),
{
    if batches.len() == 0 {
        Seq::empty()
    } else {
        all_commands(batches.drop_last()) + batches.last()
    }
}

/// How many of `cmds` are of kind `k`.
pub open spec fn count_kind(cmds: Seq<CommandIds>, k: CommandKind) -> nat
    decreases cmds.len(),
{
    if cmds.len() == 0 {
        0
    } else {
        count_kind(cmds.drop_last(), k) + if kind_of(cmds.last()) == k { 1nat } else { 0nat }
    }
}

/// The node ids that `cmds` touch.
pub open spec fn touched(cmds: Seq<CommandIds>) -> Set<u64>
    decreases cmds.len(),
{
    if cmds.len() == 0 {
        Set::empty()
    } else {
        touched(cmds.drop_last()) + counted_ids(cmds.last())
    }
}

/// The kinds in their listed order.
pub open spec fn kind_at(i: int) -> CommandKind {
    if i == 0 {
        CommandKind::CreateNode
    } else if i == 1 {
        CommandKind::UpdateProps
    } else if i == 2 {
        CommandKind::UpdateStyle
    } else if i == 3 {
        CommandKind::AppendChild
    } else if i == 4 {
        CommandKind::InsertBefore
    } else if i == 5 {
        CommandKind::RemoveChild
    } else {
        CommandKind::SetRootNode
    }
}

/// The counts of the first `i` kinds that occur in `cmds`, in the kinds'
/// order.
pub open spec fn histogram_upto(cmds: Seq<CommandIds>, i: int) -> Seq<(CommandKind, nat)>
    decreases i,
{
    if i <= 0 {
        Seq::empty()
    } else {
        let prev = histogram_upto(cmds, i - 1);
        let k = kind_at(i - 1);
        if count_kind(cmds, k) > 0 {
            prev.push((k, count_kind(cmds, k)))
        } else {
            prev
        }
    }
}

/// Session statistics.
pub struct CommandStats {
    pub total_batches: usize,
    pub total_commands: usize,
    /// How many commands of each kind that occurs, in the kinds' order.
    pub histogram: Vec<(CommandKind, usize)>,
    pub unique_node_ids: usize,
}

pub open spec fn histogram_view(h: Seq<(CommandKind, usize)>) -> Seq<(CommandKind, nat)> {
    h.map_values(|e: (CommandKind, usize)| (e.0, e.1 as nat))
}

/// The name of a kind: the name of its variant.
pub open spec fn kind_name(k: CommandKind) -> Seq<char> {
    match k {
        CommandKind::CreateNode => "CreateNode"@,
        CommandKind::UpdateProps => "UpdateProps"@,
        CommandKind::UpdateStyle => "UpdateStyle"@,
        CommandKind::AppendChild => "AppendChild"@,
        CommandKind::InsertBefore => "InsertBefore"@,
        CommandKind::RemoveChild => "RemoveChild"@,
        CommandKind::SetRootNode => "SetRootNode"@,
    }
}

impl CommandKind {
    /// The kind's name (see `kind_name`).
    pub fn name(&self) -> (r: &'static str)
        ensures
            r@ == kind_name(*self),
    {
        match self {
            CommandKind::CreateNode => "CreateNode",
            CommandKind::UpdateProps => "UpdateProps",
            CommandKind::UpdateStyle => "UpdateStyle",
            CommandKind::AppendChild => "AppendChild",
            CommandKind::InsertBefore => "InsertBefore",
            CommandKind::RemoveChild => "RemoveChild",
            CommandKind::SetRootNode => "SetRootNode",
        }
    }
}

fn kind_index(c: &CommandIds) -> (i: usize)
    ensures
        i < 7,
        kind_at(i as int) == kind_of(*c),
{
    match c {
        CommandIds::CreateNode { .. } => 0,
        CommandIds::UpdateProps { .. } => 1,
        CommandIds::UpdateStyle { .. } => 2,
        CommandIds::AppendChild { .. } => 3,
        CommandIds::InsertBefore { .. } => 4,
        CommandIds::RemoveChild { .. } => 5,
        CommandIds::SetRootNode { .. } => 6,
    }
}

fn kind_number(i: usize) -> (k: CommandKind)
    requires
        i < 7,
    ensures
        k == kind_at(i as int),
{
    if i == 0 {
        CommandKind::CreateNode
    } else if i == 1 {
        CommandKind::UpdateProps
    } else if i == 2 {
        CommandKind::UpdateStyle
    } else if i == 3 {
        CommandKind::AppendChild
    } else if i == 4 {
        CommandKind::InsertBefore
    } else if i == 5 {
        CommandKind::RemoveChild
    } else {
        CommandKind::SetRootNode
    }
}

proof fn lemma_count_le_len(cmds: Seq<CommandIds>, k: CommandKind)
    ensures
        count_kind(cmds, k) <= cmds.len(),
    decreases cmds.len(),
{
    if cmds.len() > 0 {
        lemma_count_le_len(cmds.drop_last(), k);
    }
}

proof fn lemma_step(prefix: Seq<CommandIds>, batch: Seq<CommandIds>, j: int)
    requires
        0 <= j < batch.len(),
    ensures
        (prefix + batch.take(j + 1)).drop_last() == prefix + batch.take(j),
        (prefix + batch.take(j + 1)).last() == batch[j],
        (prefix + batch.take(j + 1)).len() == (prefix + batch.take(j)).len() + 1,
{
    assert((prefix + batch.take(j + 1)).drop_last() =~= prefix + batch.take(j));
}

proof fn lemma_prefix_len(bs: Seq<Seq<CommandIds>>, k: int)
    requires
        0 <= k <= bs.len(),
    ensures
        all_commands(bs.take(k)).len() <= all_commands(bs).len(),
    decreases bs.len() - k,
{
    if k < bs.len() {
        lemma_prefix_len(bs, k + 1);
        assert(bs.take(k + 1).drop_last() =~= bs.take(k));
    } else {
        assert(bs.take(k) =~= bs);
    }
}

/// Count the commands of the batches (see `all_commands`, `count_kind`,
/// `touched`). All commands together must be countable in a `usize`.
pub fn command_stats(batches: &Vec<Vec<CommandIds>>) -> (r: CommandStats)
    requires
        all_commands(batches@.map_values(|b: Vec<CommandIds>| b@)).len() <= usize::MAX,
    ensures
        ({
            let cmds = all_commands(batches@.map_values(|b: Vec<CommandIds>| b@));
            &&& r.total_batches == batches@.len()
            &&& r.total_commands == cmds.len()
            &&& histogram_view(r.histogram@) == histogram_upto(cmds, 7)
            &&& r.unique_node_ids == touched(cmds).len()
        }),
{
    let ghost bs = batches@.map_values(|b: Vec<CommandIds>| b@);
    let mut counts: Vec<usize> = vec![0, 0, 0, 0, 0, 0, 0];
    let mut seen: HashSet<u64> = HashSet::new();
    let mut total: usize = 0;
    let mut i: usize = 0;
    while i < batches.len()
        invariant
            i <= batches@.len(),
            bs == batches@.map_values(|b: Vec<CommandIds>| b@),
            all_commands(bs).len() <= usize::MAX,
            total == all_commands(bs.take(i as int)).len(),
            counts@.len() == 7,
            forall|x: int| 0 <= x < 7 ==> counts@[x] == count_kind(all_commands(bs.take(i as int)), kind_at(x)),
            seen@ == touched(all_commands(bs.take(i as int))),
        decreases batches@.len() - i,
    {
        let batch = &batches[i];
        let ghost prefix = all_commands(bs.take(i as int));
        assert(bs.take(i + 1).drop_last() =~= bs.take(i as int));
        assert(all_commands(bs.take(i + 1)) == prefix + batch@);
        proof {
            lemma_prefix_len(bs, i + 1);
        }
        let mut j: usize = 0;
        while j < batch.len()
            invariant
                j <= batch@.len(),
                prefix + batch@ == all_commands(bs.take(i + 1)),
                (prefix + batch@).len() <= usize::MAX,
                total == (prefix + batch@.take(j as int)).len(),
                counts@.len() == 7,
                forall|x: int| 0 <= x < 7 ==> counts@[x] == count_kind(prefix + batch@.take(j as int), kind_at(x)),
                seen@ == touched(prefix + batch@.take(j as int)),
            decreases batch@.len() - j,
        {
            let c = batch[j];
            proof {
                lemma_step(prefix, batch@, j as int);
                lemma_count_le_len(prefix + batch@.take(j + 1), kind_of(c));
            }
            let x = kind_index(&c);
            let v = counts[x];
            counts.set(x, v + 1);
            total = total + 1;
            match c {
                CommandIds::CreateNode { id } => {
                    seen.insert(id);
                },
                CommandIds::UpdateProps { id } => {
                    seen.insert(id);
                },
                CommandIds::UpdateStyle { id } => {
                    seen.insert(id);
                },
                CommandIds::AppendChild { parent, child } => {
                    seen.insert(parent);
                    seen.insert(child);
                },
                CommandIds::InsertBefore { .. } => {},
                CommandIds::RemoveChild { .. } => {},
                CommandIds::SetRootNode { id } => {
                    seen.insert(id);
                },
            }
            assert(seen@ =~= touched(prefix + batch@.take(j + 1)));
            j = j + 1;
        }
        assert(batch@.take(batch@.len() as int) =~= batch@);
        i = i + 1;
    }
    assert(bs.take(batches@.len() as int) =~= bs);
    let ghost cmds = all_commands(bs);
    let mut histogram: Vec<(CommandKind, usize)> = Vec::new();
    let mut x: usize = 0;
    while x < 7
        invariant
            x <= 7,
            counts@.len() == 7,
            forall|y: int| 0 <= y < 7 ==> counts@[y] == count_kind(cmds, kind_at(y)),
            histogram_view(histogram@) == histogram_upto(cmds, x as int),
        decreases 7 - x,
    {
        let k = kind_number(x);
        if counts[x] > 0 {
            assert(histogram_view(histogram@.push((k, counts[x as int]))) =~= histogram_view(histogram@).push(
                (k, counts@[x as int] as nat),
            ));
            histogram.push((k, counts[x]));
        }
        x = x + 1;
    }
    CommandStats {
        total_batches: batches.len(),
        total_commands: total,
        histogram,
        unique_node_ids: seen.len(),
    }
}

} // verus!
