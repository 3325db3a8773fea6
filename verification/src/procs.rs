//! Which processes belong to a module step: the step's own process and every
//! process whose chain of parents leads back to it.
use vstd::prelude::*;

verus! {

/// The parent recorded for process `pid` in a table of (process, parent):
/// `None` when the table does not list it (the first entry counts).
pub open spec fn table_entry(table: Seq<(u32, Option<u32>)>, pid: u32) -> Option<Option<u32>>
    decreases table.len(),
{
    if table.len() == 0 {
        None
    } else if table[0].0 == pid {
        Some(table[0].1)
    } else {
        table_entry(table.drop_first(), pid)
    }
}

/// The processes a table lists.
pub open spec fn table_pids(table: Seq<(u32, Option<u32>)>) -> Seq<u32> {
    table.map_values(|e: (u32, Option<u32>)| e.0)
}

/// A process the table has an entry for is among its processes.
proof fn lemma_entry_listed(table: Seq<(u32, Option<u32>)>, pid: u32)
    requires
        table_entry(table, pid) is Some,
    ensures
        table_pids(table).contains(pid),
    decreases table.len(),
{
    if table[0].0 == pid {
        assert(table_pids(table)[0] == pid);
    } else {
        lemma_entry_listed(table.drop_first(), pid);
        let k = choose|k: int| 0 <= k < table_pids(table.drop_first()).len() && table_pids(table.drop_first())[k] == pid;
        assert(table_pids(table)[k + 1] == pid);
    }
}

/// A sequence without repeats drawn from `pool` is no longer than `pool`.
proof fn lemma_distinct_len(s: Seq<u32>, pool: Seq<u32>)
    requires
        s.no_duplicates(),
        forall|i: int| 0 <= i < s.len() ==> pool.contains(#[trigger] s[i]),
    ensures
        s.len() <= pool.len(),
{
    s.unique_seq_to_set();
    pool.lemma_cardinality_of_set();
    assert forall|x: u32| s.to_set().contains(x) implies pool.to_set().contains(x) by {
        let i = choose|i: int| 0 <= i < s.len() && s[i] == x;
    }
    vstd::set_lib::lemma_len_subset(s.to_set(), pool.to_set());
}

/// The processes walked so far: none twice, all listed in the table.
pub open spec fn walk_ok(table: Seq<(u32, Option<u32>)>, seen: Seq<u32>) -> bool {
    &&& seen.no_duplicates()
    &&& forall|i: int| 0 <= i < seen.len() ==> table_pids(table).contains(#[trigger] seen[i])
}

/// Walking up from `current`, having passed the processes `seen`: the walk
/// reaches `root` through a parent before it meets an unlisted process, a
/// process without a parent, or one it passed already.
pub open spec fn walk_spec(table: Seq<(u32, Option<u32>)>, current: u32, root: u32, seen: Seq<u32>) -> bool
    decreases table.len() + 1 - seen.len(),
{
    if !walk_ok(table, seen) || seen.contains(current) {
        false
    } else {
        match table_entry(table, current) {
            None => false,
            Some(None) => false,
            Some(Some(parent)) => if parent == root {
                true
            } else {
                proof {
                    lemma_walk_step(table, current, seen);
                }
                walk_spec(table, parent, root, seen.push(current))
            },
        }
    }
}

/// Passing a new listed process keeps the walk within the table.
pub proof fn lemma_walk_step(table: Seq<(u32, Option<u32>)>, current: u32, seen: Seq<u32>)
    requires
        walk_ok(table, seen),
        !seen.contains(current),
        table_entry(table, current) is Some,
    ensures
        walk_ok(table, seen.push(current)),
        seen.push(current).len() <= table.len(),
{
    lemma_entry_listed(table, current);
    let next = seen.push(current);
    assert forall|i: int, j: int| 0 <= i < j < next.len() implies next[i] != next[j] by {
        if j == next.len() - 1 {
            assert(seen.contains(next[i]) || i >= seen.len());
        }
    }
    assert forall|i: int| 0 <= i < next.len() implies table_pids(table).contains(#[trigger] next[i]) by {
        if i < seen.len() {
            assert(next[i] == seen[i]);
        }
    }
    lemma_distinct_len(next, table_pids(table));
}

/// Process `pid` belongs to the step whose process is `root`: it is `root`,
/// or its chain of parents leads to `root`.
pub open spec fn descends_spec(table: Seq<(u32, Option<u32>)>, pid: u32, root: u32) -> bool {
    pid == root || walk_spec(table, pid, root, Seq::empty())
}

/// The parent listed for `pid`.
fn lookup_parent(table: &Vec<(u32, Option<u32>)>, pid: u32) -> (r: Option<Option<u32>>)
    ensures
        r == table_entry(table@, pid),
{
    let mut i: usize = 0;
    assert(table@.skip(0) =~= table@);
    while i < table.len()
        invariant
            i <= table@.len(),
            table_entry(table@, pid) == table_entry(table@.skip(i as int), pid),
        decreases table@.len() - i,
    {
        let ghost rest = table@.skip(i as int);
        assert(rest[0] == table@[i as int]);
        assert(rest.drop_first() =~= table@.skip(i + 1));
        if table[i].0 == pid {
            return Some(table[i].1);
        }
        i += 1;
    }
    assert(table@.skip(i as int) =~= Seq::<(u32, Option<u32>)>::empty());
    None
}

/// Whether process `pid` belongs to the step whose process is `root`, given
/// each listed process with its parent.
pub fn process_is_descendant(table: &Vec<(u32, Option<u32>)>, pid: u32, root: u32) -> (r: bool)
    ensures
        r == descends_spec(table@, pid, root),
{
    if pid == root {
        return true;
    }
    let mut current = pid;
    let mut seen: Vec<u32> = Vec::new();
    assert(walk_ok(table@, seen@));
    loop
        invariant
            pid != root,
            walk_ok(table@, seen@),
            seen@.len() <= table@.len() + 1,
            walk_spec(table@, pid, root, Seq::empty()) == walk_spec(table@, current, root, seen@),
        decreases table@.len() + 1 - seen@.len(),
    {
        let mut already = false;
        let mut k: usize = 0;
        while k < seen.len()
            invariant
                k <= seen@.len(),
                already <==> exists|q: int| 0 <= q < k && seen@[q] == current,
            decreases seen@.len() - k,
        {
            if seen[k] == current {
                already = true;
            }
            k += 1;
        }
        if already {
            return false;
        }
        match lookup_parent(table, current) {
            None => {
                return false;
            },
            Some(None) => {
                return false;
            },
            Some(Some(parent)) => {
                if parent == root {
                    return true;
                }
                proof {
                    lemma_walk_step(table@, current, seen@);
                }
                seen.push(current);
                current = parent;
            },
        }
    }
}

} // verus!
