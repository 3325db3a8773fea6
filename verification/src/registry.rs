//! The registered modules: the definitions found in the data folder, in the
//! preset model folders and in the imported folders, one per id, in the
//! order the module list shows them.
use crate::catalog::{
    apply_model_path, is_builtin_module_id, is_builtin_module_id_spec, is_legacy_preset_module_id,
    is_legacy_preset_module_id_spec, model_path_applied, module_order, module_order_spec, ModuleInfo,
};
use crate::order::{keys_view, rank_before, sort_by_rank, sorted_by_rank};
use crate::plan::lex_lt;
use crate::strs::str_eq;
use vstd::prelude::*;

verus! {

/// Where a module definition was found.
#[derive(Clone, Copy, Debug)]
pub enum ModuleOrigin {
    DataFolder,
    PresetFolder,
    Imported,
}

/// A definition found there is registered: from the data folder, all but the
/// retired preset modules; from the preset folders, all but built-in and
/// system modules; from imported folders, all but built-in ones.
pub open spec fn kept(origin: ModuleOrigin, m: ModuleInfo) -> bool {
    match origin {
        ModuleOrigin::DataFolder => !(m.source@ == "preset"@ && is_legacy_preset_module_id_spec(m.id@)),
        ModuleOrigin::PresetFolder => !is_builtin_module_id_spec(m.id@) && m.source@ != "system"@,
        ModuleOrigin::Imported => !is_builtin_module_id_spec(m.id@),
    }
}

/// `r` is how definition `m` is registered: an imported one as a custom
/// module that is not built in; each with its configured model path.
pub open spec fn registered_as(origin: ModuleOrigin, m: ModuleInfo, paths: Seq<(String, String)>, r: ModuleInfo) -> bool {
    match origin {
        ModuleOrigin::Imported => exists|s: String| s@ == "custom"@ && #[trigger] model_path_applied(as_custom(m, s), paths, r),
        _ => model_path_applied(m, paths, r),
    }
}

/// Definition `m` as a custom module with source `s` that is not built in.
pub open spec fn as_custom(m: ModuleInfo, s: String) -> ModuleInfo {
    ModuleInfo { source: s, built_in: false, ..m }
}

/// Index of the last registered definition with id `x`, or -1.
pub open spec fn last_kept(c: Seq<(ModuleOrigin, ModuleInfo)>, x: Seq<char>) -> int
    decreases c.len(),
{
    if c.len() == 0 {
        -1
    } else if kept(c.last().0, c.last().1) && c.last().1.id@ == x {
        c.len() - 1
    } else {
        last_kept(c.drop_last(), x)
    }
}

/// Facts about `last_kept`.
pub proof fn lemma_last_kept(c: Seq<(ModuleOrigin, ModuleInfo)>, x: Seq<char>)
    ensures
        -1 <= last_kept(c, x) < c.len(),
        last_kept(c, x) >= 0 ==> kept(c[last_kept(c, x)].0, c[last_kept(c, x)].1) && c[last_kept(c, x)].1.id@ == x,
        forall|i: int| last_kept(c, x) < i < c.len() ==> !(kept(c[i].0, c[i].1) && #[trigger] c[i].1.id@ == x),
    decreases c.len(),
{
    if c.len() > 0 && !(kept(c.last().0, c.last().1) && c.last().1.id@ == x) {
        lemma_last_kept(c.drop_last(), x);
        assert forall|i: int| last_kept(c, x) < i < c.len() implies !(kept(c[i].0, c[i].1) && #[trigger] c[i].1.id@ == x) by {
            if i < c.len() - 1 {
                assert(c[i] == c.drop_last()[i]);
            }
        }
    }
}

/// The list's keys: the module's place by kind, then its name.
pub open spec fn module_keys(ms: Seq<ModuleInfo>) -> Seq<(u128, Seq<char>)> {
    ms.map_values(|m: ModuleInfo| (module_order_spec(m.id@) as u128, m.name@))
}

/// `r` is the registry of definitions `c`: one module per registered id,
/// registered from the last definition with that id, ordered by place and name.
pub open spec fn is_registry(c: Seq<(ModuleOrigin, ModuleInfo)>, paths: Seq<(String, String)>, r: Seq<ModuleInfo>) -> bool {
    &&& forall|i: int, j: int| 0 <= i < j < r.len() ==> #[trigger] r[i].id@ != #[trigger] r[j].id@
    &&& forall|x: Seq<char>| (exists|k: int| 0 <= k < r.len() && #[trigger] r[k].id@ == x) <==> last_kept(c, x) >= 0
    &&& forall|k: int|
        0 <= k < r.len() ==> registered_as(
            c[last_kept(c, r[k].id@)].0,
            c[last_kept(c, r[k].id@)].1,
            paths,
            #[trigger] r[k],
        )
    &&& forall|k: int, m: int| 0 <= k < m < r.len() ==> listed_no_later(#[trigger] r[k], #[trigger] r[m])
}

/// Module `a` may be listed before module `b`: its place by kind comes
/// first, or the same place and its name comes first or is the same.
pub open spec fn listed_no_later(a: ModuleInfo, b: ModuleInfo) -> bool {
    let oa = module_order_spec(a.id@);
    let ob = module_order_spec(b.id@);
    oa < ob || (oa == ob && (lex_lt(a.name@, b.name@) || a.name@ == b.name@))
}

/// Whether definition `m`, found at `origin`, is registered.
fn is_kept(origin: ModuleOrigin, m: &ModuleInfo) -> (r: bool)
    ensures
        r == kept(origin, *m),
{
    match origin {
        ModuleOrigin::DataFolder => !(str_eq(m.source.as_str(), "preset") && is_legacy_preset_module_id(m.id.as_str())),
        ModuleOrigin::PresetFolder => !is_builtin_module_id(m.id.as_str()) && !str_eq(m.source.as_str(), "system"),
        ModuleOrigin::Imported => !is_builtin_module_id(m.id.as_str()),
    }
}

/// How definition `m`, found at `origin`, is registered.
fn register(origin: ModuleOrigin, m: ModuleInfo, paths: &Vec<(String, String)>) -> (r: ModuleInfo)
    ensures
        registered_as(origin, m, paths@, r),
{
    match origin {
        ModuleOrigin::Imported => {
            let ghost m0 = m;
            let mut m = m;
            m.built_in = false;
            m.source = "custom".to_owned();
            let ghost s = m.source;
            assert(m == as_custom(m0, s));
            let r = apply_model_path(m, paths);
            assert(model_path_applied(as_custom(m0, s), paths@, r));
            r
        },
        _ => apply_model_path(m, paths),
    }
}

/// Whether some module has id `id`.
fn has_module_id(table: &Vec<ModuleInfo>, id: &str) -> (r: bool)
    ensures
        r == exists|k: int| 0 <= k < table@.len() && #[trigger] table@[k].id@ == id@,
{
    let mut i: usize = 0;
    while i < table.len()
        invariant
            i <= table@.len(),
            forall|k: int| 0 <= k < i ==> #[trigger] table@[k].id@ != id@,
        decreases table@.len() - i,
    {
        if str_eq(table[i].id.as_str(), id) {
            return true;
        }
        i += 1;
    }
    false
}

/// One registered module per registered id, each from the last definition
/// with that id, in no particular order.
fn registry_table(found: Vec<(ModuleOrigin, ModuleInfo)>, paths: &Vec<(String, String)>) -> (table: Vec<ModuleInfo>)
    ensures
        forall|i: int, j: int| 0 <= i < j < table@.len() ==> #[trigger] table@[i].id@ != #[trigger] table@[j].id@,
        forall|x: Seq<char>| (exists|k: int| 0 <= k < table@.len() && #[trigger] table@[k].id@ == x) <==> last_kept(found@, x) >= 0,
        forall|k: int|
            0 <= k < table@.len() ==> last_kept(found@, table@[k].id@) >= 0 && registered_as(
                found@[last_kept(found@, table@[k].id@)].0,
                found@[last_kept(found@, table@[k].id@)].1,
                paths@,
                #[trigger] table@[k],
            ),
{
    let ghost c = found@;
    let mut rest = found;
    let mut table: Vec<ModuleInfo> = Vec::new();
    proof {
        assert(c.take(c.len() as int) =~= c);
        assert forall|x: Seq<char>| !(last_kept(c, x) >= c.len()) by {
            lemma_last_kept(c, x);
        }
    }
    while rest.len() > 0
        invariant
            rest@ == c.take(rest@.len() as int),
            rest@.len() <= c.len(),
            forall|i: int, j: int| 0 <= i < j < table@.len() ==> #[trigger] table@[i].id@ != #[trigger] table@[j].id@,
            forall|x: Seq<char>|
                (exists|k: int| 0 <= k < table@.len() && #[trigger] table@[k].id@ == x) <==> last_kept(c, x) >= rest@.len(),
            forall|k: int|
                0 <= k < table@.len() ==> last_kept(c, table@[k].id@) >= 0 && registered_as(
                    c[last_kept(c, table@[k].id@)].0,
                    c[last_kept(c, table@[k].id@)].1,
                    paths@,
                    #[trigger] table@[k],
                ),
        decreases rest@.len(),
    {
        let j = rest.len() - 1;
        let ghost rest0 = rest@;
        let (origin, m) = rest.pop().unwrap();
        assert(rest@ == c.take(j as int)) by {
            assert(rest@ =~= rest0.take(j as int));
        }
        assert(c[j as int] == (origin, m));
        proof {
            lemma_last_kept(c, m.id@);
        }
        let ghost t0 = table@;
        if is_kept(origin, &m) && !has_module_id(&table, m.id.as_str()) {
            proof {
                if last_kept(c, m.id@) > j {
                    let x = m.id@;
                    assert(last_kept(c, x) >= rest0.len());
                }
                assert(last_kept(c, m.id@) == j);
            }
            let ghost mid = m.id@;
            let reg = register(origin, m, paths);
            proof {
                let ghost mm = c[j as int].1;
                assert(model_path_applied(mm, paths@, reg) || registered_as(origin, mm, paths@, reg));
            }
            table.push(reg);
            proof {
                assert(reg.id@ == mid) by {
                    match origin {
                        ModuleOrigin::Imported => {
                            let s = choose|s: String| s@ == "custom"@ && #[trigger] model_path_applied(as_custom(c[j as int].1, s), paths@, reg);
                        },
                        _ => {},
                    }
                }
                assert forall|x: Seq<char>|
                    (exists|k: int| 0 <= k < table@.len() && #[trigger] table@[k].id@ == x) <==> last_kept(c, x) >= j by {
                    lemma_last_kept(c, x);
                    if exists|k: int| 0 <= k < table@.len() && #[trigger] table@[k].id@ == x {
                        let k = choose|k: int| 0 <= k < table@.len() && #[trigger] table@[k].id@ == x;
                        if k < t0.len() {
                            assert(t0[k].id@ == x);
                        }
                    }
                    if last_kept(c, x) >= j {
                        if last_kept(c, x) == j {
                            assert(table@[t0.len() as int].id@ == x);
                        } else {
                            assert(exists|k: int| 0 <= k < t0.len() && #[trigger] t0[k].id@ == x);
                            let k = choose|k: int| 0 <= k < t0.len() && #[trigger] t0[k].id@ == x;
                            assert(table@[k].id@ == x);
                        }
                    }
                }
                assert forall|a: int, b: int| 0 <= a < b < table@.len() implies #[trigger] table@[a].id@ != #[trigger] table@[b].id@ by {
                    if b == t0.len() {
                        assert(t0[a].id@ == table@[a].id@);
                    }
                }
                assert forall|k: int|
                    0 <= k < table@.len() implies last_kept(c, table@[k].id@) >= 0 && registered_as(
                    c[last_kept(c, table@[k].id@)].0,
                    c[last_kept(c, table@[k].id@)].1,
                    paths@,
                    #[trigger] table@[k],
                ) by {
                    if k < t0.len() {
                        assert(table@[k] == t0[k]);
                    }
                }
            }
        } else {
            proof {
                assert forall|x: Seq<char>|
                    (exists|k: int| 0 <= k < table@.len() && #[trigger] table@[k].id@ == x) <==> last_kept(c, x) >= j by {
                    lemma_last_kept(c, x);
                    if last_kept(c, x) == j {
                        assert(x == m.id@);
                        assert(kept(origin, m));
                    }
                }
            }
        }
    }
    table
}

/// The registered modules from the definitions found, in the order they were
/// found (data folder, preset folders, imported folders), with the
/// configured model paths.
pub fn register_modules(found: Vec<(ModuleOrigin, ModuleInfo)>, paths: &Vec<(String, String)>) -> (r: Vec<ModuleInfo>)
    ensures
        is_registry(found@, paths@, r@),
{
    let ghost c = found@;
    let table = registry_table(found, paths);
    let mut keys: Vec<(u128, String)> = Vec::new();
    let mut i: usize = 0;
    while i < table.len()
        invariant
            i <= table@.len(),
            keys@.len() == i,
            forall|k: int| 0 <= k < i ==> #[trigger] keys_view(keys@)[k] == module_keys(table@)[k],
        decreases table@.len() - i,
    {
        let ghost before = keys_view(keys@);
        keys.push((module_order(table[i].id.as_str()) as u128, table[i].name.clone()));
        assert(keys_view(keys@) =~= before.push(module_keys(table@)[i as int]));
        i += 1;
    }
    assert(keys_view(keys@) =~= module_keys(table@));
    let ghost tv = table@;
    let sorted = sort_by_rank(table, keys);
    proof {
        let kv = module_keys(tv);
        let p = choose|p: Seq<int>|
            #[trigger] crate::order::is_perm(p, tv.len() as int) && sorted@.len() == tv.len() && (forall|k: int|
                0 <= k < sorted@.len() ==> #[trigger] sorted@[k] == tv[p[k]]) && (forall|k: int, m: int|
                0 <= k < m < sorted@.len() ==> rank_before(kv, #[trigger] p[k], #[trigger] p[m]));
        let n = tv.len() as int;
        assert forall|a: int, b: int| 0 <= a < b < sorted@.len() implies #[trigger] sorted@[a].id@ != #[trigger] sorted@[b].id@ by {
            assert(sorted@[a] == tv[p[a]] && sorted@[b] == tv[p[b]]);
            assert(p[a] != p[b]);
            if p[a] < p[b] {
                assert(tv[p[a]].id@ != tv[p[b]].id@);
            } else {
                assert(tv[p[b]].id@ != tv[p[a]].id@);
            }
        }
        assert forall|x: Seq<char>| (exists|k: int| 0 <= k < sorted@.len() && #[trigger] sorted@[k].id@ == x) <==> last_kept(c, x) >= 0 by {
            if exists|k: int| 0 <= k < sorted@.len() && #[trigger] sorted@[k].id@ == x {
                let k = choose|k: int| 0 <= k < sorted@.len() && #[trigger] sorted@[k].id@ == x;
                assert(sorted@[k] == tv[p[k]]);
                assert(tv[p[k]].id@ == x);
            }
            if last_kept(c, x) >= 0 {
                let q = choose|q: int| 0 <= q < tv.len() && #[trigger] tv[q].id@ == x;
                lemma_perm_onto(p, n, q);
                let k = choose|k: int| 0 <= k < n && p[k] == q;
                assert(sorted@[k] == tv[q]);
            }
        }
        assert forall|k: int|
            0 <= k < sorted@.len() implies registered_as(
            c[last_kept(c, sorted@[k].id@)].0,
            c[last_kept(c, sorted@[k].id@)].1,
            paths@,
            #[trigger] sorted@[k],
        ) by {
            assert(sorted@[k] == tv[p[k]]);
        }
        assert forall|k: int, m: int| 0 <= k < m < sorted@.len() implies listed_no_later(#[trigger] sorted@[k], #[trigger] sorted@[m]) by {
            assert(rank_before(kv, p[k], p[m]));
            assert(sorted@[k] == tv[p[k]] && sorted@[m] == tv[p[m]]);
            assert(kv[p[k]] == (module_order_spec(tv[p[k]].id@) as u128, tv[p[k]].name@));
            assert(kv[p[m]] == (module_order_spec(tv[p[m]].id@) as u128, tv[p[m]].name@));
        }
    }
    sorted
}

/// A permutation of `0..n` reaches every index.
proof fn lemma_perm_onto(p: Seq<int>, n: int, q: int)
    requires
        crate::order::is_perm(p, n),
        0 <= q < n,
    ensures
        exists|k: int| 0 <= k < n && p[k] == q,
    decreases n,
{
    let s = p.to_set();
    p.unique_seq_to_set();
    assert(p.no_duplicates()) by {
        assert forall|a: int, b: int| 0 <= a < p.len() && 0 <= b < p.len() && a != b implies p[a] != p[b] by {
            if a < b {
                assert(p[a] != p[b]);
            } else {
                assert(p[b] != p[a]);
            }
        }
    }
    let full = Set::new(|i: int| 0 <= i < n);
    assert(s.subset_of(full));
    vstd::set_lib::lemma_int_range(0, n);
    assert(full =~= vstd::set_lib::set_int_range(0, n));
    if !s.contains(q) {
        vstd::set_lib::lemma_len_subset(s, full.remove(q));
        assert(full.remove(q).len() == n - 1);
    }
    assert(s.contains(q));
}

} // verus!
