//! Audit schemes: a named flow saved as a `.ugcaudit` file, the library of
//! such files, and the names they get there.
use crate::catalog::ModuleInfo;
use crate::flow::{FlowDefinition, FlowView};
use crate::graph::strings_view;
use crate::json::{json_as_str, json_get, JsonValue, JsonView};
use crate::normalize::{normalize_flow, normalize_flow_spec};
use crate::strs::{decimal, push_decimal, str_eq, trim, trim_spec};
use crate::text::{scheme_file_stem, scheme_file_stem_spec};
use vstd::prelude::*;

verus! {

/// A saved audit scheme.
#[derive(Debug)]
pub struct AuditScheme {
    pub schema_version: u32,
    pub kind: String,
    pub id: String,
    pub name: String,
    pub flow: FlowDefinition,
}

/// A scheme file of the library, as the list shows it.
#[derive(Debug)]
pub struct SchemeListItem {
    pub id: String,
    pub name: String,
    pub path: String,
    pub modified_at: Option<u64>,
}

/// The schema version schemes are written with.
pub fn default_scheme_schema_version() -> (r: u32)
    ensures
        r == 1,
{
    1
}

/// The kind that marks a scheme file.
pub fn default_scheme_kind() -> (r: String)
    ensures
        r@ == "ugcAuditScheme"@,
{
    "ugcAuditScheme".to_owned()
}

/// The id of a new scheme, from the current time in milliseconds.
pub fn default_scheme_id(now_millis: u128) -> (r: String)
    ensures
        r@ == "scheme_"@ + decimal(now_millis as nat),
{
    let mut s = "scheme_".to_owned();
    push_decimal(&mut s, now_millis);
    s
}

/// The name a scheme gets when it has none.
pub open spec fn scheme_name_or_default(name: Seq<char>) -> Seq<char> {
    if trim_spec(name).len() == 0 {
        "未命名审核方案"@
    } else {
        name
    }
}

/// A scheme holding a flow, named after it, with the given id.
pub fn scheme_from_flow(flow: FlowDefinition, id: String) -> (r: AuditScheme)
    ensures
        r.schema_version == 1,
        r.kind@ == "ugcAuditScheme"@,
        r.id@ == id@,
        r.name@ == scheme_name_or_default(flow@.name),
        r.flow@ == flow@,
{
    let name = if trim(flow.name.as_str()).as_str().is_empty() {
        "未命名审核方案".to_owned()
    } else {
        flow.name.clone()
    };
    AuditScheme { schema_version: 1, kind: "ugcAuditScheme".to_owned(), id, name, flow }
}

/// A scheme brought to the current form: current schema and kind, an id (the
/// fresh one when blank), a name (a default when blank) that its flow takes
/// too, and the flow normalised against the modules.
pub fn normalize_scheme(scheme: AuditScheme, modules: &Vec<ModuleInfo>, fresh_id: String) -> (r: AuditScheme)
    ensures
        r.schema_version == 1,
        r.kind@ == "ugcAuditScheme"@,
        r.id@ == if trim_spec(scheme.id@).len() == 0 {
            fresh_id@
        } else {
            scheme.id@
        },
        r.name@ == scheme_name_or_default(scheme.name@),
        r.flow@ == normalize_flow_spec(
            FlowView { name: scheme_name_or_default(scheme.name@), ..scheme.flow@ },
            modules@,
        ),
{
    let AuditScheme { schema_version: _, kind: _, id, name, flow } = scheme;
    let id = if trim(id.as_str()).as_str().is_empty() {
        fresh_id
    } else {
        id
    };
    let name = if trim(name.as_str()).as_str().is_empty() {
        "未命名审核方案".to_owned()
    } else {
        name
    };
    let mut flow = flow;
    flow.name = name.clone();
    let flow = normalize_flow(flow, modules);
    AuditScheme { schema_version: 1, kind: "ugcAuditScheme".to_owned(), id, name, flow }
}

/// The `k`-th file name for a scheme: `{stem}.ugcaudit` for `k <= 1`, else `{stem}-{k}.ugcaudit`.
pub open spec fn scheme_candidate(stem: Seq<char>, k: int) -> Seq<char> {
    if k <= 1 {
        stem + ".ugcaudit"@
    } else {
        stem + "-"@ + decimal(k as nat) + ".ugcaudit"@
    }
}

/// The least `k >= 1` whose file name is not taken.
pub open spec fn first_free_scheme_index(stem: Seq<char>, taken: Seq<Seq<char>>) -> int {
    choose|k: int|
        k >= 1 && !taken.contains(scheme_candidate(stem, k)) && forall|j: int|
            1 <= j < k ==> taken.contains(#[trigger] scheme_candidate(stem, j))
}

/// Different indexes give different file names.
proof fn lemma_scheme_candidates_differ(stem: Seq<char>, i: int, j: int)
    requires
        1 <= i,
        1 <= j,
        scheme_candidate(stem, i) == scheme_candidate(stem, j),
    ensures
        i == j,
{
    reveal_strlit(".ugcaudit");
    reveal_strlit("-");
    assert("-"@.len() == 1);
    assert(".ugcaudit"@.len() == 9);
    crate::strs::lemma_decimal_len(i as nat);
    crate::strs::lemma_decimal_len(j as nat);
    let a = scheme_candidate(stem, i);
    let b = scheme_candidate(stem, j);
    if i >= 2 && j >= 2 {
        let di = decimal(i as nat);
        let dj = decimal(j as nat);
        assert(a == stem + "-"@ + di + ".ugcaudit"@);
        assert(b == stem + "-"@ + dj + ".ugcaudit"@);
        assert(a.len() == stem.len() + 1 + di.len() + 9);
        assert(b.len() == stem.len() + 1 + dj.len() + 9);
        assert(di.len() == dj.len());
        let p: int = stem.len() as int + 1;
        let q: int = p + di.len() as int;
        assert(a.subrange(p, q) =~= di);
        assert(b.subrange(p, q) =~= dj);
        crate::strs::lemma_decimal_injective(i as nat, j as nat);
    } else if i >= 2 || j >= 2 {
        assert(a.len() != b.len());
    }
}

/// The least free file name exists and is what `first_free_scheme_index` picks.
proof fn lemma_free_scheme_name(stem: Seq<char>, taken: Seq<Seq<char>>)
    ensures
        ({
            let k = first_free_scheme_index(stem, taken);
            &&& 1 <= k <= taken.len() + 1
            &&& !taken.contains(scheme_candidate(stem, k))
            &&& forall|j: int| 1 <= j < k ==> taken.contains(#[trigger] scheme_candidate(stem, j))
        }),
{
    let f = |k: int| scheme_candidate(stem, k);
    assert forall|i: int, j: int|
        1 <= i <= 1 + taken.len() && 1 <= j <= 1 + taken.len() && i != j implies #[trigger] f(i) != #[trigger] f(j) by {
        if f(i) == f(j) {
            lemma_scheme_candidates_differ(stem, i, j);
        }
    }
    crate::strs::lemma_free_candidate(taken, f, 1);
    let free = choose|i: int| 1 <= i <= 1 + taken.len() && !taken.contains(#[trigger] f(i));
    least_free_scheme(stem, taken, 1, free);
}

/// The least free index at or after `from` that is at most `bound`.
proof fn least_free_scheme(stem: Seq<char>, taken: Seq<Seq<char>>, from: int, bound: int)
    requires
        1 <= from <= bound,
        !taken.contains(scheme_candidate(stem, bound)),
        forall|j: int| 1 <= j < from ==> taken.contains(#[trigger] scheme_candidate(stem, j)),
    ensures
        ({
            let k = first_free_scheme_index(stem, taken);
            &&& 1 <= k <= bound
            &&& !taken.contains(scheme_candidate(stem, k))
            &&& forall|j: int| 1 <= j < k ==> taken.contains(#[trigger] scheme_candidate(stem, j))
        }),
    decreases bound - from,
{
    if !taken.contains(scheme_candidate(stem, from)) {
        let k = first_free_scheme_index(stem, taken);
        assert(from >= 1 && !taken.contains(scheme_candidate(stem, from)) && forall|j: int|
            1 <= j < from ==> taken.contains(#[trigger] scheme_candidate(stem, j)));
        if k < from {
            assert(taken.contains(scheme_candidate(stem, k)));
        }
        if k > from {
            assert(taken.contains(scheme_candidate(stem, from)));
        }
    } else {
        least_free_scheme(stem, taken, from + 1, bound);
    }
}

/// The file name a scheme named `scheme_name` gets in the library, given the
/// names of the files already there: its safe stem with `.ugcaudit`, or with
/// `-{k}.ugcaudit` for the least `k >= 2` whose name is free.
pub open spec fn unique_scheme_name_spec(scheme_name: Seq<char>, taken: Seq<Seq<char>>) -> Seq<char> {
    let stem = scheme_file_stem_spec(scheme_name);
    scheme_candidate(stem, first_free_scheme_index(stem, taken))
}

/// The file name a scheme gets in the library, given the names already there.
pub fn unique_scheme_library_path(scheme_name: &str, existing: &Vec<String>) -> (r: String)
    requires
        existing@.len() < usize::MAX,
    ensures
        r@ == unique_scheme_name_spec(scheme_name@, strings_view(existing@)),
        !strings_view(existing@).contains(r@),
{
    let stem = scheme_file_stem(scheme_name);
    let ghost taken = strings_view(existing@);
    proof {
        lemma_free_scheme_name(stem@, taken);
    }
    let ghost target = first_free_scheme_index(stem@, taken);
    let mut k: usize = 1;
    while k <= existing.len()
        invariant
            taken == strings_view(existing@),
            existing@.len() < usize::MAX,
            stem@ == scheme_file_stem_spec(scheme_name@),
            target == first_free_scheme_index(stem@, taken),
            1 <= k <= target,
            target <= taken.len() + 1,
            !taken.contains(scheme_candidate(stem@, target)),
            forall|j: int| 1 <= j < target ==> taken.contains(#[trigger] scheme_candidate(stem@, j)),
        decreases target - k,
    {
        let mut candidate = stem.clone();
        if k > 1 {
            candidate.append("-");
            push_decimal(&mut candidate, k as u128);
        }
        candidate.append(".ugcaudit");
        assert(candidate@ =~= scheme_candidate(stem@, k as int));
        if !crate::graph::strings_contain(existing, candidate.as_str()) {
            assert(k == target) by {
                if k < target {
                    assert(taken.contains(scheme_candidate(stem@, k as int)));
                }
            }
            return candidate;
        }
        k += 1;
    }
    let mut candidate = stem.clone();
    if k > 1 {
        candidate.append("-");
        push_decimal(&mut candidate, k as u128);
    }
    candidate.append(".ugcaudit");
    assert(candidate@ =~= scheme_candidate(stem@, k as int));
    candidate
}

/// What the scheme list shows of a scheme file: its id (or its flow's id), and
/// its non-blank name trimmed (or its flow's name), else the file's stem.
pub open spec fn scheme_list_fields(value: JsonView, file_stem: Seq<char>) -> (Seq<char>, Seq<char>) {
    let flow = json_get(value, "flow"@);
    let flow_str = |key: Seq<char>|
        match flow {
            Some(f) => json_as_str(json_get(f, key)),
            None => None,
        };
    let id = match json_as_str(json_get(value, "id"@)) {
        Some(s) => s,
        None => match flow_str("id"@) {
            Some(s) => s,
            None => Seq::empty(),
        },
    };
    let name = match json_as_str(json_get(value, "name"@)) {
        Some(s) => Some(s),
        None => flow_str("name"@),
    };
    let shown = match name {
        Some(n) => if trim_spec(n).len() > 0 {
            trim_spec(n)
        } else {
            file_stem
        },
        None => file_stem,
    };
    (id, shown)
}

/// The string member `key` of the member `outer` of a value.
fn nested_str(value: &JsonValue, outer: &str, key: &str) -> (r: Option<String>)
    ensures
        crate::catalog::opt_view(r) == match json_get(value@, outer@) {
            Some(f) => json_as_str(json_get(f, key@)),
            None => None,
        },
{
    match value.get(outer) {
        Some(f) => match f.get(key) {
            Some(v) => match v.as_str() {
                Some(s) => Some(s.to_owned()),
                None => None,
            },
            None => None,
        },
        None => None,
    }
}

/// The string member `key` of a value.
fn member_str(value: &JsonValue, key: &str) -> (r: Option<String>)
    ensures
        crate::catalog::opt_view(r) == json_as_str(json_get(value@, key@)),
{
    match value.get(key) {
        Some(v) => match v.as_str() {
            Some(s) => Some(s.to_owned()),
            None => None,
        },
        None => None,
    }
}

/// The list entry of a scheme file, from its contents, the file's stem, its
/// path and when it was last changed.
pub fn scheme_list_item(value: &JsonValue, file_stem: &str, path: String, modified_at: Option<u64>) -> (r: SchemeListItem)
    ensures
        (r.id@, r.name@) == scheme_list_fields(value@, file_stem@),
        r.path@ == path@,
        r.modified_at == modified_at,
{
    let id = match member_str(value, "id") {
        Some(s) => s,
        None => match nested_str(value, "flow", "id") {
            Some(s) => s,
            None => String::new(),
        },
    };
    let name = match member_str(value, "name") {
        Some(s) => Some(s),
        None => nested_str(value, "flow", "name"),
    };
    let shown = match name {
        Some(n) => {
            let t = trim(n.as_str());
            if !t.as_str().is_empty() {
                t
            } else {
                file_stem.to_owned()
            }
        },
        None => file_stem.to_owned(),
    };
    SchemeListItem { id, name: shown, path, modified_at }
}

/// Whether a file extension marks a scheme file (compared case-insensitively).
pub fn is_scheme_extension(extension: &str) -> (r: bool)
    ensures
        r == (crate::strs::ascii_lower_seq(extension@) == "ugcaudit"@),
{
    let lower = crate::strs::to_ascii_lowercase(extension);
    str_eq(lower.as_str(), "ugcaudit")
}

/// The rank of a scheme in the library list by when its file changed: newer
/// files first, files without a time last.
pub open spec fn scheme_rank(modified_at: Option<u64>) -> u128 {
    match modified_at {
        Some(v) => (u64::MAX - v) as u128,
        None => 0x1_0000_0000_0000_0000u128,
    }
}

/// The sort keys of library items: rank, then name.
pub open spec fn scheme_keys(items: Seq<SchemeListItem>) -> Seq<(u128, Seq<char>)> {
    items.map_values(|it: SchemeListItem| (scheme_rank(it.modified_at), it.name@))
}

/// The schemes of the library as the list shows them: newest first, then by
/// name, items alike in both keeping their order.
pub fn sort_scheme_items(items: Vec<SchemeListItem>) -> (r: Vec<SchemeListItem>)
    ensures
        crate::order::sorted_by_rank(items@, scheme_keys(items@), r@),
{
    let mut keys: Vec<(u128, String)> = Vec::new();
    let mut i: usize = 0;
    while i < items.len()
        invariant
            i <= items@.len(),
            keys@.len() == i,
            forall|k: int| 0 <= k < i ==> #[trigger] crate::order::keys_view(keys@)[k] == scheme_keys(items@)[k],
        decreases items@.len() - i,
    {
        let rank: u128 = match items[i].modified_at {
            Some(v) => (u64::MAX - v) as u128,
            None => 0x1_0000_0000_0000_0000u128,
        };
        let ghost before = crate::order::keys_view(keys@);
        keys.push((rank, items[i].name.clone()));
        assert(crate::order::keys_view(keys@) =~= before.push(scheme_keys(items@)[i as int]));
        i += 1;
    }
    assert(crate::order::keys_view(keys@) =~= scheme_keys(items@));
    crate::order::sort_by_rank(items, keys)
}

} // verus!
