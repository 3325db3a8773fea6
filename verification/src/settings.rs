//! Settings and the Python runtime: where products and dependencies go, the
//! dependencies the client can install, and the environment a module process
//! gets.
use crate::strs::{concat2, str_eq, trim, trim_spec};
use vstd::prelude::*;

verus! {

/// Where run products and runtime dependencies are kept.
#[derive(Debug)]
pub struct AppSettings {
    pub artifact_root: String,
    pub dependency_root: String,
}

/// How far a runtime dependency is installed.
#[derive(Debug)]
pub struct RuntimeDependencyStatus {
    pub id: String,
    pub name: String,
    pub installed: bool,
    pub version: Option<String>,
    pub folder: String,
    pub site_packages: String,
}

/// The state of the Python runtime and its dependencies.
#[derive(Debug)]
pub struct RuntimeStatus {
    pub runtime_root: String,
    pub runtime_source: String,
    pub dependency_root: String,
    pub python_dir: String,
    pub python_path: String,
    pub python_installed: bool,
    pub python_version: Option<String>,
    pub dependencies: Vec<RuntimeDependencyStatus>,
}

/// One line of runtime output.
#[derive(Debug)]
pub struct RuntimeLogLine {
    pub timestamp: u64,
    pub scope: String,
    pub stream: String,
    pub line: String,
}

/// A dependency the client can install into its runtime: the packages that
/// show it is there, and the arguments `pip install` gets.
#[derive(Debug)]
pub struct RuntimeDependencySpec {
    pub id: &'static str,
    pub name: &'static str,
    pub seed_packages: Vec<&'static str>,
    pub install_args: Vec<&'static str>,
}

/// The views of a list of static strings.
pub open spec fn strs_view(v: Seq<&'static str>) -> Seq<Seq<char>> {
    v.map_values(|s: &'static str| s@)
}

/// A dependency row: id, name, seed packages, install arguments.
pub type DependencyRow = (Seq<char>, Seq<char>, Seq<Seq<char>>, Seq<Seq<char>>);

/// The installable dependencies: Torch (CUDA 12.6 wheels), Transformers,
/// Pillow and Accelerate (from the Aliyun mirror).
pub open spec fn dependency_table() -> Seq<DependencyRow> {
    seq![
        (
            "torch"@,
            "Torch"@,
            seq!["torch"@, "torchvision"@],
            seq!["--index-url"@, "https://download.pytorch.org/whl/cu126"@, "torch"@, "torchvision"@],
        ),
        (
            "transformers"@,
            "Transformers"@,
            seq!["transformers"@, "tokenizers"@, "safetensors"@],
            seq![
                "-i"@,
                "https://mirrors.aliyun.com/pypi/simple/"@,
                "transformers>=4.53.0"@,
                "tokenizers"@,
                "safetensors"@,
            ],
        ),
        ("pillow"@, "Pillow"@, seq!["pillow"@], seq!["-i"@, "https://mirrors.aliyun.com/pypi/simple/"@, "pillow"@]),
        (
            "accelerate"@,
            "Accelerate"@,
            seq!["accelerate"@],
            seq!["-i"@, "https://mirrors.aliyun.com/pypi/simple/"@, "accelerate"@],
        ),
    ]
}

/// The view of a dependency.
pub open spec fn dependency_view(d: RuntimeDependencySpec) -> DependencyRow {
    (d.id@, d.name@, strs_view(d.seed_packages@), strs_view(d.install_args@))
}

/// A dependency built from its parts.
fn dependency(
    id: &'static str,
    name: &'static str,
    seeds: Vec<&'static str>,
    args: Vec<&'static str>,
) -> (r: RuntimeDependencySpec)
    ensures
        dependency_view(r) == (id@, name@, strs_view(seeds@), strs_view(args@)),
{
    RuntimeDependencySpec { id, name, seed_packages: seeds, install_args: args }
}

/// The installable dependencies.
pub fn runtime_dependency_specs() -> (r: Vec<RuntimeDependencySpec>)
    ensures
        r@.map_values(|d: RuntimeDependencySpec| dependency_view(d)) == dependency_table(),
{
    let mut r: Vec<RuntimeDependencySpec> = Vec::new();
    let torch = dependency(
        "torch",
        "Torch",
        vec!["torch", "torchvision"],
        vec!["--index-url", "https://download.pytorch.org/whl/cu126", "torch", "torchvision"],
    );
    let transformers = dependency(
        "transformers",
        "Transformers",
        vec!["transformers", "tokenizers", "safetensors"],
        vec!["-i", "https://mirrors.aliyun.com/pypi/simple/", "transformers>=4.53.0", "tokenizers", "safetensors"],
    );
    let pillow = dependency("pillow", "Pillow", vec!["pillow"], vec!["-i", "https://mirrors.aliyun.com/pypi/simple/", "pillow"]);
    let accelerate = dependency(
        "accelerate",
        "Accelerate",
        vec!["accelerate"],
        vec!["-i", "https://mirrors.aliyun.com/pypi/simple/", "accelerate"],
    );
    assert(dependency_view(torch) == dependency_table()[0]);
    assert(dependency_view(transformers) == dependency_table()[1]);
    assert(dependency_view(pillow) == dependency_table()[2]);
    assert(dependency_view(accelerate) == dependency_table()[3]);
    r.push(torch);
    r.push(transformers);
    r.push(pillow);
    r.push(accelerate);
    assert(r@.map_values(|d: RuntimeDependencySpec| dependency_view(d)) =~= dependency_table());
    r
}

/// The dependency with id `dependency_id`, or the error naming it.
pub fn runtime_dependency_spec(dependency_id: &str) -> (r: Result<RuntimeDependencySpec, String>)
    ensures
        match r {
            Ok(d) => dependency_view(d).0 == dependency_id@ && exists|i: int|
                0 <= i < dependency_table().len() && #[trigger] dependency_table()[i] == dependency_view(d),
            Err(e) => e@ == "未知运行依赖："@ + dependency_id@ && forall|i: int|
                0 <= i < dependency_table().len() ==> #[trigger] dependency_table()[i].0 != dependency_id@,
        },
{
    let mut specs = runtime_dependency_specs();
    let ghost table = dependency_table();
    let ghost views = specs@.map_values(|d: RuntimeDependencySpec| dependency_view(d));
    let mut i: usize = 0;
    while i < specs.len()
        invariant
            views == specs@.map_values(|d: RuntimeDependencySpec| dependency_view(d)),
            views == table,
            table == dependency_table(),
            i <= specs@.len(),
            forall|j: int| 0 <= j < i ==> #[trigger] table[j].0 != dependency_id@,
        decreases specs@.len() - i,
    {
        assert(views[i as int] == dependency_view(specs@[i as int]));
        if str_eq(specs[i].id, dependency_id) {
            let d = specs.remove(i);
            return Ok(d);
        }
        i += 1;
    }
    Err(concat2("未知运行依赖：", dependency_id))
}

/// The variables a module process of a run gets, appended in this order.
pub open spec fn run_module_env(
    run_id: Seq<char>,
    task_name: Seq<char>,
    resource_dir: Seq<char>,
    artifact_dir: Seq<char>,
    step_artifact_dir: Seq<char>,
) -> Seq<(Seq<char>, Seq<char>)> {
    seq![
        ("UGCAUDIT_RUN_ID"@, run_id),
        ("UGCAUDIT_TASK_NAME"@, task_name),
        ("UGCAUDIT_RESOURCE_ROOT"@, resource_dir),
        ("UGCAUDIT_ARTIFACT_DIR"@, artifact_dir),
        ("UGCAUDIT_STEP_ARTIFACT_DIR"@, step_artifact_dir),
    ]
}

/// The views of environment pairs.
pub open spec fn env_view(v: Seq<(String, String)>) -> Seq<(Seq<char>, Seq<char>)> {
    v.map_values(|p: (String, String)| (p.0@, p.1@))
}

/// Appends the variables that tell a module process about its run.
pub fn append_run_module_env(
    envs: &mut Vec<(String, String)>,
    run_id: &str,
    task_name: &str,
    resource_dir: &str,
    artifact_dir: &str,
    step_artifact_dir: &str,
)
    ensures
        env_view(final(envs)@) == env_view(old(envs)@) + run_module_env(
            run_id@,
            task_name@,
            resource_dir@,
            artifact_dir@,
            step_artifact_dir@,
        ),
{
    let ghost before = env_view(envs@);
    envs.push(("UGCAUDIT_RUN_ID".to_owned(), run_id.to_owned()));
    envs.push(("UGCAUDIT_TASK_NAME".to_owned(), task_name.to_owned()));
    envs.push(("UGCAUDIT_RESOURCE_ROOT".to_owned(), resource_dir.to_owned()));
    envs.push(("UGCAUDIT_ARTIFACT_DIR".to_owned(), artifact_dir.to_owned()));
    envs.push(("UGCAUDIT_STEP_ARTIFACT_DIR".to_owned(), step_artifact_dir.to_owned()));
    assert(env_view(envs@) =~= before + run_module_env(
        run_id@,
        task_name@,
        resource_dir@,
        artifact_dir@,
        step_artifact_dir@,
    ));
}

/// Settings with blank roots replaced by the defaults.
pub open spec fn resolved_root(value: Seq<char>, default: Seq<char>) -> Seq<char> {
    if trim_spec(value).len() == 0 {
        default
    } else {
        value
    }
}

/// Fills in blank roots with the defaults (the program's products folder and
/// the dependency folder that the environment and install layout point to).
pub fn resolve_app_settings(settings: AppSettings, default_artifact_root: &str, default_dependency_root: &str) -> (r: AppSettings)
    ensures
        r.artifact_root@ == resolved_root(settings.artifact_root@, default_artifact_root@),
        r.dependency_root@ == resolved_root(settings.dependency_root@, default_dependency_root@),
{
    let AppSettings { artifact_root, dependency_root } = settings;
    let artifact_root = if trim(artifact_root.as_str()).as_str().is_empty() {
        default_artifact_root.to_owned()
    } else {
        artifact_root
    };
    let dependency_root = if trim(dependency_root.as_str()).as_str().is_empty() {
        default_dependency_root.to_owned()
    } else {
        dependency_root
    };
    AppSettings { artifact_root, dependency_root }
}

} // verus!
