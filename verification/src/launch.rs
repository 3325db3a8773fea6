//! How a module step is launched: the arguments its process gets, the model
//! path it is told about, and what stands in for an output it never wrote.
use crate::catalog::{model_path_from_config, model_path_from_config_spec, opt_view, ModuleInfo};
use crate::flow::FlowNode;
use crate::graph::strings_view;
use crate::json::{JsonValue, JsonView};
use crate::run::{module_failure_message, module_failure_message_spec};
use crate::strs::{contains_seq, contains_str};
use crate::text::{replace_arg_placeholders, replace_arg_placeholders_spec};
use vstd::prelude::*;

verus! {

/// Some argument mentions `pat`.
pub open spec fn mentions(args: Seq<Seq<char>>, pat: Seq<char>) -> bool {
    exists|i: int| 0 <= i < args.len() && contains_seq(#[trigger] args[i], pat)
}

/// The arguments before their placeholders are filled in: the module's own
/// (or `--input {inputJson} --output {outputJson}` when it has none), then
/// `--input {inputJson}` and `--output {outputJson}` for whichever placeholder
/// no argument mentions.
pub open spec fn launch_args_template(args: Seq<Seq<char>>) -> Seq<Seq<char>> {
    let base = if args.len() == 0 {
        seq!["--input"@, "{inputJson}"@, "--output"@, "{outputJson}"@]
    } else {
        args
    };
    let with_input = if mentions(base, "{inputJson}"@) {
        base
    } else {
        base + seq!["--input"@, "{inputJson}"@]
    };
    if mentions(base, "{outputJson}"@) {
        with_input
    } else {
        with_input + seq!["--output"@, "{outputJson}"@]
    }
}

/// The arguments a module process gets after its command's own.
pub open spec fn launch_args_spec(
    args: Seq<Seq<char>>,
    input_path: Seq<char>,
    output_path: Seq<char>,
    resource_dir: Seq<char>,
    params_json: Seq<char>,
) -> Seq<Seq<char>> {
    launch_args_template(args).map_values(
        |a: Seq<char>| replace_arg_placeholders_spec(a, input_path, output_path, resource_dir, params_json),
    )
}

/// Whether some argument mentions `pat`.
fn any_mentions(args: &Vec<String>, pat: &str) -> (r: bool)
    ensures
        r == mentions(strings_view(args@), pat@),
{
    let mut i: usize = 0;
    while i < args.len()
        invariant
            i <= args@.len(),
            forall|j: int| 0 <= j < i ==> !contains_seq(#[trigger] strings_view(args@)[j], pat@),
        decreases args@.len() - i,
    {
        if contains_str(args[i].as_str(), pat) {
            assert(contains_seq(strings_view(args@)[i as int], pat@));
            return true;
        }
        i += 1;
    }
    false
}

/// The arguments a module process gets after its command's own, with the
/// paths of its input and output files, the run's resource folder and its
/// parameters as JSON filled in.
pub fn module_launch_args(
    module: &ModuleInfo,
    input_path: &str,
    output_path: &str,
    resource_dir: &str,
    params_json: &str,
) -> (r: Vec<String>)
    ensures
        strings_view(r@) == launch_args_spec(
            strings_view(module.launch.args@),
            input_path@,
            output_path@,
            resource_dir@,
            params_json@,
        ),
{
    let mut base: Vec<String> = Vec::new();
    if module.launch.args.len() == 0 {
        base.push("--input".to_owned());
        base.push("{inputJson}".to_owned());
        base.push("--output".to_owned());
        base.push("{outputJson}".to_owned());
        assert(strings_view(base@) =~= seq!["--input"@, "{inputJson}"@, "--output"@, "{outputJson}"@]);
    } else {
        let mut i: usize = 0;
        while i < module.launch.args.len()
            invariant
                i <= module.launch.args@.len(),
                strings_view(base@) =~= strings_view(module.launch.args@).take(i as int),
            decreases module.launch.args@.len() - i,
        {
            base.push(module.launch.args[i].clone());
            assert(strings_view(module.launch.args@).take(i + 1) =~= strings_view(module.launch.args@).take(i as int).push(
                module.launch.args@[i as int]@,
            ));
            i += 1;
        }
        assert(strings_view(module.launch.args@).take(module.launch.args@.len() as int) =~= strings_view(module.launch.args@));
    }
    let ghost bv = strings_view(base@);
    let has_input = any_mentions(&base, "{inputJson}");
    let has_output = any_mentions(&base, "{outputJson}");
    if !has_input {
        base.push("--input".to_owned());
        base.push("{inputJson}".to_owned());
    }
    if !has_output {
        base.push("--output".to_owned());
        base.push("{outputJson}".to_owned());
    }
    let ghost tv = strings_view(base@);
    assert(tv =~= launch_args_template(strings_view(module.launch.args@)));
    let mut out: Vec<String> = Vec::new();
    let mut k: usize = 0;
    while k < base.len()
        invariant
            tv == strings_view(base@),
            k <= base@.len(),
            out@.len() == k,
            forall|q: int| 0 <= q < k ==> #[trigger] out@[q]@ == replace_arg_placeholders_spec(
                tv[q],
                input_path@,
                output_path@,
                resource_dir@,
                params_json@,
            ),
        decreases base@.len() - k,
    {
        out.push(replace_arg_placeholders(base[k].as_str(), input_path, output_path, resource_dir, params_json));
        k += 1;
    }
    assert(strings_view(out@) =~= launch_args_spec(
        strings_view(module.launch.args@),
        input_path@,
        output_path@,
        resource_dir@,
        params_json@,
    ));
    out
}

/// The model path a module step is told about: the node's configured one,
/// else the module's, else the empty string.
pub open spec fn step_model_path_spec(module: ModuleInfo, config: JsonView) -> Seq<char> {
    match model_path_from_config_spec(config) {
        Some(p) => p,
        None => match opt_view(module.model_path) {
            Some(p) => p,
            None => Seq::empty(),
        },
    }
}

/// The model path a module step is told about.
pub fn step_model_path(module: &ModuleInfo, node: &FlowNode) -> (r: String)
    ensures
        r@ == step_model_path_spec(*module, node@.config),
{
    match model_path_from_config(&node.config) {
        Some(p) => p,
        None => match &module.model_path {
            Some(p) => p.clone(),
            None => String::new(),
        },
    }
}

/// What stands in for the output of a module process that wrote none: an
/// error status and verdict, and the failure as stderr tells it.
pub open spec fn missing_output_spec(module_name: Seq<char>, stderr: Seq<char>) -> JsonView {
    JsonView::Object(
        seq![
            ("status"@, JsonView::Str("error"@)),
            ("verdict"@, JsonView::Str("error"@)),
            ("message"@, JsonView::Str(module_failure_message_spec(module_name, stderr, true))),
        ],
    )
}

/// What stands in for the output of a module process that wrote none.
pub fn missing_output_value(module_name: &str, stderr: &str) -> (r: JsonValue)
    ensures
        r@ == missing_output_spec(module_name@, stderr@),
{
    let mut e: Vec<(String, JsonValue)> = Vec::new();
    e.push(("status".to_owned(), JsonValue::Str("error".to_owned())));
    e.push(("verdict".to_owned(), JsonValue::Str("error".to_owned())));
    e.push(("message".to_owned(), JsonValue::Str(module_failure_message(module_name, stderr, true))));
    let r = crate::ports::object_from_entries(e);
    assert(r@->Object_0 =~= missing_output_spec(module_name@, stderr@)->Object_0);
    r
}

} // verus!
