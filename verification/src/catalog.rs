//! The model catalog: which backends can serve each task, the options a
//! user can choose from, and whether a chosen backend is valid.
use vstd::prelude::*;
use crate::text::{copy_string, owned, str_eq};

verus! {

/// Tasks that components can request a backend for.
#[derive(Debug, Clone, Copy, PartialEq, Eq, Structural)]
pub enum Task {
    Intent,
    Slots,
    Vad,
    NoiseSuppression,
    Stt,
}

/// Metadata about a model, read from its `model.toml`.
#[derive(Debug, Clone, PartialEq)]
pub struct ModelDef {
    pub id: String,
    pub name: String,
    pub tasks: Vec<Task>,
    pub description: String,
    /// The model's folder, set after scanning.
    pub path: String,
}

/// A selectable option for a task.
#[derive(Debug, Clone, PartialEq)]
pub struct BackendOption {
    pub id: String,
    pub name: String,
    /// The model the option uses; `None` for code backends and "disabled".
    pub model_id: Option<String>,
}

/// The content of an option: id, name and model id.
pub open spec fn option_view(o: BackendOption) -> (Seq<char>, Seq<char>, Option<Seq<char>>) {
    (
        o.id@,
        o.name@,
        match o.model_id {
            Some(m) => Some(m@),
            None => None,
        },
    )
}

/// The contents of a list of options.
pub open spec fn options_view(s: Seq<BackendOption>) -> Seq<(Seq<char>, Seq<char>, Option<Seq<char>>)> {
    s.map_values(|o: BackendOption| option_view(o))
}

/// The backends implemented in code for each task, as (id, name).
pub open spec fn code_backend_list(task: Task) -> Seq<(Seq<char>, Seq<char>)> {
    match task {
        Task::Intent => seq![("intent-classifier"@, "Intent Classifier"@)],
        Task::Slots => Seq::empty(),
        Task::Vad => seq![("energy"@, "Energy-based"@), ("nnnoiseless"@, "Nnnoiseless"@)],
        Task::NoiseSuppression => seq![("nnnoiseless"@, "Nnnoiseless"@)],
        Task::Stt => seq![("vosk"@, "Vosk"@)],
    }
}

/// Code backends as options (without a model).
pub open spec fn code_options(task: Task) -> Seq<(Seq<char>, Seq<char>, Option<Seq<char>>)> {
    code_backend_list(task).map_values(
        |b: (Seq<char>, Seq<char>)| (b.0, b.1, None::<Seq<char>>),
    )
}

fn option(id: &str, name: &str) -> (r: BackendOption)
    ensures
        option_view(r) == (id@, name@, None::<Seq<char>>),
{
    BackendOption { id: owned(id), name: owned(name), model_id: None }
}

/// Code backends per task.
pub fn code_backends(task: Task) -> (r: Vec<BackendOption>)
    ensures
        options_view(r@) == code_options(task),
{
    let r = match task {
        Task::Intent => vec![option("intent-classifier", "Intent Classifier")],
        Task::Slots => Vec::new(),
        Task::Vad => vec![option("energy", "Energy-based"), option("nnnoiseless", "Nnnoiseless")],
        Task::NoiseSuppression => vec![option("nnnoiseless", "Nnnoiseless")],
        Task::Stt => vec![option("vosk", "Vosk")],
    };
    assert(options_view(r@) =~= code_options(task));
    r
}

/// The model serves the task.
pub open spec fn serves(m: ModelDef, task: Task) -> bool {
    m.tasks@.contains(task)
}

fn model_serves(m: &ModelDef, task: Task) -> (r: bool)
    ensures
        r == serves(*m, task),
{
    let mut k: usize = 0;
    while k < m.tasks.len()
        invariant
            0 <= k <= m.tasks@.len(),
            forall|j: int| 0 <= j < k ==> m.tasks@[j] != task,
        decreases m.tasks@.len() - k,
    {
        if m.tasks[k] == task {
            return true;
        }
        k = k + 1;
    }
    false
}

/// The options offered by the models that serve the task, in catalog order.
pub open spec fn model_options(task: Task, models: Seq<ModelDef>) -> Seq<
    (Seq<char>, Seq<char>, Option<Seq<char>>),
>
    decreases models.len(),
{
    if models.len() == 0 {
        Seq::empty()
    } else {
        let rest = model_options(task, models.drop_last());
        let m = models.last();
        if serves(m, task) {
            rest.push((m.id@, m.name@, Some(m.id@)))
        } else {
            rest
        }
    }
}

/// Every option for a task: "none" first, then the code backends, then the
/// models of the catalog that serve the task.
pub open spec fn all_options(task: Task, models: Seq<ModelDef>) -> Seq<
    (Seq<char>, Seq<char>, Option<Seq<char>>),
> {
    seq![("none"@, "Disabled"@, None::<Seq<char>>)] + code_options(task) + model_options(task, models)
}

/// All options for a task, in the order shown to the user.
pub fn get_options(task: Task, models: &[ModelDef]) -> (r: Vec<BackendOption>)
    ensures
        options_view(r@) == all_options(task, models@),
{
    let mut r = vec![option("none", "Disabled")];
    let mut code = code_backends(task);
    r.append(&mut code);
    assert(options_view(r@) =~= seq![("none"@, "Disabled"@, None::<Seq<char>>)] + code_options(task));
    let ghost head = options_view(r@);
    let mut i: usize = 0;
    while i < models.len()
        invariant
            0 <= i <= models@.len(),
            options_view(r@) == head + model_options(task, models@.subrange(0, i as int)),
            head == seq![("none"@, "Disabled"@, None::<Seq<char>>)] + code_options(task),
        decreases models@.len() - i,
    {
        let m = &models[i];
        let ghost sub = models@.subrange(0, i + 1);
        proof {
            assert(sub.drop_last() =~= models@.subrange(0, i as int));
            assert(sub.last() == models@[i as int]);
        }
        if model_serves(m, task) {
            let o = BackendOption {
                id: copy_string(&m.id),
                name: copy_string(&m.name),
                model_id: Some(copy_string(&m.id)),
            };
            let ghost prev = r@;
            r.push(o);
            assert(options_view(r@) =~= options_view(prev).push(option_view(o)));
        }
        i = i + 1;
    }
    assert(models@.subrange(0, models@.len() as int) =~= models@);
    r
}

/// Some model of the catalog has the id and serves the task.
pub open spec fn model_backs(task: Task, id: Seq<char>, models: Seq<ModelDef>) -> bool {
    exists|k: int| 0 <= k < models.len() && (#[trigger] models[k]).id@ == id && serves(models[k], task)
}

/// A backend id is valid for a task: "none", a code backend of the task, or
/// a model that serves the task.
pub open spec fn valid_backend(task: Task, id: Seq<char>, models: Seq<ModelDef>) -> bool {
    ||| id == "none"@
    ||| exists|k: int| 0 <= k < code_backend_list(task).len() && (#[trigger] code_backend_list(task)[k]).0 == id
    ||| model_backs(task, id, models)
}

/// Whether a backend id can be chosen for a task.
pub fn is_valid_backend(task: Task, backend_id: &str, models: &[ModelDef]) -> (r: bool)
    ensures
        r == valid_backend(task, backend_id@, models@),
{
    if str_eq(backend_id, "none") {
        return true;
    }
    let code = code_backends(task);
    assert(options_view(code@).len() == code@.len());
    assert(code_options(task).len() == code_backend_list(task).len());
    let mut k: usize = 0;
    while k < code.len()
        invariant
            options_view(code@) == code_options(task),
            code@.len() == code_backend_list(task).len(),
            0 <= k <= code@.len(),
            forall|j: int| 0 <= j < k ==> (#[trigger] code_backend_list(task)[j]).0 != backend_id@,
        decreases code@.len() - k,
    {
        assert(options_view(code@)[k as int] == option_view(code@[k as int]));
        assert(code_options(task)[k as int] == (
            code_backend_list(task)[k as int].0,
            code_backend_list(task)[k as int].1,
            None::<Seq<char>>,
        ));
        if str_eq(code[k].id.as_str(), backend_id) {
            return true;
        }
        k = k + 1;
    }
    let mut i: usize = 0;
    while i < models.len()
        invariant
            0 <= i <= models@.len(),
            forall|j: int| 0 <= j < i ==> !((#[trigger] models@[j]).id@ == backend_id@ && serves(models@[j], task)),
        decreases models@.len() - i,
    {
        if str_eq(models[i].id.as_str(), backend_id) && model_serves(&models[i], task) {
            return true;
        }
        i = i + 1;
    }
    false
}

/// The definition of a model in the catalog, by id: the first with the id.
pub fn get_model_def<'a>(catalog: &'a [ModelDef], id: &str) -> (r: Option<&'a ModelDef>)
    ensures
        r is None <==> forall|k: int| 0 <= k < catalog@.len() ==> (#[trigger] catalog@[k]).id@ != id@,
        r matches Some(m) ==> exists|k: int|
            0 <= k < catalog@.len() && *m == catalog@[k] && m.id@ == id@ && forall|j: int|
                0 <= j < k ==> (#[trigger] catalog@[j]).id@ != id@,
{
    let mut i: usize = 0;
    while i < catalog.len()
        invariant
            0 <= i <= catalog@.len(),
            forall|j: int| 0 <= j < i ==> (#[trigger] catalog@[j]).id@ != id@,
        decreases catalog@.len() - i,
    {
        if str_eq(catalog[i].id.as_str(), id) {
            return Some(&catalog[i]);
        }
        i = i + 1;
    }
    None
}

/// The first 23 bytes of a Git LFS pointer file: "version https://git-lfs".
pub open spec fn lfs_magic() -> Seq<u8> {
    seq![
        118u8, 101, 114, 115, 105, 111, 110, 32, 104, 116, 116, 112, 115, 58, 47, 47, 103, 105,
        116, 45, 108, 102, 115,
    ]
}

/// The bytes read from the start of a file are the LFS pointer prefix. The
/// caller reads at most 23 bytes; a shorter read is not a pointer.
pub fn is_lfs_pointer(head: &[u8]) -> (r: bool)
    ensures
        r == (head@ == lfs_magic()),
{
    let magic: [u8; 23] = [
        118u8, 101, 114, 115, 105, 111, 110, 32, 104, 116, 116, 112, 115, 58, 47, 47, 103, 105,
        116, 45, 108, 102, 115,
    ];
    assert(magic@ =~= lfs_magic());
    if head.len() != 23 {
        return false;
    }
    let mut k: usize = 0;
    while k < 23
        invariant
            head@.len() == 23,
            magic@ == lfs_magic(),
            0 <= k <= 23,
            forall|j: int| 0 <= j < k ==> head@[j] == lfs_magic()[j],
        decreases 23 - k,
    {
        if head[k] != magic[k] {
            assert(head@[k as int] != lfs_magic()[k as int]);
            return false;
        }
        k = k + 1;
    }
    assert(head@ =~= lfs_magic());
    true
}

/// The message for a model whose binary is an LFS pointer.
pub open spec fn lfs_pointer_message() -> Seq<char> {
    "model.onnx is a Git LFS pointer (binary not downloaded). Run `git lfs pull` to download the actual model file."@
}

/// Finishes loading a model definition: it is refused when its `model.onnx`
/// exists and is an LFS pointer; otherwise it gets its folder as path.
pub fn load_model_def(def: ModelDef, model_dir: &str, onnx_is_lfs_pointer: bool) -> (r: Result<
    ModelDef,
    String,
>)
    ensures
        onnx_is_lfs_pointer ==> (r matches Err(m) && m@ == lfs_pointer_message()),
        !onnx_is_lfs_pointer ==> (r matches Ok(d) && d.id == def.id && d.name == def.name
            && d.tasks == def.tasks && d.description == def.description && d.path@ == model_dir@),
{
    if onnx_is_lfs_pointer {
        return Err(
            owned(
                "model.onnx is a Git LFS pointer (binary not downloaded). Run `git lfs pull` to download the actual model file.",
            ),
        );
    }
    let mut d = def;
    d.path = owned(model_dir);
    Ok(d)
}

/// A backend id is valid for a task exactly when it is the id of one of the
/// options offered for the task.
pub proof fn law_valid_iff_offered(task: Task, id: Seq<char>, models: Seq<ModelDef>)
    ensures
        valid_backend(task, id, models) <==> exists|k: int|
            0 <= k < all_options(task, models).len() && (#[trigger] all_options(task, models)[k]).0
                == id,
{
    let opts = all_options(task, models);
    let head = seq![("none"@, "Disabled"@, None::<Seq<char>>)];
    let code = code_options(task);
    let mo = model_options(task, models);
    assert(opts == head + code + mo);
    lemma_model_options(task, models, id);
    if valid_backend(task, id, models) {
        if id == "none"@ {
            assert(opts[0].0 == id);
        } else if exists|k: int| 0 <= k < code_backend_list(task).len() && (#[trigger] code_backend_list(task)[k]).0 == id {
            let k = choose|k: int| 0 <= k < code_backend_list(task).len() && (#[trigger] code_backend_list(task)[k]).0 == id;
            assert(opts[1 + k] == code[k]);
        } else {
            let k = choose|k: int| 0 <= k < mo.len() && (#[trigger] mo[k]).0 == id;
            assert(opts[1 + code.len() + k] == mo[k]);
        }
    }
    if exists|k: int| 0 <= k < opts.len() && (#[trigger] opts[k]).0 == id {
        let k = choose|k: int| 0 <= k < opts.len() && (#[trigger] opts[k]).0 == id;
        if k == 0 {
        } else if k < 1 + code.len() {
            assert(opts[k] == code[k - 1]);
            assert(code_backend_list(task)[k - 1].0 == id);
        } else {
            assert(opts[k] == mo[k - 1 - code.len()]);
        }
    }
}

proof fn lemma_model_options(task: Task, models: Seq<ModelDef>, id: Seq<char>)
    ensures
        model_backs(task, id, models) <==> exists|k: int|
            0 <= k < model_options(task, models).len() && (#[trigger] model_options(task, models)[k]).0 == id,
    decreases models.len(),
{
    if models.len() > 0 {
        let u = models.drop_last();
        lemma_model_options(task, u, id);
        let rest = model_options(task, u);
        let mo = model_options(task, models);
        if model_backs(task, id, models) {
            let k = choose|k: int| 0 <= k < models.len() && (#[trigger] models[k]).id@ == id && serves(models[k], task);
            if k < models.len() - 1 {
                assert(u[k] == models[k]);
                assert(model_backs(task, id, u));
                let j = choose|j: int| 0 <= j < rest.len() && (#[trigger] rest[j]).0 == id;
                assert(mo[j] == rest[j]);
            } else {
                assert(mo[rest.len() as int].0 == id);
            }
        }
        if exists|k: int| 0 <= k < mo.len() && (#[trigger] mo[k]).0 == id {
            let k = choose|k: int| 0 <= k < mo.len() && (#[trigger] mo[k]).0 == id;
            if k < rest.len() {
                assert(mo[k] == rest[k]);
                let j = choose|j: int| 0 <= j < u.len() && (#[trigger] u[j]).id@ == id && serves(u[j], task);
                assert(models[j] == u[j]);
            } else {
                assert(models[models.len() - 1] == models.last());
            }
        }
    }
}

} // verus!
