use vstd::prelude::*;
use crate::macros::mod_args::{ModArgs, ModArgsView, mod_args_spec};
use crate::macros::task::{Task, TaskView, task_args_spec};
use crate::macros::tokens::{ArgError, ArgToken};

verus! {

/// An attribute of a function of an `os` module.
pub enum FnAttr {
    /// `#[task(..)]`, with the tokens between the delimiters of its
    /// arguments, or `None` when they are not one delimited group.
    Task(Option<Vec<ArgToken>>),
    /// `#[init]`.
    Init,
    /// Any other attribute, kept on the function.
    Other,
}

/// A function of an `os` module, as far as the `os` attribute reads it.
pub struct FnItem {
    /// The function's name.
    pub name: String,
    /// The function declares no return type.
    pub returns_unit: bool,
    /// Its attributes, in order.
    pub attrs: Vec<FnAttr>,
}

/// Why an `os` module was refused.
#[derive(Clone, Copy, Debug, PartialEq, Eq, Structural)]
pub enum OsError {
    /// The arguments of the `os` or of a `task` attribute are wrong.
    Args(ArgError),
    /// Some tasks of a function give an id and some do not.
    MixedIds,
    /// A second `init` function.
    DuplicateInit,
    /// The `init` function declares a return type.
    InitReturnsValue,
}

/// What the `os` attribute collects from the functions of its module.
pub struct OsItems {
    /// The declared tasks, in order.
    pub tasks: Vec<Task>,
    /// The name of the `init` function, if there is one.
    pub init_function: Option<String>,
    /// For each function, the positions of the attributes it keeps.
    pub kept_attrs: Vec<Vec<usize>>,
}

/// What has been collected so far, as the contracts see it.
pub struct CollectState {
    pub tasks: Seq<TaskView>,
    pub init_function: Option<Seq<char>>,
    pub kept_attrs: Seq<Seq<usize>>,
}

/// Where the attributes of one function stand: the next automatic id,
/// whether its tasks give their ids (`Some(true)`), take automatic ones
/// (`Some(false)`) or none was seen yet, and the attributes kept.
pub struct FnState {
    pub next_id: u32,
    pub explicit_ids: Option<bool>,
    pub kept: Seq<usize>,
}

/// Nothing collected yet.
pub open spec fn collect_initial() -> CollectState {
    CollectState { tasks: Seq::empty(), init_function: None, kept_attrs: Seq::empty() }
}

/// A function's attributes before the first.
pub open spec fn fn_initial() -> FnState {
    FnState { next_id: 0, explicit_ids: None, kept: Seq::empty() }
}

/// The effect of the attribute at position `k` of function `f`: a task
/// attribute adds a task named after the function, which takes the next
/// automatic id where it gives none (ids are counted per function, and a
/// function's tasks either all give ids or none do); `init` records the
/// function, which is to return nothing, as the only `init` function; any
/// other attribute is kept.
pub open spec fn attr_step(f: FnItem, k: int, st: CollectState, fs: FnState) -> Result<(CollectState, FnState), OsError> {
    match f.attrs@[k] {
        FnAttr::Task(None) => Err(OsError::Args(ArgError::ExpectedParens)),
        FnAttr::Task(Some(toks)) => match task_args_spec(toks@) {
            Err(e) => Err(OsError::Args(e)),
            Ok(t) => {
                let named = TaskView { name: Some(f.name@), ..t };
                if t.id is None {
                    if fs.explicit_ids == Some(true) {
                        Err(OsError::MixedIds)
                    } else {
                        Ok((
                            CollectState {
                                tasks: st.tasks.push(TaskView { id: Some(fs.next_id), ..named }),
                                ..st
                            },
                            FnState { next_id: (fs.next_id + 1) as u32, explicit_ids: Some(false), ..fs },
                        ))
                    }
                } else {
                    if fs.explicit_ids == Some(false) {
                        Err(OsError::MixedIds)
                    } else {
                        Ok((
                            CollectState { tasks: st.tasks.push(named), ..st },
                            FnState { explicit_ids: Some(true), ..fs },
                        ))
                    }
                }
            },
        },
        FnAttr::Init => if st.init_function is Some {
            Err(OsError::DuplicateInit)
        } else if !f.returns_unit {
            Err(OsError::InitReturnsValue)
        } else {
            Ok((CollectState { init_function: Some(f.name@), ..st }, fs))
        },
        FnAttr::Other => Ok((st, FnState { kept: fs.kept.push(k as usize), ..fs })),
    }
}

/// The effect of the attributes of `f` from position `k` on.
pub open spec fn attrs_from(f: FnItem, k: int, st: CollectState, fs: FnState) -> Result<(CollectState, FnState), OsError>
    decreases f.attrs@.len() - k,
{
    if k < 0 || k >= f.attrs@.len() {
        Ok((st, fs))
    } else {
        match attr_step(f, k, st, fs) {
            Err(e) => Err(e),
            Ok((st2, fs2)) => attrs_from(f, k + 1, st2, fs2),
        }
    }
}

/// The effect of the functions `fns` from position `m` on, each recording
/// the attributes it keeps.
pub open spec fn fns_from(fns: Seq<FnItem>, m: int, st: CollectState) -> Result<CollectState, OsError>
    decreases fns.len() - m,
{
    if m < 0 || m >= fns.len() {
        Ok(st)
    } else {
        match attrs_from(fns[m], 0, st, fn_initial()) {
            Err(e) => Err(e),
            Ok((st2, fs)) => fns_from(fns, m + 1, CollectState { kept_attrs: st2.kept_attrs.push(fs.kept), ..st2 }),
        }
    }
}

impl OsItems {
    pub open spec fn view(&self) -> CollectState {
        CollectState {
            tasks: self.tasks@.map_values(|t: Task| t.view()),
            init_function: match self.init_function {
                Some(n) => Some(n@),
                None => None,
            },
            kept_attrs: self.kept_attrs@.map_values(|v: Vec<usize>| v@),
        }
    }
}

/// Every function has fewer attributes than there are automatic ids.
pub open spec fn attr_counts_fit(fns: Seq<FnItem>) -> bool {
    forall|m: int| 0 <= m < fns.len() ==> (#[trigger] fns[m]).attrs@.len() < u32::MAX
}

/// The outcome of the `os` attribute on a module whose functions are
/// `fns`, with the arguments `args`: the arguments are read first.
pub open spec fn os_spec(args: Seq<ArgToken>, fns: Seq<FnItem>) -> Result<(ModArgsView, CollectState), OsError> {
    match mod_args_spec(args) {
        Err(e) => Err(OsError::Args(e)),
        Ok(a) => match fns_from(fns, 0, collect_initial()) {
            Err(e) => Err(e),
            Ok(st) => Ok((a, st)),
        },
    }
}

/// Every task collected so far has an id.
pub open spec fn all_tasks_have_ids(st: CollectState) -> bool {
    forall|i: int| 0 <= i < st.tasks.len() ==> (#[trigger] st.tasks[i]).id is Some
}

proof fn lemma_attrs_from_keep_ids(f: FnItem, k: int, st: CollectState, fs: FnState)
    requires
        all_tasks_have_ids(st),
    ensures
        attrs_from(f, k, st, fs) matches Ok((st2, _)) ==> all_tasks_have_ids(st2),
    decreases f.attrs@.len() - k,
{
    if 0 <= k < f.attrs@.len() {
        match attr_step(f, k, st, fs) {
            Ok((st2, fs2)) => {
                assert(all_tasks_have_ids(st2));
                lemma_attrs_from_keep_ids(f, k + 1, st2, fs2);
            },
            Err(_) => {},
        }
    }
}

proof fn lemma_fns_from_keep_ids(fns: Seq<FnItem>, m: int, st: CollectState)
    requires
        all_tasks_have_ids(st),
    ensures
        fns_from(fns, m, st) matches Ok(st2) ==> all_tasks_have_ids(st2),
    decreases fns.len() - m,
{
    if 0 <= m < fns.len() {
        lemma_attrs_from_keep_ids(fns[m], 0, st, fn_initial());
        match attrs_from(fns[m], 0, st, fn_initial()) {
            Ok((st2, fs)) => {
                let st3 = CollectState { kept_attrs: st2.kept_attrs.push(fs.kept), ..st2 };
                assert(all_tasks_have_ids(st3));
                lemma_fns_from_keep_ids(fns, m + 1, st3);
            },
            Err(_) => {},
        }
    }
}

/// Every task that the `os` attribute collects has an id: the one its
/// `task` attribute gives, or one assigned in order.
pub proof fn lemma_collected_tasks_have_ids(fns: Seq<FnItem>)
    ensures
        fns_from(fns, 0, collect_initial()) matches Ok(st) ==> all_tasks_have_ids(st),
{
    lemma_fns_from_keep_ids(fns, 0, collect_initial());
}

/// The `task` attributes of `f` from position `k` on, in order: the tokens
/// of their arguments, each with the name of `f`.
pub open spec fn fn_task_attrs(f: FnItem, k: int) -> Seq<(Seq<ArgToken>, Seq<char>)>
    decreases f.attrs@.len() - k,
{
    if k < 0 || k >= f.attrs@.len() {
        Seq::empty()
    } else {
        let rest = fn_task_attrs(f, k + 1);
        match f.attrs@[k] {
            FnAttr::Task(Some(toks)) => seq![(toks@, f.name@)] + rest,
            _ => rest,
        }
    }
}

/// The `task` attributes of the functions `fns` from position `m` on, in
/// order, each with the name of its function.
pub open spec fn all_task_attrs(fns: Seq<FnItem>, m: int) -> Seq<(Seq<ArgToken>, Seq<char>)>
    decreases fns.len() - m,
{
    if m < 0 || m >= fns.len() {
        Seq::empty()
    } else {
        fn_task_attrs(fns[m], 0) + all_task_attrs(fns, m + 1)
    }
}

/// `tv` is the task that the `task` attribute with arguments `toks`
/// declares on the function `name`: the arguments read from `toks`, the
/// function's name, and the id given there, or else the automatic id `auto`.
pub open spec fn declared_task(tv: TaskView, toks: Seq<ArgToken>, name: Seq<char>, auto: int) -> bool {
    &&& task_args_spec(toks) matches Ok(t)
    &&& tv.stack_size == t.stack_size
    &&& tv.prio == t.prio
    &&& tv.privileged == t.privileged
    &&& tv.fp == t.fp
    &&& tv.disabled == t.disabled
    &&& tv.name == Some(name)
    &&& tv.id == if t.id is Some { t.id } else { Some(auto as u32) }
}

/// `tv` is the task that the `task` attribute with arguments `toks`
/// declares on the function `name`, with the id given there or some
/// automatic id.
pub open spec fn declares(tv: TaskView, toks: Seq<ArgToken>, name: Seq<char>) -> bool {
    &&& task_args_spec(toks) matches Ok(t)
    &&& tv.stack_size == t.stack_size
    &&& tv.prio == t.prio
    &&& tv.privileged == t.privileged
    &&& tv.fp == t.fp
    &&& tv.disabled == t.disabled
    &&& tv.name == Some(name)
    &&& tv.id is Some
    &&& (t.id is Some ==> tv.id == t.id)
}

/// The arguments `toks` give the task an id.
pub open spec fn gives_id(toks: Seq<ArgToken>) -> bool {
    task_args_spec(toks) matches Ok(t) && t.id is Some
}

proof fn lemma_attrs_from_tasks(f: FnItem, k: int, st: CollectState, fs: FnState)
    requires
        0 <= k,
        fs.next_id <= k,
        f.attrs@.len() < u32::MAX,
    ensures
        attrs_from(f, k, st, fs) matches Ok((st2, _)) ==> {
            let ta = fn_task_attrs(f, k);
            &&& st2.tasks.len() == st.tasks.len() + ta.len()
            &&& st2.tasks.subrange(0, st.tasks.len() as int) == st.tasks
            &&& forall|j: int|
                0 <= j < ta.len() ==> declared_task(
                    #[trigger] st2.tasks[st.tasks.len() + j],
                    ta[j].0,
                    ta[j].1,
                    fs.next_id + j,
                )
            &&& fs.explicit_ids == Some(true) ==> forall|j: int| 0 <= j < ta.len() ==> gives_id(#[trigger] ta[j].0)
            &&& fs.explicit_ids == Some(false) ==> forall|j: int| 0 <= j < ta.len() ==> !gives_id(#[trigger] ta[j].0)
        },
    decreases f.attrs@.len() - k,
{
    if k < f.attrs@.len() {
        let ta = fn_task_attrs(f, k);
        let rest = fn_task_attrs(f, k + 1);
        match attr_step(f, k, st, fs) {
            Ok((st1, fs1)) => {
                lemma_attrs_from_tasks(f, k + 1, st1, fs1);
                match attrs_from(f, k + 1, st1, fs1) {
                    Ok((st2, _)) => {
                        match f.attrs@[k] {
                            FnAttr::Task(Some(toks)) => {
                                assert(ta == seq![(toks@, f.name@)] + rest);
                                assert(st1.tasks.len() == st.tasks.len() + 1);
                                assert forall|j: int| 0 <= j < ta.len() implies declared_task(
                                    #[trigger] st2.tasks[st.tasks.len() + j],
                                    ta[j].0,
                                    ta[j].1,
                                    fs.next_id + j,
                                ) by {
                                    if j == 0 {
                                        assert(st2.tasks[st.tasks.len() as int] == st2.tasks.subrange(0, st1.tasks.len() as int)[st.tasks.len() as int]);
                                    } else {
                                        assert(ta[j] == rest[j - 1]);
                                        assert(st2.tasks[st.tasks.len() + j] == st2.tasks[st1.tasks.len() + (j - 1)]);
                                        if !gives_id(rest[j - 1].0) {
                                            assert(!gives_id(ta[0].0));
                                            assert(fs1.next_id == fs.next_id + 1);
                                        }
                                    }
                                }
                                assert(st2.tasks.subrange(0, st.tasks.len() as int) =~= st.tasks) by {
                                    assert(st2.tasks.subrange(0, st1.tasks.len() as int) == st1.tasks);
                                    assert forall|x: int| 0 <= x < st.tasks.len() implies st2.tasks[x] == st.tasks[x] by {
                                        assert(st2.tasks[x] == st2.tasks.subrange(0, st1.tasks.len() as int)[x]);
                                    }
                                }
                                assert forall|j: int| 0 <= j < ta.len() && fs.explicit_ids == Some(true) implies gives_id(#[trigger] ta[j].0) by {
                                    if j > 0 {
                                        assert(ta[j] == rest[j - 1]);
                                    }
                                }
                                assert forall|j: int| 0 <= j < ta.len() && fs.explicit_ids == Some(false) implies !gives_id(#[trigger] ta[j].0) by {
                                    if j > 0 {
                                        assert(ta[j] == rest[j - 1]);
                                    }
                                }
                            },
                            _ => {
                                assert(ta == rest);
                            },
                        }
                    },
                    Err(_) => {},
                }
            },
            Err(_) => {},
        }
    }
}

proof fn lemma_fns_from_tasks(fns: Seq<FnItem>, m: int, st: CollectState)
    requires
        0 <= m,
        attr_counts_fit(fns),
    ensures
        fns_from(fns, m, st) matches Ok(st2) ==> {
            let ta = all_task_attrs(fns, m);
            &&& st2.tasks.len() == st.tasks.len() + ta.len()
            &&& st2.tasks.subrange(0, st.tasks.len() as int) == st.tasks
            &&& forall|j: int|
                0 <= j < ta.len() ==> declares(#[trigger] st2.tasks[st.tasks.len() + j], ta[j].0, ta[j].1)
        },
    decreases fns.len() - m,
{
    if m < fns.len() {
        let f = fns[m];
        assert(f.attrs@.len() < u32::MAX);
        lemma_attrs_from_tasks(f, 0, st, fn_initial());
        match attrs_from(f, 0, st, fn_initial()) {
            Ok((st1, fs)) => {
                let st1k = CollectState { kept_attrs: st1.kept_attrs.push(fs.kept), ..st1 };
                lemma_fns_from_tasks(fns, m + 1, st1k);
                match fns_from(fns, m + 1, st1k) {
                    Ok(st2) => {
                        let ta = all_task_attrs(fns, m);
                        let a = fn_task_attrs(f, 0);
                        let b = all_task_attrs(fns, m + 1);
                        assert(ta == a + b);
                        assert forall|j: int| 0 <= j < ta.len() implies declares(#[trigger] st2.tasks[st.tasks.len() + j], ta[j].0, ta[j].1) by {
                            if j < a.len() {
                                assert(ta[j] == a[j]);
                                assert(st2.tasks[st.tasks.len() + j] == st2.tasks.subrange(0, st1k.tasks.len() as int)[st.tasks.len() + j]);
                                assert(declared_task(st1.tasks[st.tasks.len() + j], a[j].0, a[j].1, j));
                            } else {
                                assert(ta[j] == b[j - a.len()]);
                                assert(st2.tasks[st.tasks.len() + j] == st2.tasks[st1k.tasks.len() + (j - a.len())]);
                            }
                        }
                        assert(st2.tasks.subrange(0, st.tasks.len() as int) =~= st.tasks) by {
                            assert forall|x: int| 0 <= x < st.tasks.len() implies st2.tasks[x] == st.tasks[x] by {
                                assert(st2.tasks[x] == st2.tasks.subrange(0, st1k.tasks.len() as int)[x]);
                                assert(st1.tasks[x] == st1.tasks.subrange(0, st.tasks.len() as int)[x]);
                            }
                        }
                    },
                    Err(_) => {},
                }
            },
            Err(_) => {},
        }
    }
}

/// The `os` attribute collects one task per `task` attribute of its
/// module's functions, in order, wherever the `init` function stands: each
/// task carries the arguments of its attribute and the name of its
/// function, with the id given there or an automatic one.
pub proof fn lemma_collected_tasks(fns: Seq<FnItem>)
    requires
        attr_counts_fit(fns),
    ensures
        fns_from(fns, 0, collect_initial()) matches Ok(st) ==> {
            let ta = all_task_attrs(fns, 0);
            &&& st.tasks.len() == ta.len()
            &&& forall|j: int|
                0 <= j < ta.len() ==> declares(#[trigger] st.tasks[j], ta[j].0, ta[j].1)
        },
{
    lemma_fns_from_tasks(fns, 0, collect_initial());
    match fns_from(fns, 0, collect_initial()) {
        Ok(st) => {
            assert forall|j: int| 0 <= j < all_task_attrs(fns, 0).len() implies declares(#[trigger] st.tasks[j], all_task_attrs(fns, 0)[j].0, all_task_attrs(fns, 0)[j].1) by {
                assert(st.tasks[j] == st.tasks[collect_initial().tasks.len() + j]);
            }
        },
        Err(_) => {},
    }
}

/// Within one function, tasks that give no id take the ids 0, 1, 2, ... in
/// the order of their attributes.
pub proof fn lemma_automatic_ids(f: FnItem, st: CollectState)
    requires
        f.attrs@.len() < u32::MAX,
    ensures
        attrs_from(f, 0, st, fn_initial()) matches Ok((st2, _)) ==> forall|j: int|
            0 <= j < fn_task_attrs(f, 0).len() ==> declared_task(
                #[trigger] st2.tasks[st.tasks.len() + j],
                fn_task_attrs(f, 0)[j].0,
                fn_task_attrs(f, 0)[j].1,
                j,
            ),
{
    lemma_attrs_from_tasks(f, 0, st, fn_initial());
}

/// The positions, from `k` on, of the attributes of `f` that are neither
/// `task` nor `init`.
pub open spec fn other_positions(f: FnItem, k: int) -> Seq<usize>
    decreases f.attrs@.len() - k,
{
    if k < 0 || k >= f.attrs@.len() {
        Seq::empty()
    } else {
        let rest = other_positions(f, k + 1);
        match f.attrs@[k] {
            FnAttr::Other => seq![k as usize] + rest,
            _ => rest,
        }
    }
}

/// Some attribute of `f` from position `k` on is `init`.
pub open spec fn has_init(f: FnItem, k: int) -> bool {
    exists|a: int| k <= a < f.attrs@.len() && #[trigger] f.attrs@[a] is Init
}

proof fn lemma_attrs_from_kept_init(f: FnItem, k: int, st: CollectState, fs: FnState)
    requires
        0 <= k,
    ensures
        attrs_from(f, k, st, fs) matches Ok((st2, fs2)) ==> {
            &&& fs2.kept == fs.kept + other_positions(f, k)
            &&& st2.kept_attrs == st.kept_attrs
            &&& st.init_function is Some ==> st2.init_function == st.init_function
            &&& has_init(f, k) ==> st2.init_function is Some
            &&& (st.init_function is None && st2.init_function is Some) ==> st2.init_function == Some(f.name@)
                && has_init(f, k)
        },
    decreases f.attrs@.len() - k,
{
    if k < f.attrs@.len() {
        match attr_step(f, k, st, fs) {
            Ok((st1, fs1)) => {
                lemma_attrs_from_kept_init(f, k + 1, st1, fs1);
                match attrs_from(f, k + 1, st1, fs1) {
                    Ok((st2, fs2)) => {
                        let rest = other_positions(f, k + 1);
                        match f.attrs@[k] {
                            FnAttr::Other => {
                                assert(fs2.kept =~= fs.kept + (seq![k as usize] + rest));
                            },
                            _ => {
                                assert(fs2.kept =~= fs.kept + rest);
                            },
                        }
                        if has_init(f, k) {
                            let a = choose|a: int| k <= a < f.attrs@.len() && #[trigger] f.attrs@[a] is Init;
                            if a > k {
                                assert(has_init(f, k + 1));
                            }
                        }
                        if st.init_function is None && st2.init_function is Some && st1.init_function is None {
                            let a = choose|a: int| k + 1 <= a < f.attrs@.len() && #[trigger] f.attrs@[a] is Init;
                            assert(has_init(f, k));
                        }
                        if st.init_function is None && st1.init_function is Some {
                            assert(f.attrs@[k] is Init);
                            assert(has_init(f, k));
                        }
                    },
                    Err(_) => {},
                }
            },
            Err(_) => {},
        }
    }
}

/// The attributes each function of `fns` keeps, from position `m` on.
pub open spec fn all_kept(fns: Seq<FnItem>, m: int) -> Seq<Seq<usize>>
    decreases fns.len() - m,
{
    if m < 0 || m >= fns.len() {
        Seq::empty()
    } else {
        seq![other_positions(fns[m], 0)] + all_kept(fns, m + 1)
    }
}

proof fn lemma_fns_from_kept_init(fns: Seq<FnItem>, m: int, st: CollectState)
    requires
        0 <= m,
    ensures
        fns_from(fns, m, st) matches Ok(st2) ==> {
            &&& st2.kept_attrs == st.kept_attrs + all_kept(fns, m)
            &&& st.init_function is Some ==> st2.init_function == st.init_function
            &&& (exists|x: int| m <= x < fns.len() && has_init(#[trigger] fns[x], 0)) ==> st2.init_function is Some
            &&& (st.init_function is None && st2.init_function is Some) ==> exists|x: int|
                m <= x < fns.len() && has_init(#[trigger] fns[x], 0) && st2.init_function == Some(fns[x].name@)
        },
    decreases fns.len() - m,
{
    if m < fns.len() {
        let f = fns[m];
        lemma_attrs_from_kept_init(f, 0, st, fn_initial());
        match attrs_from(f, 0, st, fn_initial()) {
            Ok((st1, fs)) => {
                let st1k = CollectState { kept_attrs: st1.kept_attrs.push(fs.kept), ..st1 };
                lemma_fns_from_kept_init(fns, m + 1, st1k);
                match fns_from(fns, m + 1, st1k) {
                    Ok(st2) => {
                        assert(fs.kept =~= other_positions(f, 0));
                        assert(st2.kept_attrs =~= st.kept_attrs + all_kept(fns, m));
                        if exists|x: int| m <= x < fns.len() && has_init(#[trigger] fns[x], 0) {
                            let x = choose|x: int| m <= x < fns.len() && has_init(#[trigger] fns[x], 0);
                            if x > m {
                                assert(exists|y: int| m + 1 <= y < fns.len() && has_init(#[trigger] fns[y], 0));
                            }
                        }
                        if st.init_function is None && st2.init_function is Some {
                            if st1.init_function is Some {
                                assert(has_init(fns[m], 0) && st2.init_function == Some(fns[m].name@));
                            } else {
                                let x = choose|x: int|
                                    m + 1 <= x < fns.len() && has_init(#[trigger] fns[x], 0) && st2.init_function
                                        == Some(fns[x].name@);
                                assert(m <= x);
                            }
                        }
                    },
                    Err(_) => {},
                }
            },
            Err(_) => {},
        }
    }
}

/// What the `os` attribute keeps and finds besides the tasks: each function
/// keeps exactly its attributes that are neither `task` nor `init`, in
/// order; where a function carries `init`, the `init` function is found,
/// and the one found is a function that carries `init`.
pub proof fn lemma_collected_kept_and_init(fns: Seq<FnItem>)
    ensures
        fns_from(fns, 0, collect_initial()) matches Ok(st) ==> {
            &&& st.kept_attrs == all_kept(fns, 0)
            &&& (exists|x: int| 0 <= x < fns.len() && has_init(#[trigger] fns[x], 0)) ==> st.init_function is Some
            &&& st.init_function is Some ==> exists|x: int|
                0 <= x < fns.len() && has_init(#[trigger] fns[x], 0) && st.init_function == Some(fns[x].name@)
        },
{
    lemma_fns_from_kept_init(fns, 0, collect_initial());
    match fns_from(fns, 0, collect_initial()) {
        Ok(st) => {
            assert(collect_initial().kept_attrs + all_kept(fns, 0) =~= all_kept(fns, 0));
        },
        Err(_) => {},
    }
}

/// Takes the name of `f` for a task declared on it.
fn named_task(t: Task, f: &FnItem) -> (r: Task)
    ensures
        r.view() == (TaskView { name: Some(f.name@), ..t.view() }),
{
    Task { name: Some(f.name.clone()), ..t }
}

/// Collects the tasks and the `init` function of the functions `fns`.
pub fn collect_tasks(fns: &Vec<FnItem>) -> (r: Result<OsItems, OsError>)
    requires
        attr_counts_fit(fns@),
    ensures
        match r {
            Ok(items) => fns_from(fns@, 0, collect_initial()) == Ok::<CollectState, OsError>(items.view()),
            Err(e) => fns_from(fns@, 0, collect_initial()) == Err::<CollectState, OsError>(e),
        },
{
    let mut items = OsItems { tasks: Vec::new(), init_function: None, kept_attrs: Vec::new() };
    assert(items.view() == collect_initial()) by {
        assert(items.view().tasks =~= Seq::<TaskView>::empty());
        assert(items.view().kept_attrs =~= Seq::<Seq<usize>>::empty());
    }
    let mut m: usize = 0;
    while m < fns.len()
        invariant
            m <= fns.len(),
            attr_counts_fit(fns@),
            fns_from(fns@, 0, collect_initial()) == fns_from(fns@, m as int, items.view()),
        decreases fns.len() - m,
    {
        let f = &fns[m];
        let ghost st0 = items.view();
        let mut next_id: u32 = 0;
        let mut explicit_ids: Option<bool> = None;
        let mut kept: Vec<usize> = Vec::new();
        let mut k: usize = 0;
        assert(f.attrs@.len() < u32::MAX);
        while k < f.attrs.len()
            invariant
                m < fns.len(),
                *f == fns@[m as int],
                fns_from(fns@, 0, collect_initial()) == fns_from(fns@, m as int, st0),
                k <= f.attrs.len(),
                f.attrs@.len() < u32::MAX,
                next_id <= k,
                attrs_from(*f, 0, st0, fn_initial()) == attrs_from(
                    *f,
                    k as int,
                    items.view(),
                    FnState { next_id, explicit_ids, kept: kept@ },
                ),
            decreases f.attrs.len() - k,
        {
            let ghost st = items.view();
            let ghost fs = FnState { next_id, explicit_ids, kept: kept@ };
            match &f.attrs[k] {
                FnAttr::Task(None) => return Err(OsError::Args(ArgError::ExpectedParens)),
                FnAttr::Task(Some(toks)) => {
                    let t = match Task::parse(toks) {
                        Err(e) => return Err(OsError::Args(e)),
                        Ok(t) => t,
                    };
                    let mut t = named_task(t, f);
                    if t.id.is_none() {
                        if explicit_ids == Some(true) {
                            return Err(OsError::MixedIds);
                        }
                        t.id = Some(next_id);
                        next_id = next_id + 1;
                        explicit_ids = Some(false);
                    } else {
                        if explicit_ids == Some(false) {
                            return Err(OsError::MixedIds);
                        }
                        explicit_ids = Some(true);
                    }
                    items.tasks.push(t);
                    assert(items.view().tasks =~= st.tasks.push(t.view()));
                },
                FnAttr::Init => {
                    if items.init_function.is_some() {
                        return Err(OsError::DuplicateInit);
                    }
                    if !f.returns_unit {
                        return Err(OsError::InitReturnsValue);
                    }
                    items.init_function = Some(f.name.clone());
                },
                FnAttr::Other => {
                    kept.push(k);
                },
            }
            assert(attr_step(*f, k as int, st, fs) == Ok::<(CollectState, FnState), OsError>((
                items.view(),
                FnState { next_id, explicit_ids, kept: kept@ },
            )));
            k = k + 1;
        }
        let ghost st1 = items.view();
        let ghost kept_view = kept@;
        items.kept_attrs.push(kept);
        assert(items.view() =~= CollectState { kept_attrs: st1.kept_attrs.push(kept_view), ..st1 }) by {
            assert(items.view().tasks =~= st1.tasks);
            assert(items.view().kept_attrs =~= st1.kept_attrs.push(kept_view));
        }
        m = m + 1;
    }
    Ok(items)
}

/// The `os` attribute's reading of its arguments `args` and of the
/// functions `fns` of its module.
pub fn os_items(args: &Vec<ArgToken>, fns: &Vec<FnItem>) -> (r: Result<(ModArgs, OsItems), OsError>)
    requires
        attr_counts_fit(fns@),
    ensures
        match r {
            Ok((a, items)) => os_spec(args@, fns@) == Ok::<(ModArgsView, CollectState), OsError>((a.view(), items.view())),
            Err(e) => os_spec(args@, fns@) == Err::<(ModArgsView, CollectState), OsError>(e),
        },
{
    let a = match ModArgs::parse(args) {
        Err(e) => return Err(OsError::Args(e)),
        Ok(a) => a,
    };
    match collect_tasks(fns) {
        Err(e) => Err(e),
        Ok(items) => Ok((a, items)),
    }
}

} // verus!
