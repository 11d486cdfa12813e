use vstd::prelude::*;
use vstd::string::*;
use crate::macros::arg_order::{int_arg_at, key_absent};
use crate::macros::tokens::{
    ArgError, ArgToken, ident_at, ident_at_exec, ident_is, int_at, int_at_exec, names_from,
    never_names, punct_at, punct_at_exec,
};

verus! {

/// A task declared in an `os` module: the arguments of its `task`
/// attribute, and the name of the function that carries it.
pub struct Task {
    pub stack_size: u32,
    pub id: Option<u32>,
    pub prio: u32,
    pub name: Option<String>,
    pub privileged: bool,
    pub fp: bool,
    pub disabled: bool,
}

/// A declared task as the contracts see it.
pub struct TaskView {
    pub stack_size: u32,
    pub id: Option<u32>,
    pub prio: u32,
    pub name: Option<Seq<char>>,
    pub privileged: bool,
    pub fp: bool,
    pub disabled: bool,
}

impl Task {
    pub open spec fn view(&self) -> TaskView {
        TaskView {
            stack_size: self.stack_size,
            id: self.id,
            prio: self.prio,
            name: match self.name {
                Some(n) => Some(n@),
                None => None,
            },
            privileged: self.privileged,
            fp: self.fp,
            disabled: self.disabled,
        }
    }
}

/// The `task` arguments read so far.
pub struct TaskArgsAcc {
    pub stack_size: Option<u32>,
    pub id: Option<u32>,
    pub prio: u32,
    pub privileged: bool,
    pub fp: bool,
    pub disabled: bool,
}

/// Nothing read yet: no stack size nor id, priority 0, no flag set.
pub open spec fn task_args_initial() -> TaskArgsAcc {
    TaskArgsAcc { stack_size: None, id: None, prio: 0, privileged: false, fp: false, disabled: false }
}

/// The arguments read so far, from the values being built.
pub open spec fn task_args_acc(
    stack_size: Option<u32>,
    id: Option<u32>,
    prio: u32,
    privileged: bool,
    fp: bool,
    disabled: bool,
) -> TaskArgsAcc {
    TaskArgsAcc { stack_size, id, prio, privileged, fp, disabled }
}

/// `= <u32>` at position `i`: the value, with the position after it.
pub open spec fn eq_int_at(toks: Seq<ArgToken>, i: int) -> Result<(u32, int), ArgError> {
    if !punct_at(toks, i, '=') {
        Err(ArgError::ExpectedEq)
    } else {
        int_at(toks, i + 1)
    }
}

/// One argument of the `task` attribute at position `i` applied to `acc`:
/// `stack_size = <u32>`, `id = <u32>`, `prio = <u32>`, or one of the flags
/// `privileged`, `fp`, `disabled`. With the position after it.
pub open spec fn task_arg_at(toks: Seq<ArgToken>, i: int, acc: TaskArgsAcc) -> Result<(TaskArgsAcc, int), ArgError> {
    match ident_at(toks, i) {
        None => Err(ArgError::ExpectedIdent),
        Some(key) => if key == "stack_size"@ {
            match eq_int_at(toks, i + 1) {
                Ok((v, j)) => Ok((TaskArgsAcc { stack_size: Some(v), ..acc }, j)),
                Err(e) => Err(e),
            }
        } else if key == "privileged"@ {
            Ok((TaskArgsAcc { privileged: true, ..acc }, i + 1))
        } else if key == "fp"@ {
            Ok((TaskArgsAcc { fp: true, ..acc }, i + 1))
        } else if key == "id"@ {
            match eq_int_at(toks, i + 1) {
                Ok((v, j)) => Ok((TaskArgsAcc { id: Some(v), ..acc }, j)),
                Err(e) => Err(e),
            }
        } else if key == "prio"@ {
            match eq_int_at(toks, i + 1) {
                Ok((v, j)) => Ok((TaskArgsAcc { prio: v, ..acc }, j)),
                Err(e) => Err(e),
            }
        } else if key == "disabled"@ {
            Ok((TaskArgsAcc { disabled: true, ..acc }, i + 1))
        } else {
            Err(ArgError::UnknownAttr)
        },
    }
}

/// An argument that is read takes up at least one token.
pub proof fn lemma_task_arg_advance(toks: Seq<ArgToken>, i: int, acc: TaskArgsAcc)
    ensures
        task_arg_at(toks, i, acc) matches Ok((_, j)) ==> i < j <= toks.len(),
{
}

/// The `task` arguments from position `i` on: nothing, or an argument,
/// followed, after a `,`, by the arguments from there on. With the
/// position where they end.
pub open spec fn task_args_from(toks: Seq<ArgToken>, i: int, acc: TaskArgsAcc) -> Result<(TaskArgsAcc, int), ArgError>
    decreases toks.len() - i,
{
    if i >= toks.len() {
        Ok((acc, i))
    } else {
        match task_arg_at(toks, i, acc) {
            Err(e) => Err(e),
            Ok((acc2, j)) => {
                proof {
                    lemma_task_arg_advance(toks, i, acc);
                }
                if punct_at(toks, j, ',') {
                    task_args_from(toks, j + 1, acc2)
                } else {
                    Ok((acc2, j))
                }
            },
        }
    }
}

/// The task that the arguments `toks` of a `task` attribute declare:
/// comma-separated arguments in any order, a later one overriding an
/// earlier; `stack_size` is mandatory; the task's name is not set.
pub open spec fn task_args_spec(toks: Seq<ArgToken>) -> Result<TaskView, ArgError> {
    match task_args_from(toks, 0, task_args_initial()) {
        Err(e) => Err(e),
        Ok((acc, j)) => match acc.stack_size {
            None => Err(ArgError::StackSizeMissing),
            Some(stack_size) => if j < toks.len() {
                Err(ArgError::UnexpectedToken)
            } else {
                Ok(
                    TaskView {
                        stack_size,
                        id: acc.id,
                        prio: acc.prio,
                        name: None,
                        privileged: acc.privileged,
                        fp: acc.fp,
                        disabled: acc.disabled,
                    },
                )
            },
        },
    }
}

proof fn lemma_task_args_from_keys(toks: Seq<ArgToken>, i: int, acc: TaskArgsAcc)
    requires
        0 <= i,
    ensures
        task_args_from(toks, i, acc) matches Ok((acc2, _)) ==> {
            &&& (acc.stack_size is None && acc2.stack_size is Some) ==> names_from(toks, i, "stack_size"@)
            &&& never_names(toks, "id"@) ==> acc2.id == acc.id
            &&& never_names(toks, "prio"@) ==> acc2.prio == acc.prio
            &&& never_names(toks, "privileged"@) ==> acc2.privileged == acc.privileged
            &&& never_names(toks, "fp"@) ==> acc2.fp == acc.fp
            &&& never_names(toks, "disabled"@) ==> acc2.disabled == acc.disabled
        },
    decreases toks.len() - i,
{
    if i < toks.len() {
        lemma_task_arg_advance(toks, i, acc);
        match task_arg_at(toks, i, acc) {
            Ok((acc2, j)) => {
                if acc.stack_size is None && acc2.stack_size is Some {
                    assert(ident_at(toks, i) == Some("stack_size"@));
                }
                if punct_at(toks, j, ',') {
                    lemma_task_args_from_keys(toks, j + 1, acc2);
                    match task_args_from(toks, j + 1, acc2) {
                        Ok((acc3, _)) => {
                            if acc.stack_size is None && acc3.stack_size is Some && acc2.stack_size is None {
                                let k = choose|k: int| j + 1 <= k < toks.len() && ident_at(toks, k) == Some("stack_size"@);
                                assert(i <= k < toks.len() && ident_at(toks, k) == Some("stack_size"@));
                            }
                        },
                        Err(_) => {},
                    }
                }
                assert(never_names(toks, "id"@) ==> ident_at(toks, i) != Some("id"@));
                assert(never_names(toks, "prio"@) ==> ident_at(toks, i) != Some("prio"@));
                assert(never_names(toks, "privileged"@) ==> ident_at(toks, i) != Some("privileged"@));
                assert(never_names(toks, "fp"@) ==> ident_at(toks, i) != Some("fp"@));
                assert(never_names(toks, "disabled"@) ==> ident_at(toks, i) != Some("disabled"@));
            },
            Err(_) => {},
        }
    }
}

/// The documented defaults of the `task` attribute: a task is only
/// declared with a `stack_size`; where no `id`, `prio`, `privileged`, `fp`
/// or `disabled` is given, the task has no id (one is assigned later),
/// priority 0, runs unprivileged, without floating-point context, enabled.
pub proof fn lemma_task_args_defaults(toks: Seq<ArgToken>)
    ensures
        task_args_spec(toks) matches Ok(t) ==> {
            &&& names_from(toks, 0, "stack_size"@)
            &&& never_names(toks, "id"@) ==> t.id is None
            &&& never_names(toks, "prio"@) ==> t.prio == 0
            &&& never_names(toks, "privileged"@) ==> !t.privileged
            &&& never_names(toks, "fp"@) ==> !t.fp
            &&& never_names(toks, "disabled"@) ==> !t.disabled
        },
{
    lemma_task_args_from_keys(toks, 0, task_args_initial());
}

proof fn lemma_task_keys_distinct()
    ensures
        "privileged"@ != "stack_size"@,
        "privileged"@ != "fp"@,
        "privileged"@ != "id"@,
        "privileged"@ != "prio"@,
        "privileged"@ != "disabled"@,
        "fp"@ != "stack_size"@,
        "fp"@ != "id"@,
        "fp"@ != "prio"@,
        "fp"@ != "disabled"@,
        "disabled"@ != "stack_size"@,
        "disabled"@ != "id"@,
        "disabled"@ != "prio"@,
{
    reveal_strlit("privileged");
    reveal_strlit("stack_size");
    reveal_strlit("fp");
    reveal_strlit("id");
    reveal_strlit("prio");
    reveal_strlit("disabled");
    assert("privileged"@[0] != "stack_size"@[0]);
    assert("privileged"@.len() != "fp"@.len());
    assert("privileged"@.len() != "id"@.len());
    assert("privileged"@.len() != "prio"@.len());
    assert("privileged"@.len() != "disabled"@.len());
    assert("fp"@.len() != "stack_size"@.len());
    assert("fp"@[0] != "id"@[0]);
    assert("fp"@.len() != "prio"@.len());
    assert("fp"@.len() != "disabled"@.len());
    assert("disabled"@.len() != "stack_size"@.len());
    assert("disabled"@.len() != "id"@.len());
    assert("disabled"@.len() != "prio"@.len());
}

proof fn lemma_task_args_from_flags(toks: Seq<ArgToken>, i: int, acc: TaskArgsAcc)
    requires
        0 <= i,
    ensures
        task_args_from(toks, i, acc) matches Ok((acc2, j)) ==> {
            &&& acc.privileged ==> acc2.privileged
            &&& acc.fp ==> acc2.fp
            &&& acc.disabled ==> acc2.disabled
            &&& forall|k: int| i <= k < j && #[trigger] ident_at(toks, k) == Some("privileged"@) ==> acc2.privileged
            &&& forall|k: int| i <= k < j && #[trigger] ident_at(toks, k) == Some("fp"@) ==> acc2.fp
            &&& forall|k: int| i <= k < j && #[trigger] ident_at(toks, k) == Some("disabled"@) ==> acc2.disabled
        },
    decreases toks.len() - i,
{
    lemma_task_keys_distinct();
    if i < toks.len() {
        lemma_task_arg_advance(toks, i, acc);
        match task_arg_at(toks, i, acc) {
            Ok((acc1, j1)) => {
                // between the key and the end of the argument there are only `=` and a literal
                assert forall|k: int| i < k < j1 implies ident_at(toks, k).is_none() by {
                    assert(j1 == i + 3);
                    assert(punct_at(toks, i + 1, '='));
                    assert(toks[i + 2] is Int);
                }
                assert(ident_at(toks, i) == Some("privileged"@) ==> acc1.privileged);
                assert(ident_at(toks, i) == Some("fp"@) ==> acc1.fp);
                assert(ident_at(toks, i) == Some("disabled"@) ==> acc1.disabled);
                if punct_at(toks, j1, ',') {
                    lemma_task_args_from_flags(toks, j1 + 1, acc1);
                    assert(ident_at(toks, j1).is_none());
                }
            },
            Err(_) => {},
        }
    }
}

/// A flag named in the arguments of a `task` attribute is set in the task
/// they declare: `privileged`, `fp` and `disabled`, wherever they stand.
/// With the defaults law, a flag is set exactly when it is named.
pub proof fn lemma_task_flags_named(toks: Seq<ArgToken>)
    ensures
        task_args_spec(toks) matches Ok(t) ==> {
            &&& names_from(toks, 0, "privileged"@) ==> t.privileged
            &&& names_from(toks, 0, "fp"@) ==> t.fp
            &&& names_from(toks, 0, "disabled"@) ==> t.disabled
        },
{
    lemma_task_args_from_flags(toks, 0, task_args_initial());
}

proof fn lemma_task_value_keys_distinct()
    ensures
        "stack_size"@ != "id"@,
        "stack_size"@ != "prio"@,
        "id"@ != "prio"@,
{
    reveal_strlit("stack_size");
    reveal_strlit("id");
    reveal_strlit("prio");
    assert("stack_size"@.len() != "id"@.len());
    assert("stack_size"@.len() != "prio"@.len());
    assert("id"@.len() != "prio"@.len());
}

proof fn lemma_task_args_from_end(toks: Seq<ArgToken>, i: int, acc: TaskArgsAcc)
    requires
        0 <= i,
    ensures
        i <= toks.len() ==> (task_args_from(toks, i, acc) matches Ok((_, j)) ==> i <= j <= toks.len()),
    decreases toks.len() - i,
{
    if i < toks.len() {
        lemma_task_arg_advance(toks, i, acc);
        match task_arg_at(toks, i, acc) {
            Ok((acc1, j1)) => {
                if punct_at(toks, j1, ',') {
                    lemma_task_args_from_end(toks, j1 + 1, acc1);
                }
            },
            Err(_) => {},
        }
    }
}

proof fn lemma_task_args_from_values(toks: Seq<ArgToken>, i: int, acc: TaskArgsAcc)
    requires
        0 <= i,
    ensures
        task_args_from(toks, i, acc) matches Ok((acc2, j)) ==> {
            &&& forall|k: int, v: u32|
                i <= k && k + 2 < j && #[trigger] int_arg_at(toks, k, "stack_size"@, v) && key_absent(toks, k + 1, j, "stack_size"@)
                    ==> acc2.stack_size == Some(v)
            &&& key_absent(toks, i, j, "stack_size"@) ==> acc2.stack_size == acc.stack_size
            &&& forall|k: int, v: u32|
                i <= k && k + 2 < j && #[trigger] int_arg_at(toks, k, "id"@, v) && key_absent(toks, k + 1, j, "id"@)
                    ==> acc2.id == Some(v)
            &&& key_absent(toks, i, j, "id"@) ==> acc2.id == acc.id
            &&& forall|k: int, v: u32|
                i <= k && k + 2 < j && #[trigger] int_arg_at(toks, k, "prio"@, v) && key_absent(toks, k + 1, j, "prio"@)
                    ==> acc2.prio == v
            &&& key_absent(toks, i, j, "prio"@) ==> acc2.prio == acc.prio
        },
    decreases toks.len() - i,
{
    lemma_task_keys_distinct();
    lemma_task_value_keys_distinct();
    if i < toks.len() {
        lemma_task_arg_advance(toks, i, acc);
        match task_arg_at(toks, i, acc) {
            Ok((acc1, j1)) => {
                assert forall|k: int| i < k < j1 implies ident_at(toks, k).is_none() by {
                    assert(j1 == i + 3);
                    assert(punct_at(toks, i + 1, '='));
                    assert(toks[i + 2] is Int);
                }
                if punct_at(toks, j1, ',') {
                    lemma_task_args_from_values(toks, j1 + 1, acc1);
                    lemma_task_args_from_end(toks, j1 + 1, acc1);
                    assert(ident_at(toks, j1).is_none());
                    if task_args_from(toks, j1 + 1, acc1) is Ok {
                        let j = task_args_from(toks, j1 + 1, acc1)->Ok_0.1;
                        assert(i < j);
                        assert(task_args_from(toks, i, acc) == task_args_from(toks, j1 + 1, acc1));
                        assert forall|k: int, v: u32|
                            i <= k && k + 2 < j && #[trigger] int_arg_at(toks, k, "stack_size"@, v) && key_absent(toks, k + 1, j, "stack_size"@)
                            implies task_args_from(toks, i, acc)->Ok_0.0.stack_size == Some(v) by {
                            if k == i {
                                assert(int_at(toks, i + 2) == Ok::<(u32, int), ArgError>((v, i + 3)));
                                assert(acc1.stack_size == Some(v));
                                assert(key_absent(toks, j1 + 1, j, "stack_size"@));
                            } else if k < j1 {
                                assert(ident_at(toks, k).is_none());
                            } else {
                                assert(k != j1);
                            }
                        }
                        if key_absent(toks, i, j, "stack_size"@) {
                            assert(ident_at(toks, i) != Some("stack_size"@));
                            assert(key_absent(toks, j1 + 1, j, "stack_size"@));
                        }
                        assert forall|k: int, v: u32|
                            i <= k && k + 2 < j && #[trigger] int_arg_at(toks, k, "id"@, v) && key_absent(toks, k + 1, j, "id"@)
                            implies task_args_from(toks, i, acc)->Ok_0.0.id == Some(v) by {
                            if k == i {
                                assert(int_at(toks, i + 2) == Ok::<(u32, int), ArgError>((v, i + 3)));
                                assert(acc1.id == Some(v));
                                assert(key_absent(toks, j1 + 1, j, "id"@));
                            } else if k < j1 {
                                assert(ident_at(toks, k).is_none());
                            } else {
                                assert(k != j1);
                            }
                        }
                        if key_absent(toks, i, j, "id"@) {
                            assert(ident_at(toks, i) != Some("id"@));
                            assert(key_absent(toks, j1 + 1, j, "id"@));
                        }
                        assert forall|k: int, v: u32|
                            i <= k && k + 2 < j && #[trigger] int_arg_at(toks, k, "prio"@, v) && key_absent(toks, k + 1, j, "prio"@)
                            implies task_args_from(toks, i, acc)->Ok_0.0.prio == v by {
                            if k == i {
                                assert(int_at(toks, i + 2) == Ok::<(u32, int), ArgError>((v, i + 3)));
                                assert(acc1.prio == v);
                                assert(key_absent(toks, j1 + 1, j, "prio"@));
                            } else if k < j1 {
                                assert(ident_at(toks, k).is_none());
                            } else {
                                assert(k != j1);
                            }
                        }
                        if key_absent(toks, i, j, "prio"@) {
                            assert(ident_at(toks, i) != Some("prio"@));
                            assert(key_absent(toks, j1 + 1, j, "prio"@));
                        }
                    }
                } else {
                    assert forall|k: int, v: u32|
                        i <= k && k + 2 < j1 && #[trigger] int_arg_at(toks, k, "stack_size"@, v) implies acc1.stack_size == Some(v) by {
                        if k > i {
                            assert(ident_at(toks, k).is_none());
                        } else {
                            assert(int_at(toks, i + 2) == Ok::<(u32, int), ArgError>((v, i + 3)));
                        }
                    }
                    if key_absent(toks, i, j1, "stack_size"@) {
                        assert(ident_at(toks, i) != Some("stack_size"@));
                    }
                    assert forall|k: int, v: u32|
                        i <= k && k + 2 < j1 && #[trigger] int_arg_at(toks, k, "id"@, v) implies acc1.id == Some(v) by {
                        if k > i {
                            assert(ident_at(toks, k).is_none());
                        } else {
                            assert(int_at(toks, i + 2) == Ok::<(u32, int), ArgError>((v, i + 3)));
                        }
                    }
                    if key_absent(toks, i, j1, "id"@) {
                        assert(ident_at(toks, i) != Some("id"@));
                    }
                    assert forall|k: int, v: u32|
                        i <= k && k + 2 < j1 && #[trigger] int_arg_at(toks, k, "prio"@, v) implies acc1.prio == v by {
                        if k > i {
                            assert(ident_at(toks, k).is_none());
                        } else {
                            assert(int_at(toks, i + 2) == Ok::<(u32, int), ArgError>((v, i + 3)));
                        }
                    }
                    if key_absent(toks, i, j1, "prio"@) {
                        assert(ident_at(toks, i) != Some("prio"@));
                    }
                }
            },
            Err(_) => {},
        }
    }
}

/// The values of the `task` arguments are the values their literals spell:
/// where the arguments are read, `stack_size`, `id` and `prio` are the values
/// of the literals in their last `key = <lit>`, for every `u32`; `id` is
/// absent and `prio` 0 where the key is not named.
pub proof fn lemma_task_args_values(toks: Seq<ArgToken>)
    ensures
        task_args_spec(toks) matches Ok(t) ==> {
            &&& forall|k: int, v: u32|
                #[trigger] int_arg_at(toks, k, "stack_size"@, v) && key_absent(toks, k + 1, toks.len() as int, "stack_size"@)
                    ==> t.stack_size == v
            &&& forall|k: int, v: u32|
                #[trigger] int_arg_at(toks, k, "id"@, v) && key_absent(toks, k + 1, toks.len() as int, "id"@)
                    ==> t.id == Some(v)
            &&& key_absent(toks, 0, toks.len() as int, "id"@) ==> t.id is None
            &&& forall|k: int, v: u32|
                #[trigger] int_arg_at(toks, k, "prio"@, v) && key_absent(toks, k + 1, toks.len() as int, "prio"@)
                    ==> t.prio == v
            &&& key_absent(toks, 0, toks.len() as int, "prio"@) ==> t.prio == 0
        },
{
    lemma_task_args_from_values(toks, 0, task_args_initial());
    lemma_task_args_from_end(toks, 0, task_args_initial());
    match task_args_spec(toks) {
        Ok(t) => {
            assert forall|k: int, v: u32|
                #[trigger] int_arg_at(toks, k, "stack_size"@, v) && key_absent(toks, k + 1, toks.len() as int, "stack_size"@)
                implies t.stack_size == v by {
                assert(0 <= k);
            }
            assert forall|k: int, v: u32|
                #[trigger] int_arg_at(toks, k, "id"@, v) && key_absent(toks, k + 1, toks.len() as int, "id"@)
                implies t.id == Some(v) by {
                assert(0 <= k);
            }
            assert forall|k: int, v: u32|
                #[trigger] int_arg_at(toks, k, "prio"@, v) && key_absent(toks, k + 1, toks.len() as int, "prio"@)
                implies t.prio == v by {
                assert(0 <= k);
            }
        },
        Err(_) => {},
    }
}

/// `c` in upper case where it is an ASCII lower-case letter.
pub open spec fn ascii_upper(c: char) -> char {
    if 'a' <= c && c <= 'z' {
        ((c as int) - 32) as char
    } else {
        c
    }
}

/// The name of the static that holds the stack of the task declared on the
/// function `name`: `__`, the name in ASCII upper case, `_STACK`.
pub open spec fn stack_name_spec(name: Seq<char>) -> Seq<char> {
    seq!['_', '_'] + name.map_values(|c: char| ascii_upper(c)) + seq!['_', 'S', 'T', 'A', 'C', 'K']
}

/// Reads `= <u32>` at position `i`.
fn eq_int_at_exec(toks: &Vec<ArgToken>, i: usize) -> (r: Result<(u32, usize), ArgError>)
    ensures
        match r {
            Ok((v, j)) => eq_int_at(toks@, i as int) == Ok::<(u32, int), ArgError>((v, j as int)),
            Err(e) => eq_int_at(toks@, i as int) == Err::<(u32, int), ArgError>(e),
        },
{
    if !punct_at_exec(toks, i, '=') {
        Err(ArgError::ExpectedEq)
    } else {
        assert(i < toks.len());
        int_at_exec(toks, i + 1)
    }
}

impl Task {
    /// The name of the static that holds the task's stack.
    pub fn stack_name(&self) -> (r: Vec<char>)
        requires
            self.name is Some,
        ensures
            r@ == stack_name_spec(self.view().name->0),
    {
        let name = match &self.name {
            Some(n) => n.as_str(),
            None => "",
        };
        let len = name.unicode_len();
        let mut out: Vec<char> = Vec::new();
        out.push('_');
        out.push('_');
        let mut i: usize = 0;
        while i < len
            invariant
                len == name@.len(),
                i <= len,
                out@ == seq!['_', '_'] + name@.take(i as int).map_values(|c: char| ascii_upper(c)),
            decreases len - i,
        {
            let c = name.get_char(i);
            let u = if 'a' <= c && c <= 'z' {
                ((c as u8) - 32) as char
            } else {
                c
            };
            assert(u == ascii_upper(c));
            out.push(u);
            assert(name@.take(i + 1) =~= name@.take(i as int).push(c));
            assert(out@ =~= seq!['_', '_'] + name@.take(i + 1).map_values(|c: char| ascii_upper(c)));
            i = i + 1;
        }
        assert(name@.take(len as int) =~= name@);
        out.push('_');
        out.push('S');
        out.push('T');
        out.push('A');
        out.push('C');
        out.push('K');
        assert(out@ =~= stack_name_spec(name@));
        out
    }

    /// Reads the arguments of a `task` attribute from `toks`, all of which
    /// they have to take up.
    pub fn parse(toks: &Vec<ArgToken>) -> (r: Result<Task, ArgError>)
        ensures
            match r {
                Ok(task) => task_args_spec(toks@) == Ok::<TaskView, ArgError>(task.view()),
                Err(e) => task_args_spec(toks@) == Err::<TaskView, ArgError>(e),
            },
    {
        let mut stack_size: Option<u32> = None;
        let mut id: Option<u32> = None;
        let mut prio: u32 = 0;
        let mut privileged = false;
        let mut fp = false;
        let mut disabled = false;
        let mut i: usize = 0;
        loop
            invariant_except_break
                i <= toks.len(),
                task_args_from(toks@, 0, task_args_initial()) == task_args_from(
                    toks@,
                    i as int,
                    task_args_acc(stack_size, id, prio, privileged, fp, disabled),
                ),
            ensures
                i <= toks.len(),
                task_args_from(toks@, 0, task_args_initial()) == Ok::<(TaskArgsAcc, int), ArgError>((
                    task_args_acc(stack_size, id, prio, privileged, fp, disabled),
                    i as int,
                )),
            decreases toks.len() - i,
        {
            let ghost acc = task_args_acc(stack_size, id, prio, privileged, fp, disabled);
            if i >= toks.len() {
                break;
            }
            let key = match ident_at_exec(toks, i) {
                None => return Err(ArgError::ExpectedIdent),
                Some(key) => key,
            };
            let j: usize;
            if ident_is(&key, "stack_size") {
                match eq_int_at_exec(toks, i + 1) {
                    Err(e) => return Err(e),
                    Ok((v, next)) => {
                        stack_size = Some(v);
                        j = next;
                    },
                }
            } else if ident_is(&key, "privileged") {
                privileged = true;
                j = i + 1;
            } else if ident_is(&key, "fp") {
                fp = true;
                j = i + 1;
            } else if ident_is(&key, "id") {
                match eq_int_at_exec(toks, i + 1) {
                    Err(e) => return Err(e),
                    Ok((v, next)) => {
                        id = Some(v);
                        j = next;
                    },
                }
            } else if ident_is(&key, "prio") {
                match eq_int_at_exec(toks, i + 1) {
                    Err(e) => return Err(e),
                    Ok((v, next)) => {
                        prio = v;
                        j = next;
                    },
                }
            } else if ident_is(&key, "disabled") {
                disabled = true;
                j = i + 1;
            } else {
                return Err(ArgError::UnknownAttr);
            }
            proof {
                lemma_task_arg_advance(toks@, i as int, acc);
            }
            if punct_at_exec(toks, j, ',') {
                i = j + 1;
            } else {
                i = j;
                break;
            }
        }
        match stack_size {
            None => Err(ArgError::StackSizeMissing),
            Some(stack_size) => {
                if i < toks.len() {
                    Err(ArgError::UnexpectedToken)
                } else {
                    Ok(Task { stack_size, id, prio, name: None, privileged, fp, disabled })
                }
            },
        }
    }
}

} // verus!
