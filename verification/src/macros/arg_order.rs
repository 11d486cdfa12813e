use vstd::prelude::*;
use crate::macros::mod_args::{
    DEFAULT_AHB_FREQ, DEFAULT_QUANTA_US, ModArgsAcc, ModArgsView, PathView, mod_arg_at,
    mod_args_from, mod_args_initial, mod_args_spec, path_at, path_segments,
    lemma_mod_arg_advance,
};
use crate::macros::tokens::decimal_u32;
use crate::macros::tokens::{
    ArgError, ArgToken, brace_at, ident_at, int_at, path_ident_at, path_sep_at, punct_at,
};

verus! {

/// The separator between arguments.
pub open spec fn comma() -> ArgToken {
    ArgToken::Punct(',', false)
}

/// What may follow an argument: nothing, or a comma.
pub open spec fn arg_end(rest: Seq<ArgToken>) -> bool {
    rest.len() == 0 || punct_at(rest, 0, ',')
}

proof fn lemma_index(pre: Seq<ArgToken>, e: Seq<ArgToken>, rest: Seq<ArgToken>)
    ensures
        (pre + e + rest).len() == pre.len() + e.len() + rest.len(),
        forall|k: int| 0 <= k < e.len() ==> #[trigger] (pre + e + rest)[pre.len() + k] == e[k],
        rest.len() > 0 ==> (pre + e + rest)[(pre.len() + e.len()) as int] == rest[0],
{
    assert forall|k: int| 0 <= k < e.len() implies #[trigger] (pre + e + rest)[pre.len() + k] == e[k] by {
        assert((pre + e + rest)[pre.len() + k] == (pre + e)[pre.len() + k]);
    }
    if rest.len() > 0 {
        assert((pre + e + rest)[(pre.len() + e.len()) as int] == rest[0]);
    }
}

proof fn lemma_path_segments_local(pre: Seq<ArgToken>, e: Seq<ArgToken>, rest: Seq<ArgToken>, k: int)
    requires
        arg_end(rest),
        0 <= k,
        path_segments(e, k) matches Ok((_, j)) && j == e.len(),
    ensures
        path_segments(pre + e + rest, pre.len() + k) == match path_segments(e, k) {
            Ok((segs, j)) => Ok::<(Seq<Seq<char>>, int), ArgError>((segs, pre.len() + j)),
            Err(err) => Err(err),
        },
    decreases e.len() - k,
{
    let t = pre + e + rest;
    let p = pre.len() as int;
    lemma_index(pre, e, rest);
    assert(path_ident_at(e, k).is_some());
    assert(t[p + k] == e[k]);
    assert(path_ident_at(t, p + k) == path_ident_at(e, k));
    if path_sep_at(e, k + 1) && !brace_at(e, k + 3) {
        assert(t[p + k + 1] == e[k + 1]);
        assert(t[p + k + 2] == e[k + 2]);
        assert(path_sep_at(t, p + k + 1));
        if k + 3 < e.len() {
            assert(t[p + k + 3] == e[k + 3]);
        }
        assert(!brace_at(t, p + k + 3));
        lemma_path_segments_local(pre, e, rest, k + 3);
    } else {
        assert(k + 1 == e.len());
        assert(!path_sep_at(t, p + k + 1));
    }
}

proof fn lemma_path_at_local(pre: Seq<ArgToken>, e: Seq<ArgToken>, rest: Seq<ArgToken>, k: int)
    requires
        arg_end(rest),
        0 <= k,
        path_at(e, k) matches Ok((_, j)) && j == e.len(),
    ensures
        path_at(pre + e + rest, pre.len() + k) == match path_at(e, k) {
            Ok((pv, j)) => Ok::<(PathView, int), ArgError>((pv, pre.len() + j)),
            Err(err) => Err(err),
        },
{
    let t = pre + e + rest;
    let p = pre.len() as int;
    lemma_index(pre, e, rest);
    if path_sep_at(e, k) {
        assert(t[p + k] == e[k]);
        assert(t[p + k + 1] == e[k + 1]);
        assert(path_sep_at(t, p + k));
        lemma_path_segments_local(pre, e, rest, k + 2);
    } else {
        assert(path_segments(e, k) is Ok);
        assert(k < e.len());
        assert(t[p + k] == e[k]);
        if k + 1 < e.len() {
            assert(t[p + k + 1] == e[k + 1]);
        }
        assert(!path_sep_at(t, p + k));
        lemma_path_segments_local(pre, e, rest, k);
    }
}

proof fn lemma_keys_distinct()
    ensures
        "quanta_us"@ != "scheduler"@,
        "quanta_us"@ != "ahb_freq"@,
        "scheduler"@ != "ahb_freq"@,
{
    reveal_strlit("quanta_us");
    reveal_strlit("scheduler");
    reveal_strlit("ahb_freq");
    assert("quanta_us"@[0] != "scheduler"@[0]);
    assert("quanta_us"@[0] != "ahb_freq"@[0]);
    assert("scheduler"@[0] != "ahb_freq"@[0]);
}

/// `e` spells exactly one argument of the `os` attribute.
pub open spec fn valid_arg(e: Seq<ArgToken>) -> bool {
    mod_arg_at(e, 0, mod_args_initial()) matches Ok((_, j)) && j == e.len()
}

/// The arguments read so far after the argument `e`.
pub open spec fn apply_arg(e: Seq<ArgToken>, acc: ModArgsAcc) -> ModArgsAcc {
    match mod_arg_at(e, 0, acc) {
        Ok((a, _)) => a,
        Err(_) => acc,
    }
}

proof fn lemma_mod_arg_shape(e: Seq<ArgToken>, acc: ModArgsAcc)
    requires
        valid_arg(e),
    ensures
        mod_arg_at(e, 0, acc) == Ok::<(ModArgsAcc, int), ArgError>((apply_arg(e, acc), e.len() as int)),
        ident_at(e, 0) == Some("quanta_us"@) || ident_at(e, 0) == Some("scheduler"@) || ident_at(e, 0)
            == Some("ahb_freq"@),
        ident_at(e, 0) == Some("quanta_us"@) ==> apply_arg(e, acc) == (ModArgsAcc {
            quanta_us: apply_arg(e, mod_args_initial()).quanta_us,
            ..acc
        }),
        ident_at(e, 0) == Some("scheduler"@) ==> apply_arg(e, acc) == (ModArgsAcc {
            scheduler: apply_arg(e, mod_args_initial()).scheduler,
            ..acc
        }),
        ident_at(e, 0) == Some("ahb_freq"@) ==> apply_arg(e, acc) == (ModArgsAcc {
            ahb_freq: apply_arg(e, mod_args_initial()).ahb_freq,
            ..acc
        }),
{
    lemma_keys_distinct();
}

proof fn lemma_mod_arg_local(pre: Seq<ArgToken>, e: Seq<ArgToken>, rest: Seq<ArgToken>, acc: ModArgsAcc)
    requires
        arg_end(rest),
        valid_arg(e),
    ensures
        mod_arg_at(pre + e + rest, pre.len() as int, acc) == Ok::<(ModArgsAcc, int), ArgError>(
            (apply_arg(e, acc), (pre.len() + e.len()) as int),
        ),
{
    let t = pre + e + rest;
    let p = pre.len() as int;
    lemma_keys_distinct();
    lemma_mod_arg_shape(e, acc);
    lemma_index(pre, e, rest);
    assert(t[p] == e[0]);
    assert(t[p + 1] == e[1]);
    assert(ident_at(t, p) == ident_at(e, 0));
    assert(punct_at(t, p + 1, '=') == punct_at(e, 1, '='));
    if ident_at(e, 0) == Some("scheduler"@) {
        lemma_path_at_local(pre, e, rest, 2);
    } else {
        assert(t[p + 2] == e[2]);
        assert(int_at(t, p + 2) == match int_at(e, 2) {
            Ok((v, j)) => Ok::<(u32, int), ArgError>((v, p + j)),
            Err(err) => Err(err),
        });
    }
}

/// The tokens of the arguments `es`, separated by commas.
pub open spec fn join_args(es: Seq<Seq<ArgToken>>) -> Seq<ArgToken>
    decreases es.len(),
{
    if es.len() == 0 {
        Seq::empty()
    } else if es.len() == 1 {
        es[0]
    } else {
        es[0] + seq![comma()] + join_args(es.drop_first())
    }
}

/// The arguments read after the arguments `es`, in order.
pub open spec fn apply_args(es: Seq<Seq<ArgToken>>, acc: ModArgsAcc) -> ModArgsAcc
    decreases es.len(),
{
    if es.len() == 0 {
        acc
    } else {
        apply_args(es.drop_first(), apply_arg(es[0], acc))
    }
}

#[verifier::rlimit(40)]
proof fn lemma_join_parse(pre: Seq<ArgToken>, es: Seq<Seq<ArgToken>>, acc: ModArgsAcc)
    requires
        forall|k: int| 0 <= k < es.len() ==> valid_arg(#[trigger] es[k]),
        es.len() > 0 ==> pre.len() == 0 || punct_at(pre, pre.len() - 1, ','),
    ensures
        mod_args_from(pre + join_args(es), pre.len() as int, acc) == Ok::<(ModArgsAcc, int), ArgError>(
            (apply_args(es, acc), (pre + join_args(es)).len() as int),
        ),
    decreases es.len(),
{
    let t = pre + join_args(es);
    if es.len() == 0 {
        assert(t =~= pre);
    } else {
        let e = es[0];
        assert(valid_arg(e));
        lemma_mod_arg_shape(e, acc);
        if es.len() == 1 {
            assert(t =~= pre + e + Seq::<ArgToken>::empty());
            lemma_mod_arg_local(pre, e, Seq::empty(), acc);
            assert(!punct_at(t, (pre.len() + e.len()) as int, ','));
            assert(es.drop_first().len() == 0);
            assert(mod_args_from(t, pre.len() as int, acc) == Ok::<(ModArgsAcc, int), ArgError>(
                (apply_arg(e, acc), t.len() as int),
            ));
            assert(apply_args(es.drop_first(), apply_arg(e, acc)) == apply_arg(e, acc));
        } else {
            let rest = seq![comma()] + join_args(es.drop_first());
            assert(t =~= pre + e + rest);
            assert(rest[0] == comma());
            lemma_mod_arg_local(pre, e, rest, acc);
            lemma_index(pre, e, rest);
            let pre2 = pre + e + seq![comma()];
            assert(t =~= pre2 + join_args(es.drop_first()));
            assert(pre2[pre2.len() - 1] == comma());
            assert forall|k: int| 0 <= k < es.drop_first().len() implies valid_arg(#[trigger] es.drop_first()[k]) by {
                assert(es.drop_first()[k] == es[k + 1]);
            }
            lemma_join_parse(pre2, es.drop_first(), apply_arg(e, acc));
            assert(punct_at(t, (pre.len() + e.len()) as int, ','));
            assert(mod_args_from(t, pre.len() as int, acc) == mod_args_from(
                t,
                pre2.len() as int,
                apply_arg(e, acc),
            ));
        }
    }
}

/// The arguments `es` name pairwise distinct keys.
pub open spec fn distinct_keys(es: Seq<Seq<ArgToken>>) -> bool {
    forall|i: int, j: int|
        0 <= i < es.len() && 0 <= j < es.len() && i != j ==> ident_at(#[trigger] es[i], 0) != ident_at(
            #[trigger] es[j],
            0,
        )
}

/// Some argument of `es` has the key `key`.
pub open spec fn has_key(es: Seq<Seq<ArgToken>>, key: Seq<char>) -> bool {
    exists|k: int| 0 <= k < es.len() && ident_at(#[trigger] es[k], 0) == Some(key)
}

proof fn lemma_apply_args_fields(es: Seq<Seq<ArgToken>>, acc: ModArgsAcc)
    requires
        forall|k: int| 0 <= k < es.len() ==> valid_arg(#[trigger] es[k]),
    ensures
        !has_key(es, "quanta_us"@) ==> apply_args(es, acc).quanta_us == acc.quanta_us,
        !has_key(es, "scheduler"@) ==> apply_args(es, acc).scheduler == acc.scheduler,
        !has_key(es, "ahb_freq"@) ==> apply_args(es, acc).ahb_freq == acc.ahb_freq,
        has_key(es, "quanta_us"@) ==> exists|k: int|
            0 <= k < es.len() && ident_at(#[trigger] es[k], 0) == Some("quanta_us"@)
                && apply_args(es, acc).quanta_us == apply_arg(es[k], mod_args_initial()).quanta_us,
        has_key(es, "scheduler"@) ==> exists|k: int|
            0 <= k < es.len() && ident_at(#[trigger] es[k], 0) == Some("scheduler"@)
                && apply_args(es, acc).scheduler == apply_arg(es[k], mod_args_initial()).scheduler,
        has_key(es, "ahb_freq"@) ==> exists|k: int|
            0 <= k < es.len() && ident_at(#[trigger] es[k], 0) == Some("ahb_freq"@)
                && apply_args(es, acc).ahb_freq == apply_arg(es[k], mod_args_initial()).ahb_freq,
    decreases es.len(),
{
    if es.len() > 0 {
        let rest = es.drop_first();
        let e = es[0];
        assert(valid_arg(e));
        lemma_mod_arg_shape(e, acc);
        assert forall|k: int| 0 <= k < rest.len() implies valid_arg(#[trigger] rest[k]) by {
            assert(rest[k] == es[k + 1]);
        }
        let acc1 = apply_arg(e, acc);
        lemma_apply_args_fields(rest, acc1);
        assert(apply_args(es, acc) == apply_args(rest, acc1));
        assert forall|key: Seq<char>| has_key(rest, key) implies has_key(es, key) by {
            let k = choose|k: int| 0 <= k < rest.len() && ident_at(#[trigger] rest[k], 0) == Some(key);
            assert(rest[k] == es[k + 1]);
        }
        assert forall|key: Seq<char>| #[trigger] has_key(es, key) && !has_key(rest, key) implies ident_at(e, 0) == Some(key) by {
            let k = choose|k: int| 0 <= k < es.len() && ident_at(#[trigger] es[k], 0) == Some(key);
            if k > 0 {
                assert(rest[k - 1] == es[k]);
            }
        }
        if has_key(rest, "quanta_us"@) {
            let k = choose|k: int|
                0 <= k < rest.len() && ident_at(#[trigger] rest[k], 0) == Some("quanta_us"@)
                    && apply_args(rest, acc1).quanta_us == apply_arg(rest[k], mod_args_initial()).quanta_us;
            assert(rest[k] == es[k + 1]);
        } else if ident_at(e, 0) == Some("quanta_us"@) {
            assert(ident_at(es[0], 0) == Some("quanta_us"@));
        }
        if has_key(rest, "scheduler"@) {
            let k = choose|k: int|
                0 <= k < rest.len() && ident_at(#[trigger] rest[k], 0) == Some("scheduler"@)
                    && apply_args(rest, acc1).scheduler == apply_arg(rest[k], mod_args_initial()).scheduler;
            assert(rest[k] == es[k + 1]);
        } else if ident_at(e, 0) == Some("scheduler"@) {
            assert(ident_at(es[0], 0) == Some("scheduler"@));
        }
        if has_key(rest, "ahb_freq"@) {
            let k = choose|k: int|
                0 <= k < rest.len() && ident_at(#[trigger] rest[k], 0) == Some("ahb_freq"@)
                    && apply_args(rest, acc1).ahb_freq == apply_arg(rest[k], mod_args_initial()).ahb_freq;
            assert(rest[k] == es[k + 1]);
        } else if ident_at(e, 0) == Some("ahb_freq"@) {
            assert(ident_at(es[0], 0) == Some("ahb_freq"@));
        }
    }
}

proof fn lemma_same_field_source(es1: Seq<Seq<ArgToken>>, es2: Seq<Seq<ArgToken>>, key: Seq<char>, k1: int, k2: int)
    requires
        distinct_keys(es1),
        forall|x: Seq<ArgToken>| es2.contains(x) ==> es1.contains(x),
        0 <= k1 < es1.len(),
        0 <= k2 < es2.len(),
        ident_at(es1[k1], 0) == Some(key),
        ident_at(es2[k2], 0) == Some(key),
    ensures
        es2[k2] == es1[k1],
{
    assert(es2.contains(es2[k2]));
    let i = choose|i: int| 0 <= i < es1.len() && es1[i] == es2[k2];
    if i != k1 {
        assert(ident_at(es1[i], 0) != ident_at(es1[k1], 0));
    }
}

/// The order of the arguments of the `os` attribute does not matter where
/// their keys are distinct: two lists of the same arguments, each spelling
/// one `key = value`, give the same result, both the same arguments or both
/// the same error.
pub proof fn lemma_mod_args_order_free(es1: Seq<Seq<ArgToken>>, es2: Seq<Seq<ArgToken>>)
    requires
        forall|k: int| 0 <= k < es1.len() ==> valid_arg(#[trigger] es1[k]),
        distinct_keys(es1),
        es1.to_multiset() == es2.to_multiset(),
    ensures
        mod_args_spec(join_args(es1)) == mod_args_spec(join_args(es2)),
{
    assert forall|x: Seq<ArgToken>| es1.contains(x) <==> es2.contains(x) by {
        es1.to_multiset_ensures();
        es2.to_multiset_ensures();
        assert(es1.contains(x) <==> es1.to_multiset().count(x) > 0);
        assert(es2.contains(x) <==> es2.to_multiset().count(x) > 0);
        assert(es1.to_multiset().count(x) == es2.to_multiset().count(x));
    }
    assert forall|k: int| 0 <= k < es2.len() implies valid_arg(#[trigger] es2[k]) by {
        assert(es2.contains(es2[k]));
        let i = choose|i: int| 0 <= i < es1.len() && es1[i] == es2[k];
        assert(valid_arg(es1[i]));
    }
    let init = mod_args_initial();
    let e: Seq<ArgToken> = Seq::empty();
    lemma_join_parse(e, es1, init);
    lemma_join_parse(e, es2, init);
    assert(e + join_args(es1) =~= join_args(es1));
    assert(e + join_args(es2) =~= join_args(es2));
    lemma_apply_args_fields(es1, init);
    lemma_apply_args_fields(es2, init);
    let a1 = apply_args(es1, init);
    let a2 = apply_args(es2, init);
    assert forall|key: Seq<char>| has_key(es1, key) <==> has_key(es2, key) by {
        if has_key(es1, key) {
            let k = choose|k: int| 0 <= k < es1.len() && ident_at(#[trigger] es1[k], 0) == Some(key);
            assert(es1.contains(es1[k]));
            let j = choose|j: int| 0 <= j < es2.len() && es2[j] == es1[k];
            assert(ident_at(es2[j], 0) == Some(key));
        }
        if has_key(es2, key) {
            let k = choose|k: int| 0 <= k < es2.len() && ident_at(#[trigger] es2[k], 0) == Some(key);
            assert(es2.contains(es2[k]));
            let j = choose|j: int| 0 <= j < es1.len() && es1[j] == es2[k];
            assert(ident_at(es1[j], 0) == Some(key));
        }
    }
    if has_key(es1, "quanta_us"@) {
        let k1 = choose|k: int|
            0 <= k < es1.len() && ident_at(#[trigger] es1[k], 0) == Some("quanta_us"@)
                && a1.quanta_us == apply_arg(es1[k], init).quanta_us;
        let k2 = choose|k: int|
            0 <= k < es2.len() && ident_at(#[trigger] es2[k], 0) == Some("quanta_us"@)
                && a2.quanta_us == apply_arg(es2[k], init).quanta_us;
        lemma_same_field_source(es1, es2, "quanta_us"@, k1, k2);
    }
    if has_key(es1, "scheduler"@) {
        let k1 = choose|k: int|
            0 <= k < es1.len() && ident_at(#[trigger] es1[k], 0) == Some("scheduler"@)
                && a1.scheduler == apply_arg(es1[k], init).scheduler;
        let k2 = choose|k: int|
            0 <= k < es2.len() && ident_at(#[trigger] es2[k], 0) == Some("scheduler"@)
                && a2.scheduler == apply_arg(es2[k], init).scheduler;
        lemma_same_field_source(es1, es2, "scheduler"@, k1, k2);
    }
    if has_key(es1, "ahb_freq"@) {
        let k1 = choose|k: int|
            0 <= k < es1.len() && ident_at(#[trigger] es1[k], 0) == Some("ahb_freq"@)
                && a1.ahb_freq == apply_arg(es1[k], init).ahb_freq;
        let k2 = choose|k: int|
            0 <= k < es2.len() && ident_at(#[trigger] es2[k], 0) == Some("ahb_freq"@)
                && a2.ahb_freq == apply_arg(es2[k], init).ahb_freq;
        lemma_same_field_source(es1, es2, "ahb_freq"@, k1, k2);
    }
    assert(a1 == a2);
}

proof fn lemma_path_segments_no_eq(toks: Seq<ArgToken>, s: int)
    requires
        0 <= s,
    ensures
        path_segments(toks, s) matches Ok((_, j)) ==> forall|k: int|
            s <= k && k + 1 < j ==> !(#[trigger] punct_at(toks, k + 1, '=')),
    decreases toks.len() - s,
{
    if path_ident_at(toks, s).is_some() && path_sep_at(toks, s + 1) && !brace_at(toks, s + 3) {
        lemma_path_segments_no_eq(toks, s + 3);
    }
}

/// `toks` holds at position `k` the argument `key = <lit>` whose literal
/// reads as the `u32` value `v`.
pub open spec fn int_arg_at(toks: Seq<ArgToken>, k: int, key: Seq<char>, v: u32) -> bool {
    &&& ident_at(toks, k) == Some(key)
    &&& punct_at(toks, k + 1, '=')
    &&& 0 <= k + 2 < toks.len()
    &&& toks[k + 2] matches ArgToken::Int(d) && decimal_u32(d@) == Some(v)
}

/// `toks` holds at position `k` the start of the argument `scheduler = `.
pub open spec fn sched_arg_at(toks: Seq<ArgToken>, k: int) -> bool {
    &&& ident_at(toks, k) == Some("scheduler"@)
    &&& punct_at(toks, k + 1, '=')
}

/// No identifier `key` stands in `toks` at a position of `lo..hi`.
pub open spec fn key_absent(toks: Seq<ArgToken>, lo: int, hi: int, key: Seq<char>) -> bool {
    forall|k: int| lo <= k < hi ==> #[trigger] ident_at(toks, k) != Some(key)
}

proof fn lemma_mod_args_from_values(toks: Seq<ArgToken>, i: int, acc: ModArgsAcc)
    requires
        0 <= i,
    ensures
        mod_args_from(toks, i, acc) matches Ok((acc2, j)) ==> {
            &&& forall|k: int, v: u32|
                i <= k && k + 2 < j && #[trigger] int_arg_at(toks, k, "quanta_us"@, v) && key_absent(
                    toks,
                    k + 1,
                    j,
                    "quanta_us"@,
                ) ==> acc2.quanta_us == v
            &&& key_absent(toks, i, j, "quanta_us"@) ==> acc2.quanta_us == acc.quanta_us
            &&& forall|k: int, v: u32|
                i <= k && k + 2 < j && #[trigger] int_arg_at(toks, k, "ahb_freq"@, v) && key_absent(
                    toks,
                    k + 1,
                    j,
                    "ahb_freq"@,
                ) ==> acc2.ahb_freq == v
            &&& key_absent(toks, i, j, "ahb_freq"@) ==> acc2.ahb_freq == acc.ahb_freq
            &&& forall|k: int|
                i <= k && k + 2 < j && #[trigger] sched_arg_at(toks, k) && key_absent(
                    toks,
                    k + 1,
                    j,
                    "scheduler"@,
                ) ==> path_at(toks, k + 2) is Ok && acc2.scheduler == Some(path_at(toks, k + 2)->Ok_0.0)
            &&& key_absent(toks, i, j, "scheduler"@) ==> acc2.scheduler == acc.scheduler
        },
    decreases toks.len() - i,
{
    lemma_keys_distinct();
    if i < toks.len() {
        lemma_mod_arg_advance(toks, i, acc);
        match mod_arg_at(toks, i, acc) {
            Ok((acc1, j1)) => {
                let key = ident_at(toks, i)->0;
                // inside the argument no `<key> =` starts after its own key
                if key == "scheduler"@ {
                    let start = if path_sep_at(toks, i + 2) { i + 4 } else { i + 2 };
                    lemma_path_segments_no_eq(toks, start);
                    assert forall|k: int| i < k && k + 1 < j1 implies !(#[trigger] punct_at(toks, k + 1, '=')) by {
                        if k + 1 < start {
                            assert(k + 1 == i + 2 || k + 1 == i + 3);
                            assert(path_sep_at(toks, i + 2));
                        }
                    }
                } else {
                    assert(j1 == i + 3);
                    assert(ident_at(toks, i + 1).is_none());
                    assert(ident_at(toks, i + 2).is_none());
                }
                if punct_at(toks, j1, ',') {
                    lemma_mod_args_from_values(toks, j1 + 1, acc1);
                    assert(ident_at(toks, j1).is_none());
                    lemma_mod_args_from_end(toks, j1 + 1, acc1);
                    if mod_args_from(toks, j1 + 1, acc1) is Ok {
                        let j = mod_args_from(toks, j1 + 1, acc1)->Ok_0.1;
                        assert(i < j);
                        assert(mod_args_from(toks, i, acc) == mod_args_from(toks, j1 + 1, acc1));
                        assert forall|k: int, v: u32|
                            i <= k && k + 2 < j && #[trigger] int_arg_at(toks, k, "quanta_us"@, v) && key_absent(
                                toks,
                                k + 1,
                                j,
                                "quanta_us"@,
                            ) implies mod_args_from(toks, i, acc)->Ok_0.0.quanta_us == v by {
                            if k == i {
                                assert(int_at(toks, i + 2) == Ok::<(u32, int), ArgError>((v, i + 3)));
                                assert(acc1.quanta_us == v);
                                assert(key_absent(toks, j1 + 1, j, "quanta_us"@));
                            } else if k < j1 {
                                if key == "scheduler"@ {
                                    if k + 1 < j1 {
                                        assert(!punct_at(toks, k + 1, '='));
                                    } else {
                                        assert(punct_at(toks, j1, ','));
                                    }
                                } else {
                                    assert(ident_at(toks, k).is_none());
                                }
                            } else {
                                assert(k != j1);
                                assert(j1 + 1 <= k);
                            }
                        }
                        assert forall|k: int, v: u32|
                            i <= k && k + 2 < j && #[trigger] int_arg_at(toks, k, "ahb_freq"@, v) && key_absent(
                                toks,
                                k + 1,
                                j,
                                "ahb_freq"@,
                            ) implies mod_args_from(toks, i, acc)->Ok_0.0.ahb_freq == v by {
                            if k == i {
                                assert(int_at(toks, i + 2) == Ok::<(u32, int), ArgError>((v, i + 3)));
                                assert(acc1.ahb_freq == v);
                                assert(key_absent(toks, j1 + 1, j, "ahb_freq"@));
                            } else if k < j1 {
                                if key == "scheduler"@ {
                                    if k + 1 < j1 {
                                        assert(!punct_at(toks, k + 1, '='));
                                    } else {
                                        assert(punct_at(toks, j1, ','));
                                    }
                                } else {
                                    assert(ident_at(toks, k).is_none());
                                }
                            } else {
                                assert(k != j1);
                                assert(j1 + 1 <= k);
                            }
                        }
                        assert forall|k: int|
                            i <= k && k + 2 < j && #[trigger] sched_arg_at(toks, k) && key_absent(
                                toks,
                                k + 1,
                                j,
                                "scheduler"@,
                            ) implies path_at(toks, k + 2) is Ok && mod_args_from(toks, i, acc)->Ok_0.0.scheduler
                                == Some(path_at(toks, k + 2)->Ok_0.0) by {
                            if k == i {
                                assert(acc1.scheduler == Some(path_at(toks, k + 2)->Ok_0.0));
                                assert(key_absent(toks, j1 + 1, j, "scheduler"@));
                            } else if k < j1 {
                                if key == "scheduler"@ {
                                    if k + 1 < j1 {
                                        assert(!punct_at(toks, k + 1, '='));
                                    } else {
                                        assert(punct_at(toks, j1, ','));
                                    }
                                } else {
                                    assert(ident_at(toks, k).is_none());
                                }
                            } else {
                                assert(k != j1);
                                assert(j1 + 1 <= k);
                            }
                        }
                        if key_absent(toks, i, j, "scheduler"@) {
                            assert(ident_at(toks, i) != Some("scheduler"@));
                            assert(key_absent(toks, j1 + 1, j, "scheduler"@));
                        }
                        if key_absent(toks, i, j, "quanta_us"@) {
                            assert(ident_at(toks, i) != Some("quanta_us"@));
                            assert(key_absent(toks, j1 + 1, j, "quanta_us"@));
                        }
                        if key_absent(toks, i, j, "ahb_freq"@) {
                            assert(ident_at(toks, i) != Some("ahb_freq"@));
                            assert(key_absent(toks, j1 + 1, j, "ahb_freq"@));
                        }
                    }
                } else {
                    assert forall|k: int, v: u32|
                        i <= k && k + 2 < j1 && #[trigger] int_arg_at(toks, k, "quanta_us"@, v) implies acc1.quanta_us == v by {
                        if k > i {
                            if key == "scheduler"@ {
                                assert(!punct_at(toks, k + 1, '='));
                            } else {
                                assert(ident_at(toks, k).is_none());
                            }
                        } else {
                            assert(int_at(toks, i + 2) == Ok::<(u32, int), ArgError>((v, i + 3)));
                        }
                    }
                    assert forall|k: int, v: u32|
                        i <= k && k + 2 < j1 && #[trigger] int_arg_at(toks, k, "ahb_freq"@, v) implies acc1.ahb_freq == v by {
                        if k > i {
                            if key == "scheduler"@ {
                                assert(!punct_at(toks, k + 1, '='));
                            } else {
                                assert(ident_at(toks, k).is_none());
                            }
                        } else {
                            assert(int_at(toks, i + 2) == Ok::<(u32, int), ArgError>((v, i + 3)));
                        }
                    }
                    assert forall|k: int|
                        i <= k && k + 2 < j1 && #[trigger] sched_arg_at(toks, k) implies path_at(toks, k + 2) is Ok
                            && acc1.scheduler == Some(path_at(toks, k + 2)->Ok_0.0) by {
                        if k > i {
                            if key == "scheduler"@ {
                                assert(!punct_at(toks, k + 1, '='));
                            } else {
                                assert(ident_at(toks, k).is_none());
                            }
                        }
                    }
                    if key_absent(toks, i, j1, "quanta_us"@) {
                        assert(ident_at(toks, i) != Some("quanta_us"@));
                    }
                    if key_absent(toks, i, j1, "scheduler"@) {
                        assert(ident_at(toks, i) != Some("scheduler"@));
                    }
                    if key_absent(toks, i, j1, "ahb_freq"@) {
                        assert(ident_at(toks, i) != Some("ahb_freq"@));
                    }
                }
            },
            Err(_) => {},
        }
    }
}

/// The values of the `os` arguments are the values their literals spell:
/// where the arguments are read, `quanta_us` (and `ahb_freq`) is the value
/// of the literal in the last `quanta_us = <lit>` (`ahb_freq = <lit>`), for
/// every `u32`, and the default where the key is not named.
pub proof fn lemma_mod_args_values(toks: Seq<ArgToken>)
    ensures
        mod_args_spec(toks) matches Ok(a) ==> {
            &&& forall|k: int, v: u32|
                #[trigger] int_arg_at(toks, k, "quanta_us"@, v) && key_absent(
                    toks,
                    k + 1,
                    toks.len() as int,
                    "quanta_us"@,
                ) ==> a.quanta_us == v
            &&& key_absent(toks, 0, toks.len() as int, "quanta_us"@) ==> a.quanta_us == DEFAULT_QUANTA_US
            &&& forall|k: int, v: u32|
                #[trigger] int_arg_at(toks, k, "ahb_freq"@, v) && key_absent(
                    toks,
                    k + 1,
                    toks.len() as int,
                    "ahb_freq"@,
                ) ==> a.ahb_freq == v
            &&& key_absent(toks, 0, toks.len() as int, "ahb_freq"@) ==> a.ahb_freq == DEFAULT_AHB_FREQ
            &&& forall|k: int|
                #[trigger] sched_arg_at(toks, k) && k + 2 < toks.len() && key_absent(
                    toks,
                    k + 1,
                    toks.len() as int,
                    "scheduler"@,
                ) ==> path_at(toks, k + 2) is Ok && a.scheduler == path_at(toks, k + 2)->Ok_0.0
        },
{
    lemma_mod_args_from_values(toks, 0, mod_args_initial());
    lemma_mod_args_from_end(toks, 0, mod_args_initial());
    match mod_args_spec(toks) {
        Ok(a) => {
            let j = mod_args_from(toks, 0, mod_args_initial())->Ok_0.1;
            assert(j == toks.len());
            assert forall|k: int, v: u32|
                #[trigger] int_arg_at(toks, k, "quanta_us"@, v) && key_absent(toks, k + 1, toks.len() as int, "quanta_us"@)
                implies a.quanta_us == v by {
                assert(0 <= k);
            }
            assert forall|k: int, v: u32|
                #[trigger] int_arg_at(toks, k, "ahb_freq"@, v) && key_absent(toks, k + 1, toks.len() as int, "ahb_freq"@)
                implies a.ahb_freq == v by {
                assert(0 <= k);
            }
            assert forall|k: int|
                #[trigger] sched_arg_at(toks, k) && k + 2 < toks.len() && key_absent(toks, k + 1, toks.len() as int, "scheduler"@)
                implies path_at(toks, k + 2) is Ok && a.scheduler == path_at(toks, k + 2)->Ok_0.0 by {
                assert(0 <= k);
            }
        },
        Err(_) => {},
    }
}

proof fn lemma_mod_args_from_end(toks: Seq<ArgToken>, i: int, acc: ModArgsAcc)
    requires
        0 <= i,
    ensures
        i <= toks.len() ==> (mod_args_from(toks, i, acc) matches Ok((_, j)) ==> i <= j <= toks.len()),
    decreases toks.len() - i,
{
    if i < toks.len() {
        lemma_mod_arg_advance(toks, i, acc);
        match mod_arg_at(toks, i, acc) {
            Ok((acc1, j1)) => {
                if punct_at(toks, j1, ',') {
                    lemma_mod_args_from_end(toks, j1 + 1, acc1);
                }
            },
            Err(_) => {},
        }
    }
}

} // verus!
