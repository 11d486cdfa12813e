use vstd::prelude::*;
use crate::macros::tokens::{
    ArgError, ArgToken, brace_at, brace_at_exec, ident_at, ident_at_exec, ident_is, int_at, int_at_exec,
    names_from, never_names, path_ident_at, path_ident_at_exec, path_sep_at, path_sep_at_exec, punct_at, punct_at_exec,
};

verus! {

/// The time slice, in microseconds, when `quanta_us` is not given.
pub const DEFAULT_QUANTA_US: u32 = 10_000;

/// The bus frequency when `ahb_freq` is not given.
pub const DEFAULT_AHB_FREQ: u32 = 16 * 1_000_000;

/// A path such as `chaos::scheduler::RRScheduler`.
pub struct SchedulerPath {
    /// The path starts with `::`.
    pub leading_colon: bool,
    /// The names between the `::` separators.
    pub segments: Vec<String>,
}

/// A path as the contracts see it.
pub struct PathView {
    pub leading_colon: bool,
    pub segments: Seq<Seq<char>>,
}

impl SchedulerPath {
    pub open spec fn view(&self) -> PathView {
        PathView {
            leading_colon: self.leading_colon,
            segments: self.segments@.map_values(|s: String| s@),
        }
    }
}

/// The view of an optional path.
pub open spec fn opt_path_view(p: &Option<SchedulerPath>) -> Option<PathView> {
    match p {
        Some(p) => Some(p.view()),
        None => None,
    }
}

/// The arguments of the `os` attribute.
pub struct ModArgs {
    pub quanta_us: u32,
    pub scheduler: SchedulerPath,
    pub ahb_freq: u32,
}

/// The arguments of the `os` attribute as the contracts see them.
pub struct ModArgsView {
    pub quanta_us: u32,
    pub scheduler: PathView,
    pub ahb_freq: u32,
}

impl ModArgs {
    pub open spec fn view(&self) -> ModArgsView {
        ModArgsView {
            quanta_us: self.quanta_us,
            scheduler: self.scheduler.view(),
            ahb_freq: self.ahb_freq,
        }
    }
}

/// The `os` arguments read so far: the values given (or the defaults), the
/// scheduler if it was given.
pub struct ModArgsAcc {
    pub quanta_us: u32,
    pub scheduler: Option<PathView>,
    pub ahb_freq: u32,
}

/// Nothing read yet: the defaults and no scheduler.
pub open spec fn mod_args_initial() -> ModArgsAcc {
    ModArgsAcc { quanta_us: DEFAULT_QUANTA_US, scheduler: None, ahb_freq: DEFAULT_AHB_FREQ }
}

/// The arguments read so far, from the values being built.
pub open spec fn mod_args_acc(quanta_us: u32, scheduler: &Option<SchedulerPath>, ahb_freq: u32) -> ModArgsAcc {
    ModArgsAcc { quanta_us, scheduler: opt_path_view(scheduler), ahb_freq }
}

/// The segments of a path starting at position `i`: a segment name, then
/// as long as `::` follows and is not followed by a brace group, `::` and
/// another segment name. With the position after the path.
pub open spec fn path_segments(toks: Seq<ArgToken>, i: int) -> Result<(Seq<Seq<char>>, int), ArgError>
    decreases toks.len() - i,
{
    match path_ident_at(toks, i) {
        None => Err(ArgError::ExpectedIdent),
        Some(name) => if path_sep_at(toks, i + 1) && !brace_at(toks, i + 3) {
            match path_segments(toks, i + 3) {
                Ok((rest, j)) => Ok((seq![name] + rest, j)),
                Err(e) => Err(e),
            }
        } else {
            Ok((seq![name], i + 1))
        },
    }
}

/// The path at position `i` of `toks`: an optional leading `::`, then its
/// segments. With the position after the path.
pub open spec fn path_at(toks: Seq<ArgToken>, i: int) -> Result<(PathView, int), ArgError> {
    let leading = path_sep_at(toks, i);
    let start = if leading { i + 2 } else { i };
    match path_segments(toks, start) {
        Ok((segments, j)) => Ok((PathView { leading_colon: leading, segments }, j)),
        Err(e) => Err(e),
    }
}

/// A path is read segment by segment: its segments are the names at
/// positions `s`, `s + 3`, `s + 6`, ... of `toks`, each but the last
/// followed by `::`, and the path ends after the last one.
pub proof fn lemma_path_segments_shape(toks: Seq<ArgToken>, s: int)
    ensures
        path_segments(toks, s) matches Ok((segs, j)) ==> {
            &&& segs.len() >= 1
            &&& j == s + 3 * segs.len() - 2
            &&& forall|m: int| 0 <= m < segs.len() ==> path_ident_at(toks, s + 3 * m) == Some(#[trigger] segs[m])
            &&& forall|m: int| 0 <= m < segs.len() - 1 ==> #[trigger] path_sep_at(toks, s + 3 * m + 1)
        },
    decreases toks.len() - s,
{
    match path_ident_at(toks, s) {
        Some(name) => {
            if path_sep_at(toks, s + 1) && !brace_at(toks, s + 3) {
                lemma_path_segments_shape(toks, s + 3);
                match path_segments(toks, s + 3) {
                    Ok((rest, j)) => {
                        let segs = seq![name] + rest;
                        assert forall|m: int| 0 <= m < segs.len() implies path_ident_at(toks, s + 3 * m) == Some(
                            #[trigger] segs[m],
                        ) by {
                            if m > 0 {
                                assert(segs[m] == rest[m - 1]);
                                assert(s + 3 * m == (s + 3) + 3 * (m - 1));
                            }
                        }
                        assert forall|m: int| 0 <= m < segs.len() - 1 implies #[trigger] path_sep_at(toks, s + 3 * m + 1) by {
                            if m > 0 {
                                assert(s + 3 * m + 1 == (s + 3) + 3 * (m - 1) + 1);
                            }
                        }
                    },
                    Err(_) => {},
                }
            }
        },
        None => {},
    }
}

/// A path that is read takes up at least one token.
pub proof fn lemma_path_segments_advance(toks: Seq<ArgToken>, i: int)
    ensures
        path_segments(toks, i) matches Ok((_, j)) ==> i < j <= toks.len(),
    decreases toks.len() - i,
{
    if path_ident_at(toks, i).is_some() && path_sep_at(toks, i + 1) && !brace_at(toks, i + 3) {
        lemma_path_segments_advance(toks, i + 3);
    }
}

/// A path that is read takes up at least one token.
pub proof fn lemma_path_at_advance(toks: Seq<ArgToken>, i: int)
    ensures
        path_at(toks, i) matches Ok((_, j)) ==> i < j <= toks.len(),
{
    lemma_path_segments_advance(toks, i);
    lemma_path_segments_advance(toks, i + 2);
}

/// One `key = value` argument of the `os` attribute at position `i`, applied
/// to `acc`; with the position after it.
pub open spec fn mod_arg_at(toks: Seq<ArgToken>, i: int, acc: ModArgsAcc) -> Result<(ModArgsAcc, int), ArgError> {
    match ident_at(toks, i) {
        None => Err(ArgError::ExpectedIdent),
        Some(key) => if !punct_at(toks, i + 1, '=') {
            Err(ArgError::ExpectedEq)
        } else if key == "quanta_us"@ {
            match int_at(toks, i + 2) {
                Ok((v, j)) => Ok((ModArgsAcc { quanta_us: v, ..acc }, j)),
                Err(e) => Err(e),
            }
        } else if key == "scheduler"@ {
            match path_at(toks, i + 2) {
                Ok((p, j)) => Ok((ModArgsAcc { scheduler: Some(p), ..acc }, j)),
                Err(e) => Err(e),
            }
        } else if key == "ahb_freq"@ {
            match int_at(toks, i + 2) {
                Ok((v, j)) => Ok((ModArgsAcc { ahb_freq: v, ..acc }, j)),
                Err(e) => Err(e),
            }
        } else {
            Err(ArgError::UnknownAttr)
        },
    }
}

/// An argument that is read takes up at least one token.
pub proof fn lemma_mod_arg_advance(toks: Seq<ArgToken>, i: int, acc: ModArgsAcc)
    ensures
        mod_arg_at(toks, i, acc) matches Ok((_, j)) ==> i < j <= toks.len(),
{
    lemma_path_at_advance(toks, i + 2);
}

/// The `os` arguments from position `i` on: nothing, or an argument,
/// followed, after a `,`, by the arguments from there on. With the
/// position where they end.
pub open spec fn mod_args_from(toks: Seq<ArgToken>, i: int, acc: ModArgsAcc) -> Result<(ModArgsAcc, int), ArgError>
    decreases toks.len() - i,
{
    if i >= toks.len() {
        Ok((acc, i))
    } else {
        match mod_arg_at(toks, i, acc) {
            Err(e) => Err(e),
            Ok((acc2, j)) => {
                proof {
                    lemma_mod_arg_advance(toks, i, acc);
                }
                if punct_at(toks, j, ',') {
                    mod_args_from(toks, j + 1, acc2)
                } else {
                    Ok((acc2, j))
                }
            },
        }
    }
}

/// The arguments of the `os` attribute that `toks` spells: comma-separated
/// `quanta_us = <u32>`, `scheduler = <path>` and `ahb_freq = <u32>`, in any
/// order, a later one overriding an earlier; `scheduler` is mandatory, the
/// others default to 10 000 us and 16 MHz.
pub open spec fn mod_args_spec(toks: Seq<ArgToken>) -> Result<ModArgsView, ArgError> {
    match mod_args_from(toks, 0, mod_args_initial()) {
        Err(e) => Err(e),
        Ok((acc, j)) => match acc.scheduler {
            None => Err(ArgError::SchedulerMissing),
            Some(p) => if j < toks.len() {
                Err(ArgError::UnexpectedToken)
            } else {
                Ok(ModArgsView { quanta_us: acc.quanta_us, scheduler: p, ahb_freq: acc.ahb_freq })
            },
        },
    }
}

proof fn lemma_mod_args_from_keys(toks: Seq<ArgToken>, i: int, acc: ModArgsAcc)
    requires
        0 <= i,
    ensures
        mod_args_from(toks, i, acc) matches Ok((acc2, _)) ==> {
            &&& never_names(toks, "quanta_us"@) ==> acc2.quanta_us == acc.quanta_us
            &&& never_names(toks, "ahb_freq"@) ==> acc2.ahb_freq == acc.ahb_freq
            &&& (acc.scheduler is None && acc2.scheduler is Some) ==> names_from(toks, i, "scheduler"@)
        },
    decreases toks.len() - i,
{
    if i < toks.len() {
        lemma_mod_arg_advance(toks, i, acc);
        match mod_arg_at(toks, i, acc) {
            Ok((acc2, j)) => {
                if punct_at(toks, j, ',') {
                    lemma_mod_args_from_keys(toks, j + 1, acc2);
                    if acc.scheduler is None && acc2.scheduler is Some {
                        assert(ident_at(toks, i) == Some("scheduler"@));
                    }
                    match mod_args_from(toks, j + 1, acc2) {
                        Ok((acc3, _)) => {
                            if acc.scheduler is None && acc3.scheduler is Some && acc2.scheduler is None {
                                let k = choose|k: int| j + 1 <= k < toks.len() && ident_at(toks, k) == Some("scheduler"@);
                                assert(i <= k < toks.len() && ident_at(toks, k) == Some("scheduler"@));
                            }
                        },
                        Err(_) => {},
                    }
                } else {
                    if acc.scheduler is None && acc2.scheduler is Some {
                        assert(ident_at(toks, i) == Some("scheduler"@));
                    }
                }
                if never_names(toks, "quanta_us"@) {
                    assert(ident_at(toks, i) != Some("quanta_us"@));
                }
                if never_names(toks, "ahb_freq"@) {
                    assert(ident_at(toks, i) != Some("ahb_freq"@));
                }
            },
            Err(_) => {},
        }
    }
}

/// The documented defaults of the `os` attribute: where no `quanta_us`
/// (`ahb_freq`) is given, the time slice is 10 000 us (the bus frequency
/// 16 MHz); arguments are only accepted with a `scheduler`.
pub proof fn lemma_mod_args_defaults(toks: Seq<ArgToken>)
    ensures
        mod_args_spec(toks) matches Ok(a) ==> {
            &&& never_names(toks, "quanta_us"@) ==> a.quanta_us == DEFAULT_QUANTA_US
            &&& never_names(toks, "ahb_freq"@) ==> a.ahb_freq == DEFAULT_AHB_FREQ
            &&& names_from(toks, 0, "scheduler"@)
        },
{
    lemma_mod_args_from_keys(toks, 0, mod_args_initial());
}

/// Reads the path at position `i` of `toks`.
pub fn parse_path(toks: &Vec<ArgToken>, i: usize) -> (r: Result<(SchedulerPath, usize), ArgError>)
    requires
        i <= toks.len(),
    ensures
        match r {
            Ok((p, j)) => path_at(toks@, i as int) == Ok::<(PathView, int), ArgError>((p.view(), j as int)),
            Err(e) => path_at(toks@, i as int) == Err::<(PathView, int), ArgError>(e),
        },
{
    let leading_colon = path_sep_at_exec(toks, i);
    let start: usize = if leading_colon { i + 2 } else { i };
    let mut segments: Vec<String> = Vec::new();
    let mut k: usize = start;
    loop
        invariant
            start <= k <= toks.len() + 2,
            leading_colon == path_sep_at(toks@, i as int),
            start == if leading_colon { i + 2 } else { i as int },
            match path_segments(toks@, k as int) {
                Ok((rest, j)) => path_segments(toks@, start as int) == Ok::<(Seq<Seq<char>>, int), ArgError>(
                    (segments@.map_values(|s: String| s@) + rest, j),
                ),
                Err(e) => path_segments(toks@, start as int) == Err::<(Seq<Seq<char>>, int), ArgError>(e),
            },
        decreases toks.len() + 2 - k,
    {
        let name = match path_ident_at_exec(toks, k) {
            None => return Err(ArgError::ExpectedIdent),
            Some(name) => name,
        };
        let ghost before = segments@.map_values(|s: String| s@);
        segments.push(name);
        assert(segments@.map_values(|s: String| s@) =~= before + seq![name@]);
        if k < usize::MAX && path_sep_at_exec(toks, k + 1) && !brace_at_exec(toks, k + 3) {
            proof {
                match path_segments(toks@, k + 3) {
                    Ok((rest, j)) => {
                        assert(before + (seq![name@] + rest) =~= (before + seq![name@]) + rest);
                    },
                    Err(_) => {},
                }
            }
            k = k + 3;
        } else {
            proof {
                assert(before + seq![name@] =~= segments@.map_values(|s: String| s@));
            }
            return Ok((SchedulerPath { leading_colon, segments }, k + 1));
        }
    }
}

impl ModArgs {
    /// Reads the arguments of the `os` attribute from `toks`, all of which
    /// they have to take up.
    pub fn parse(toks: &Vec<ArgToken>) -> (r: Result<ModArgs, ArgError>)
        ensures
            match r {
                Ok(args) => mod_args_spec(toks@) == Ok::<ModArgsView, ArgError>(args.view()),
                Err(e) => mod_args_spec(toks@) == Err::<ModArgsView, ArgError>(e),
            },
    {
        let mut quanta_us: u32 = DEFAULT_QUANTA_US;
        let mut ahb_freq: u32 = DEFAULT_AHB_FREQ;
        let mut scheduler: Option<SchedulerPath> = None;
        let mut i: usize = 0;
        loop
            invariant_except_break
                i <= toks.len(),
                mod_args_from(toks@, 0, mod_args_initial()) == mod_args_from(
                    toks@,
                    i as int,
                    mod_args_acc(quanta_us, &scheduler, ahb_freq),
                ),
            ensures
                i <= toks.len(),
                mod_args_from(toks@, 0, mod_args_initial()) == Ok::<(ModArgsAcc, int), ArgError>((
                    mod_args_acc(quanta_us, &scheduler, ahb_freq),
                    i as int,
                )),
            decreases toks.len() - i,
        {
            let ghost acc = mod_args_acc(quanta_us, &scheduler, ahb_freq);
            if i >= toks.len() {
                break;
            }
            let key = match ident_at_exec(toks, i) {
                None => return Err(ArgError::ExpectedIdent),
                Some(key) => key,
            };
            if !punct_at_exec(toks, i + 1, '=') {
                return Err(ArgError::ExpectedEq);
            }
            let j: usize;
            if ident_is(&key, "quanta_us") {
                match int_at_exec(toks, i + 2) {
                    Err(e) => return Err(e),
                    Ok((v, next)) => {
                        quanta_us = v;
                        j = next;
                    },
                }
            } else if ident_is(&key, "scheduler") {
                match parse_path(toks, i + 2) {
                    Err(e) => return Err(e),
                    Ok((p, next)) => {
                        scheduler = Some(p);
                        j = next;
                    },
                }
            } else if ident_is(&key, "ahb_freq") {
                match int_at_exec(toks, i + 2) {
                    Err(e) => return Err(e),
                    Ok((v, next)) => {
                        ahb_freq = v;
                        j = next;
                    },
                }
            } else {
                return Err(ArgError::UnknownAttr);
            }
            proof {
                lemma_mod_arg_advance(toks@, i as int, acc);
            }
            if punct_at_exec(toks, j, ',') {
                i = j + 1;
            } else {
                i = j;
                break;
            }
        }
        match scheduler {
            None => Err(ArgError::SchedulerMissing),
            Some(scheduler) => {
                if i < toks.len() {
                    Err(ArgError::UnexpectedToken)
                } else {
                    Ok(ModArgs { quanta_us, scheduler, ahb_freq })
                }
            },
        }
    }
}

} // verus!
