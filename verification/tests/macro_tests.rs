use chaos::macros::mod_args::ModArgs;
use chaos::macros::os::{collect_tasks, os_items, FnAttr, FnItem, OsError};
use chaos::macros::task::Task;
use chaos::macros::tokens::{parse_decimal_u32, ArgError, ArgToken};

fn id(s: &str) -> ArgToken {
    ArgToken::Ident(s.to_string())
}

fn p(c: char) -> ArgToken {
    ArgToken::Punct(c, false)
}

fn lit(s: &str) -> ArgToken {
    ArgToken::Int(s.to_string())
}

fn sep() -> Vec<ArgToken> {
    vec![ArgToken::Punct(':', true), ArgToken::Punct(':', false)]
}

fn path(segs: &[&str], leading: bool) -> Vec<ArgToken> {
    let mut v = Vec::new();
    if leading {
        v.extend(sep());
    }
    for (i, s) in segs.iter().enumerate() {
        if i > 0 {
            v.extend(sep());
        }
        v.push(id(s));
    }
    v
}

fn scheduler_arg() -> Vec<ArgToken> {
    let mut v = vec![id("scheduler"), p('=')];
    v.extend(path(&["chaos", "scheduler", "RRScheduler"], false));
    v
}

#[test]
fn decimal_parsing() {
    assert_eq!(parse_decimal_u32(&"0".to_string()), Some(0));
    assert_eq!(parse_decimal_u32(&"10000".to_string()), Some(10_000));
    assert_eq!(parse_decimal_u32(&"4294967295".to_string()), Some(u32::MAX));
    assert_eq!(parse_decimal_u32(&"4294967296".to_string()), None);
    assert_eq!(parse_decimal_u32(&"99999999999a".to_string()), None);
    assert_eq!(parse_decimal_u32(&"+5".to_string()), Some(5));
    assert_eq!(parse_decimal_u32(&"+".to_string()), None);
    assert_eq!(parse_decimal_u32(&"".to_string()), None);
    assert_eq!(parse_decimal_u32(&"1a".to_string()), None);
    assert_eq!(parse_decimal_u32(&"-1".to_string()), None);
}

#[test]
fn mod_args_defaults() {
    let args = ModArgs::parse(&scheduler_arg()).unwrap();
    assert_eq!(args.quanta_us, 10_000);
    assert_eq!(args.ahb_freq, 16_000_000);
    assert!(!args.scheduler.leading_colon);
    assert_eq!(args.scheduler.segments, vec!["chaos", "scheduler", "RRScheduler"]);
}

#[test]
fn mod_args_all_given_last_wins() {
    let mut toks = vec![id("quanta_us"), p('='), lit("5000"), p(',')];
    toks.extend(vec![id("ahb_freq"), p('='), lit("8000000"), p(',')]);
    toks.extend(vec![id("scheduler"), p('=')]);
    toks.extend(path(&["chaos", "RR"], true));
    toks.extend(vec![p(','), id("quanta_us"), p('='), lit("7"), p(',')]);
    let args = ModArgs::parse(&toks).unwrap();
    assert_eq!(args.quanta_us, 7);
    assert_eq!(args.ahb_freq, 8_000_000);
    assert!(args.scheduler.leading_colon);
    assert_eq!(args.scheduler.segments, vec!["chaos", "RR"]);
}

fn mod_err(toks: Vec<ArgToken>) -> ArgError {
    match ModArgs::parse(&toks) {
        Ok(_) => panic!("accepted"),
        Err(e) => e,
    }
}

#[test]
fn mod_args_errors() {
    assert_eq!(mod_err(vec![]), ArgError::SchedulerMissing);
    assert_eq!(mod_err(vec![id("quanta_us"), p('='), lit("1")]), ArgError::SchedulerMissing);
    assert_eq!(mod_err(vec![p('=')]), ArgError::ExpectedIdent);
    assert_eq!(mod_err(vec![id("quanta_us"), lit("1")]), ArgError::ExpectedEq);
    assert_eq!(mod_err(vec![id("quanta_us"), p('='), id("x")]), ArgError::ExpectedInt);
    assert_eq!(mod_err(vec![id("quanta_us"), p('='), lit("4294967296")]), ArgError::InvalidInt);
    assert_eq!(mod_err(vec![id("stack_size"), p('='), lit("1")]), ArgError::UnknownAttr);
    assert_eq!(mod_err(vec![id("scheduler"), p('='), lit("1")]), ArgError::ExpectedIdent);
    let mut trailing = scheduler_arg();
    trailing.push(ArgToken::Other);
    assert_eq!(mod_err(trailing), ArgError::UnexpectedToken);
    // a single ':' does not continue a path
    let mut single = scheduler_arg();
    single.push(p(':'));
    single.push(id("X"));
    assert_eq!(mod_err(single), ArgError::UnexpectedToken);
}

#[test]
fn mod_args_trailing_comma() {
    let mut toks = scheduler_arg();
    toks.push(p(','));
    assert!(ModArgs::parse(&toks).is_ok());
}

#[test]
fn task_args() {
    let toks = vec![id("stack_size"), p('='), lit("500")];
    let t = Task::parse(&toks).unwrap();
    assert_eq!(t.stack_size, 500);
    assert_eq!(t.id, None);
    assert_eq!(t.prio, 0);
    assert!(t.name.is_none());
    assert!(!t.privileged && !t.fp && !t.disabled);

    let toks = vec![
        id("privileged"), p(','), id("stack_size"), p('='), lit("64"), p(','), id("fp"), p(','),
        id("id"), p('='), lit("3"), p(','), id("prio"), p('='), lit("9"), p(','), id("disabled"),
    ];
    let t = Task::parse(&toks).unwrap();
    assert_eq!((t.stack_size, t.id, t.prio), (64, Some(3), 9));
    assert!(t.privileged && t.fp && t.disabled);
}

fn task_err(toks: Vec<ArgToken>) -> ArgError {
    match Task::parse(&toks) {
        Ok(_) => panic!("accepted"),
        Err(e) => e,
    }
}

#[test]
fn task_args_errors() {
    assert_eq!(task_err(vec![]), ArgError::StackSizeMissing);
    assert_eq!(task_err(vec![id("fp")]), ArgError::StackSizeMissing);
    assert_eq!(task_err(vec![id("stack_size"), lit("1")]), ArgError::ExpectedEq);
    assert_eq!(task_err(vec![id("stack_size"), p('='), ArgToken::Other]), ArgError::ExpectedInt);
    assert_eq!(task_err(vec![id("bogus")]), ArgError::UnknownAttr);
    assert_eq!(task_err(vec![id("stack_size"), p('='), lit("1"), id("fp")]), ArgError::UnexpectedToken);
    assert_eq!(task_err(vec![id("stack_size"), p('='), lit("1"), p(','), p(',')]), ArgError::ExpectedIdent);
}

fn task_attr(toks: Vec<ArgToken>) -> FnAttr {
    FnAttr::Task(Some(toks))
}

fn f(name: &str, attrs: Vec<FnAttr>) -> FnItem {
    FnItem { name: name.to_string(), returns_unit: true, attrs }
}

#[test]
fn collects_tasks_and_init() {
    let fns = vec![
        f("task0", vec![FnAttr::Other, task_attr(vec![id("stack_size"), p('='), lit("500")])]),
        f("task1", vec![task_attr(vec![id("stack_size"), p('='), lit("300")]), FnAttr::Other]),
        f("setup", vec![FnAttr::Init]),
    ];
    let items = collect_tasks(&fns).unwrap();
    assert_eq!(items.tasks.len(), 2);
    assert_eq!(items.tasks[0].name.as_deref(), Some("task0"));
    assert_eq!(items.tasks[1].name.as_deref(), Some("task1"));
    // ids are counted per function
    assert_eq!(items.tasks[0].id, Some(0));
    assert_eq!(items.tasks[1].id, Some(0));
    assert_eq!(items.tasks[1].stack_size, 300);
    assert_eq!(items.init_function.as_deref(), Some("setup"));
    assert_eq!(items.kept_attrs, vec![vec![0], vec![1], vec![]]);
}

#[test]
fn automatic_ids_within_a_function() {
    let a = vec![id("stack_size"), p('='), lit("1")];
    let b = vec![id("stack_size"), p('='), lit("2")];
    let items = collect_tasks(&vec![f("t", vec![task_attr(a), task_attr(b)])]).unwrap();
    assert_eq!(items.tasks[0].id, Some(0));
    assert_eq!(items.tasks[1].id, Some(1));
}

fn os_err(fns: Vec<FnItem>) -> OsError {
    match collect_tasks(&fns) {
        Ok(_) => panic!("accepted"),
        Err(e) => e,
    }
}

#[test]
fn collection_errors() {
    let auto = vec![id("stack_size"), p('='), lit("1")];
    let given = vec![id("stack_size"), p('='), lit("1"), p(','), id("id"), p('='), lit("4")];
    assert_eq!(os_err(vec![f("t", vec![task_attr(auto.clone_tokens()), task_attr(given.clone_tokens())])]), OsError::MixedIds);
    assert_eq!(os_err(vec![f("t", vec![task_attr(given.clone_tokens()), task_attr(auto.clone_tokens())])]), OsError::MixedIds);
    assert_eq!(os_err(vec![f("a", vec![FnAttr::Init]), f("b", vec![FnAttr::Init])]), OsError::DuplicateInit);
    assert_eq!(
        os_err(vec![FnItem { name: "a".to_string(), returns_unit: false, attrs: vec![FnAttr::Init] }]),
        OsError::InitReturnsValue
    );
    assert_eq!(os_err(vec![f("t", vec![FnAttr::Task(None)])]), OsError::Args(ArgError::ExpectedParens));
    assert_eq!(os_err(vec![f("t", vec![task_attr(vec![])])]), OsError::Args(ArgError::StackSizeMissing));
}

#[test]
fn ids_given_in_one_function_and_not_another() {
    let given = vec![id("stack_size"), p('='), lit("1"), p(','), id("id"), p('='), lit("4")];
    let auto = vec![id("stack_size"), p('='), lit("1")];
    let items = collect_tasks(&vec![f("a", vec![task_attr(given)]), f("b", vec![task_attr(auto)])]).unwrap();
    assert_eq!(items.tasks[0].id, Some(4));
    assert_eq!(items.tasks[1].id, Some(0));
}

#[test]
fn os_reads_arguments_first() {
    let fns = vec![f("a", vec![FnAttr::Init]), f("b", vec![FnAttr::Init])];
    match os_items(&vec![], &fns) {
        Err(e) => assert_eq!(e, OsError::Args(ArgError::SchedulerMissing)),
        Ok(_) => panic!("accepted"),
    }
    match os_items(&scheduler_arg(), &vec![f("a", vec![FnAttr::Init])]) {
        Ok((args, items)) => {
            assert_eq!(args.quanta_us, 10_000);
            assert_eq!(items.init_function.as_deref(), Some("a"));
        },
        Err(e) => panic!("refused {:?}", e),
    }
}

trait CloneTokens {
    fn clone_tokens(&self) -> Vec<ArgToken>;
}

impl CloneTokens for Vec<ArgToken> {
    fn clone_tokens(&self) -> Vec<ArgToken> {
        self.iter()
            .map(|t| match t {
                ArgToken::Ident(s) => ArgToken::Ident(s.clone()),
                ArgToken::Punct(c, j) => ArgToken::Punct(*c, *j),
                ArgToken::Int(s) => ArgToken::Int(s.clone()),
                ArgToken::BraceGroup => ArgToken::BraceGroup,
                ArgToken::Other => ArgToken::Other,
            })
            .collect()
    }
}

#[test]
fn stack_name_upper_cases_the_function_name() {
    let toks = vec![id("stack_size"), p('='), lit("500")];
    let mut t = Task::parse(&toks).unwrap();
    t.name = Some("task0_Main".to_string());
    let name: String = t.stack_name().into_iter().collect();
    assert_eq!(name, "__TASK0_MAIN_STACK");
}

#[test]
fn keywords_are_not_identifiers() {
    // a keyword where a key is expected
    assert_eq!(task_err(vec![id("fn")]), ArgError::ExpectedIdent);
    assert_eq!(mod_err(vec![id("type"), p('='), lit("1")]), ArgError::ExpectedIdent);
    // `crate`, `self`, `super` and `Self` may stand in a path, other keywords not
    let mut toks = vec![id("scheduler"), p('=')];
    toks.extend(path(&["crate", "scheduler", "RRScheduler"], false));
    let args = ModArgs::parse(&toks).unwrap();
    assert_eq!(args.scheduler.segments, vec!["crate", "scheduler", "RRScheduler"]);
    let mut toks = vec![id("scheduler"), p('=')];
    toks.extend(path(&["chaos", "fn"], false));
    assert_eq!(mod_err(toks), ArgError::ExpectedIdent);
}

#[test]
fn path_stops_before_brace_group() {
    let mut toks = vec![id("scheduler"), p('=')];
    toks.extend(path(&["chaos"], false));
    toks.extend(sep());
    toks.push(ArgToken::BraceGroup);
    // the path ends at `chaos`; the `::{..}` that follows is left over
    assert_eq!(mod_err(toks), ArgError::UnexpectedToken);
}

#[test]
fn argument_order_does_not_matter() {
    let quanta = vec![id("quanta_us"), p('='), lit("2500")];
    let ahb = vec![id("ahb_freq"), p('='), lit("8000000")];
    let sched = scheduler_arg();
    let join = |parts: Vec<Vec<ArgToken>>| {
        let mut v = Vec::new();
        for (i, part) in parts.into_iter().enumerate() {
            if i > 0 {
                v.push(p(','));
            }
            v.extend(part);
        }
        v
    };
    let a = ModArgs::parse(&join(vec![quanta.clone_tokens(), sched.clone_tokens(), ahb.clone_tokens()])).unwrap();
    let b = ModArgs::parse(&join(vec![ahb.clone_tokens(), quanta.clone_tokens(), sched.clone_tokens()])).unwrap();
    assert_eq!((a.quanta_us, a.ahb_freq), (b.quanta_us, b.ahb_freq));
    assert_eq!((a.quanta_us, a.ahb_freq), (2500, 8_000_000));
    assert_eq!(a.scheduler.segments, b.scheduler.segments);
    assert_eq!(a.scheduler.leading_colon, b.scheduler.leading_colon);
}
