//! The decision layer: what each subcommand does to the config list, whether
//! the file must be written back, and which multiplexer actions to perform.
//! Performing the actions (subprocesses, signals) is the caller's business;
//! everything decided here is pure.

use vstd::prelude::*;
use crate::record::{Command, RecordV, copy_record, copy_text};
use crate::store::{spec_add, spec_remove, spec_find, remove, lemma_find_found};

verus! {

/// One action against the live multiplexer, in the order to perform them.
#[derive(Debug, PartialEq, Eq)]
pub enum Step {
    /// Create the window for this record if it is not already alive.
    Create(Command),
    /// Kill the window of this name outright.
    Close(Vec<char>),
    /// Send a graceful termination signal to every pid under this window name.
    Signal(Vec<char>),
    /// Print the name if the window has at least one live pid.
    Check(Vec<char>),
    /// Print the record itself.
    Show(Command),
}

#[verifier::ext_equal]
pub enum StepV {
    Create(RecordV),
    Close(Seq<char>),
    Signal(Seq<char>),
    Check(Seq<char>),
    Show(RecordV),
}

impl View for Step {
    type V = StepV;

    open spec fn view(&self) -> StepV {
        match self {
            Step::Create(c) => StepV::Create(c@),
            Step::Close(n) => StepV::Close(n@),
            Step::Signal(n) => StepV::Signal(n@),
            Step::Check(n) => StepV::Check(n@),
            Step::Show(c) => StepV::Show(c@),
        }
    }
}

impl DeepView for Step {
    type V = StepV;

    open spec fn deep_view(&self) -> StepV {
        self.view()
    }
}

/// A parsed subcommand, carrying plain values only.
pub enum Commands {
    Startup,
    Start { command: Vec<char> },
    Add { command: Command, overwrite: bool },
    Remove { name: Vec<char> },
    Stop { all: bool, force: bool, name: Option<Vec<char>> },
    List,
    CheckRunning { all: bool, name: Option<Vec<char>> },
}

/// What one invocation decided: the config list afterwards, whether it must
/// be persisted, the multiplexer actions to perform in order, and the name
/// of a rejected duplicate, if any.
pub struct Outcome {
    pub config: Vec<Command>,
    pub modified: bool,
    pub steps: Vec<Step>,
    pub conflict: Option<Vec<char>>,
}

pub open spec fn spec_startup_steps(l: Seq<RecordV>) -> Seq<StepV> {
    l.filter(|r: RecordV| r.startup).map_values(|r: RecordV| StepV::Create(r))
}

pub open spec fn spec_start_steps(l: Seq<RecordV>, n: Seq<char>) -> Seq<StepV> {
    l.filter(|r: RecordV| r.name == n).map_values(|r: RecordV| StepV::Create(r))
}

pub open spec fn spec_stop_steps(l: Seq<RecordV>, force: bool) -> Seq<StepV> {
    l.map_values(
        |r: RecordV|
            if force {
                StepV::Close(r.name)
            } else {
                StepV::Signal(r.name)
            },
    )
}

pub open spec fn spec_check_steps(l: Seq<RecordV>) -> Seq<StepV> {
    l.map_values(|r: RecordV| StepV::Check(r.name))
}

pub open spec fn spec_show_steps(l: Seq<RecordV>) -> Seq<StepV> {
    l.map_values(|r: RecordV| StepV::Show(r))
}

fn startup_steps(config: &Vec<Command>) -> (r: Vec<Step>)
    ensures
        r.deep_view() == spec_startup_steps(config.deep_view()),
{
    let ghost dv = config.deep_view();
    let ghost pred = |rv: RecordV| rv.startup;
    let mut out: Vec<Step> = Vec::new();
    let mut i: usize = 0;
    proof {
        assert(dv.take(0).filter(pred) =~= Seq::<RecordV>::empty()) by {
            reveal(Seq::filter);
        }
        assert(out.deep_view() =~= spec_startup_steps(dv.take(0)));
    }
    while i < config.len()
        invariant
            i <= config@.len(),
            dv == config.deep_view(),
            dv.len() == config@.len(),
            pred == (|rv: RecordV| rv.startup),
            out.deep_view() == spec_startup_steps(dv.take(i as int)),
        decreases config@.len() - i,
    {
        let ghost prev = out.deep_view();
        proof {
            reveal(Seq::filter);
            assert(dv[i as int] == config@[i as int]@);
            assert(dv.take(i + 1).drop_last() =~= dv.take(i as int));
            assert(dv.take(i + 1).last() == dv[i as int]);
            assert(dv.take(i + 1).filter(pred) == if pred(dv[i as int]) {
                dv.take(i as int).filter(pred).push(dv[i as int])
            } else {
                dv.take(i as int).filter(pred)
            });
        }
        if config[i].startup {
            let c = copy_record(&config[i]);
            out.push(Step::Create(c));
            proof {
                assert(out.deep_view() =~= prev.push(StepV::Create(dv[i as int])));
                assert(spec_startup_steps(dv.take(i + 1)) =~= prev.push(
                    StepV::Create(dv[i as int]),
                ));
            }
        } else {
            proof {
                assert(spec_startup_steps(dv.take(i + 1)) =~= prev);
            }
        }
        i = i + 1;
    }
    proof {
        assert(dv.take(dv.len() as int) =~= dv);
    }
    out
}

fn start_steps(config: &Vec<Command>, name: &Vec<char>) -> (r: Vec<Step>)
    ensures
        r.deep_view() == spec_start_steps(config.deep_view(), name@),
{
    let ghost dv = config.deep_view();
    let ghost pred = |rv: RecordV| rv.name == name@;
    let mut out: Vec<Step> = Vec::new();
    let mut i: usize = 0;
    proof {
        assert(dv.take(0).filter(pred) =~= Seq::<RecordV>::empty()) by {
            reveal(Seq::filter);
        }
        assert(out.deep_view() =~= spec_start_steps(dv.take(0), name@));
    }
    while i < config.len()
        invariant
            i <= config@.len(),
            dv == config.deep_view(),
            dv.len() == config@.len(),
            pred == (|rv: RecordV| rv.name == name@),
            out.deep_view() == spec_start_steps(dv.take(i as int), name@),
        decreases config@.len() - i,
    {
        let ghost prev = out.deep_view();
        proof {
            reveal(Seq::filter);
            assert(dv[i as int] == config@[i as int]@);
            assert(dv.take(i + 1).drop_last() =~= dv.take(i as int));
            assert(dv.take(i + 1).last() == dv[i as int]);
            assert(dv.take(i + 1).filter(pred) == if pred(dv[i as int]) {
                dv.take(i as int).filter(pred).push(dv[i as int])
            } else {
                dv.take(i as int).filter(pred)
            });
        }
        if crate::record::text_eq(&config[i].name, name) {
            let c = copy_record(&config[i]);
            out.push(Step::Create(c));
            proof {
                assert(out.deep_view() =~= prev.push(StepV::Create(dv[i as int])));
                assert(spec_start_steps(dv.take(i + 1), name@) =~= prev.push(
                    StepV::Create(dv[i as int]),
                ));
            }
        } else {
            proof {
                assert(spec_start_steps(dv.take(i + 1), name@) =~= prev);
            }
        }
        i = i + 1;
    }
    proof {
        assert(dv.take(dv.len() as int) =~= dv);
    }
    out
}

fn stop_steps(config: &Vec<Command>, force: bool) -> (r: Vec<Step>)
    ensures
        r.deep_view() == spec_stop_steps(config.deep_view(), force),
{
    let ghost dv = config.deep_view();
    let mut out: Vec<Step> = Vec::new();
    let mut i: usize = 0;
    proof {
        assert(out.deep_view() =~= spec_stop_steps(dv.take(0), force));
    }
    while i < config.len()
        invariant
            i <= config@.len(),
            dv == config.deep_view(),
            dv.len() == config@.len(),
            out.deep_view() == spec_stop_steps(dv.take(i as int), force),
        decreases config@.len() - i,
    {
        let ghost prev = out.deep_view();
        let n = copy_text(&config[i].name);
        if force {
            out.push(Step::Close(n));
        } else {
            out.push(Step::Signal(n));
        }
        proof {
            assert(dv[i as int] == config@[i as int]@);
            assert(out.deep_view() =~= prev.push(
                if force {
                    StepV::Close(dv[i as int].name)
                } else {
                    StepV::Signal(dv[i as int].name)
                },
            ));
            assert(out.deep_view() =~= spec_stop_steps(dv.take(i + 1), force));
        }
        i = i + 1;
    }
    proof {
        assert(dv.take(dv.len() as int) =~= dv);
    }
    out
}

fn check_steps(config: &Vec<Command>) -> (r: Vec<Step>)
    ensures
        r.deep_view() == spec_check_steps(config.deep_view()),
{
    let ghost dv = config.deep_view();
    let mut out: Vec<Step> = Vec::new();
    let mut i: usize = 0;
    proof {
        assert(out.deep_view() =~= spec_check_steps(dv.take(0)));
    }
    while i < config.len()
        invariant
            i <= config@.len(),
            dv == config.deep_view(),
            dv.len() == config@.len(),
            out.deep_view() == spec_check_steps(dv.take(i as int)),
        decreases config@.len() - i,
    {
        let ghost prev = out.deep_view();
        let n = copy_text(&config[i].name);
        out.push(Step::Check(n));
        proof {
            assert(dv[i as int] == config@[i as int]@);
            assert(out.deep_view() =~= prev.push(StepV::Check(dv[i as int].name)));
            assert(out.deep_view() =~= spec_check_steps(dv.take(i + 1)));
        }
        i = i + 1;
    }
    proof {
        assert(dv.take(dv.len() as int) =~= dv);
    }
    out
}

fn show_steps(config: &Vec<Command>) -> (r: Vec<Step>)
    ensures
        r.deep_view() == spec_show_steps(config.deep_view()),
{
    let ghost dv = config.deep_view();
    let mut out: Vec<Step> = Vec::new();
    let mut i: usize = 0;
    proof {
        assert(out.deep_view() =~= spec_show_steps(dv.take(0)));
    }
    while i < config.len()
        invariant
            i <= config@.len(),
            dv == config.deep_view(),
            dv.len() == config@.len(),
            out.deep_view() == spec_show_steps(dv.take(i as int)),
        decreases config@.len() - i,
    {
        let ghost prev = out.deep_view();
        let c = copy_record(&config[i]);
        out.push(Step::Show(c));
        proof {
            assert(dv[i as int] == config@[i as int]@);
            assert(out.deep_view() =~= prev.push(StepV::Show(dv[i as int])));
            assert(out.deep_view() =~= spec_show_steps(dv.take(i + 1)));
        }
        i = i + 1;
    }
    proof {
        assert(dv.take(dv.len() as int) =~= dv);
    }
    out
}

/// Map a subcommand and the loaded config list to everything this invocation
/// must do. Only `Add` and `Remove` touch the list; `Remove` always reports
/// a mutation, even when nothing matched. A rejected duplicate add leaves the
/// list untouched and names the offender in `conflict`.
pub fn dispatch(cmd: &Commands, config: Vec<Command>) -> (out: Outcome)
    ensures
        ({
            let cdv = config.deep_view();
            match cmd {
                Commands::Startup => out.config.deep_view() == cdv && !out.modified
                    && out.conflict is None && out.steps.deep_view() == spec_startup_steps(cdv),
                Commands::Start { command } => out.config.deep_view() == cdv && !out.modified
                    && out.conflict is None && out.steps.deep_view() == spec_start_steps(
                    cdv,
                    command@,
                ),
                Commands::Add { command, overwrite } => ({
                    let (nl, changed) = spec_add(cdv, command@, *overwrite);
                    out.config.deep_view() == nl && out.modified == changed && out.steps@.len()
                        == 0 && (if changed {
                        out.conflict is None
                    } else {
                        out.conflict matches Some(n) && n@ == command@.name
                    })
                }),
                Commands::Remove { name } => out.config.deep_view() == spec_remove(cdv, name@)
                    && out.modified && out.conflict is None && out.steps@.len() == 0,
                Commands::Stop { all, force, name } => out.config.deep_view() == cdv
                    && !out.modified && out.conflict is None && out.steps.deep_view() == (
                if *all {
                    spec_stop_steps(cdv, *force)
                } else {
                    match name {
                        Some(n) => seq![
                            if *force {
                                StepV::Close(n@)
                            } else {
                                StepV::Signal(n@)
                            },
                        ],
                        None => Seq::<StepV>::empty(),
                    }
                }),
                Commands::List => out.config.deep_view() == cdv && !out.modified
                    && out.conflict is None && out.steps.deep_view() == spec_show_steps(cdv),
                Commands::CheckRunning { all, name } => out.config.deep_view() == cdv
                    && !out.modified && out.conflict is None && out.steps.deep_view() == (
                if *all {
                    spec_check_steps(cdv)
                } else {
                    match name {
                        Some(n) => seq![StepV::Check(n@)],
                        None => Seq::<StepV>::empty(),
                    }
                }),
            }
        }),
{
    let ghost cdv = config.deep_view();
    match cmd {
        Commands::Startup => {
            let steps = startup_steps(&config);
            Outcome { config, modified: false, steps, conflict: None }
        },
        Commands::Start { command } => {
            let steps = start_steps(&config, command);
            Outcome { config, modified: false, steps, conflict: None }
        },
        Commands::Add { command, overwrite } => {
            let mut cfg = config;
            let rec = copy_record(command);
            let ok = crate::store::add(&mut cfg, rec, *overwrite);
            let conflict = if ok {
                None
            } else {
                Some(copy_text(&command.name))
            };
            Outcome { config: cfg, modified: ok, steps: Vec::new(), conflict }
        },
        Commands::Remove { name } => {
            let mut cfg = config;
            remove(&mut cfg, name);
            Outcome { config: cfg, modified: true, steps: Vec::new(), conflict: None }
        },
        Commands::Stop { all, force, name } => {
            let steps = if *all {
                stop_steps(&config, *force)
            } else {
                let mut one: Vec<Step> = Vec::new();
                match name {
                    Some(n) => {
                        let nc = copy_text(n);
                        if *force {
                            one.push(Step::Close(nc));
                        } else {
                            one.push(Step::Signal(nc));
                        }
                        proof {
                            assert(one.deep_view() =~= seq![
                                if *force {
                                    StepV::Close(n@)
                                } else {
                                    StepV::Signal(n@)
                                },
                            ]);
                        }
                    },
                    None => {
                        proof {
                            assert(one.deep_view() =~= Seq::<StepV>::empty());
                        }
                    },
                }
                one
            };
            Outcome { config, modified: false, steps, conflict: None }
        },
        Commands::List => {
            let steps = show_steps(&config);
            Outcome { config, modified: false, steps, conflict: None }
        },
        Commands::CheckRunning { all, name } => {
            let steps = if *all {
                check_steps(&config)
            } else {
                let mut one: Vec<Step> = Vec::new();
                match name {
                    Some(n) => {
                        let nc = copy_text(n);
                        one.push(Step::Check(nc));
                        proof {
                            assert(one.deep_view() =~= seq![StepV::Check(n@)]);
                        }
                    },
                    None => {
                        proof {
                            assert(one.deep_view() =~= Seq::<StepV>::empty());
                        }
                    },
                }
                one
            };
            Outcome { config, modified: false, steps, conflict: None }
        },
    }
}

proof fn lemma_filter_none(l: Seq<RecordV>, pred: spec_fn(RecordV) -> bool)
    requires
        forall|i: int| 0 <= i < l.len() ==> !pred(#[trigger] l[i]),
    ensures
        l.filter(pred) == Seq::<RecordV>::empty(),
    decreases l.len(),
{
    reveal(Seq::filter);
    if l.len() > 0 {
        assert(forall|i: int|
            0 <= i < l.drop_last().len() ==> !pred(#[trigger] l.drop_last()[i]));
        lemma_filter_none(l.drop_last(), pred);
        assert(!pred(l.last()));
    }
}

proof fn lemma_filter_single(l: Seq<RecordV>, pred: spec_fn(RecordV) -> bool, k: int)
    requires
        0 <= k < l.len(),
        pred(l[k]),
        forall|i: int| 0 <= i < l.len() && i != k ==> !pred(#[trigger] l[i]),
    ensures
        l.filter(pred) == seq![l[k]],
    decreases l.len(),
{
    reveal(Seq::filter);
    if k == l.len() - 1 {
        assert(forall|i: int|
            0 <= i < l.drop_last().len() ==> !pred(#[trigger] l.drop_last()[i]));
        lemma_filter_none(l.drop_last(), pred);
        assert(pred(l.last()));
        assert(l.filter(pred) =~= seq![l[k]]);
    } else {
        assert(forall|i: int|
            0 <= i < l.drop_last().len() && i != k ==> !pred(#[trigger] l.drop_last()[i]));
        assert(l.drop_last()[k] == l[k]);
        lemma_filter_single(l.drop_last(), pred, k);
        assert(!pred(l.last()));
        assert(l.filter(pred) =~= seq![l[k]]);
    }
}

/// After an overwriting add replaces the one record carrying `r.name` — the
/// name is unique in a stored list — starting that name creates exactly one
/// window, with the replacing record's fields.
pub proof fn lemma_overwrite_then_start_creates_once(c: Seq<RecordV>, r: RecordV)
    requires
        exists|i: int| 0 <= i < c.len() && (#[trigger] c[i]).name == r.name,
        forall|i: int, j: int|
            0 <= i < c.len() && 0 <= j < c.len() && (#[trigger] c[i]).name == r.name && (
            #[trigger] c[j]).name == r.name ==> i == j,
    ensures
        ({
            let (c1, changed) = spec_add(c, r, true);
            changed && spec_start_steps(c1, r.name) == seq![StepV::Create(r)]
        }),
{
    lemma_find_found(c, r.name);
    let k = spec_find(c, r.name);
    assert(0 <= k < c.len() && c[k].name == r.name);
    let (c1, changed) = spec_add(c, r, true);
    assert(c1 == c.update(k, r));
    let pred = |rv: RecordV| rv.name == r.name;
    assert(pred(c1[k]));
    assert(forall|i: int| 0 <= i < c1.len() && i != k ==> !pred(#[trigger] c1[i])) by {
        assert(forall|i: int|
            0 <= i < c1.len() && i != k && (#[trigger] c1[i]).name == r.name ==> (c[i].name
                == r.name && c[k].name == r.name && i == k));
    }
    lemma_filter_single(c1, pred, k);
    assert(c1[k] == r);
    assert(spec_start_steps(c1, r.name) =~= seq![StepV::Create(r)]);
}

/// The command line to hand the multiplexer for one window creation.
#[derive(Debug, PartialEq, Eq)]
pub enum CreateAction {
    /// `new-session -ds <session> <command> ; rename-window <name>`
    NewSession { session: Vec<char>, command: Vec<char>, name: Vec<char> },
    /// `new-window -dt <session> -n <name> <command>`
    NewWindow { session: Vec<char>, name: Vec<char>, command: Vec<char> },
}

/// Decide window creation from the live state: nothing when the window
/// already has a live process (so repeating the operation on an alive window
/// is a no-op), a fresh detached session whose first window is renamed when
/// the target session is absent, and a new detached window inside the
/// session when it is running.
pub fn create_window_action(rec: &Command, live_pids: &Vec<i32>, session_running: bool) -> (r:
    Option<CreateAction>)
    ensures
        match r {
            None => live_pids@.len() > 0,
            Some(a) => live_pids@.len() == 0 && match a {
                CreateAction::NewSession { session, command, name } => !session_running
                    && session@ == rec@.session && command@ == rec@.command && name@ == rec@.name,
                CreateAction::NewWindow { session, name, command } => session_running && session@
                    == rec@.session && name@ == rec@.name && command@ == rec@.command,
            },
        },
{
    if live_pids.len() > 0 {
        return None;
    }
    if !session_running {
        Some(
            CreateAction::NewSession {
                session: copy_text(&rec.session),
                command: copy_text(&rec.command),
                name: copy_text(&rec.name),
            },
        )
    } else {
        Some(
            CreateAction::NewWindow {
                session: copy_text(&rec.session),
                name: copy_text(&rec.name),
                command: copy_text(&rec.command),
            },
        )
    }
}

} // verus!
