//! The conversion pipeline as a state machine. The library decides; the
//! caller does the outside work that each request names (asking the model
//! for a translation, probing for cargo, writing the project and running
//! `cargo check`) and hands back how it went.
//!
//!   1. The C# units are extracted and ordered: types before methods.
//!   2. Each unit is translated in turn, with the signatures of the earlier
//!      translations as context.
//!   3. When cargo is available, the assembled project is checked; after a
//!      failed check every unit is translated again, with the errors and
//!      the unit's current Rust as feedback, up to `MAX_REPAIRS` times.
//!   4. The result is the assembled module, or a comment that reports the
//!      error that stopped the pipeline.
use vstd::prelude::*;
use vstd::utf8::encode_utf8;
use vstd::string::StringSliceAdditionalSpecFns;
use crate::cargo_project::{main_rs_source, main_rs_text};
use crate::converter::{
    extract_rust_signatures, failure_comment, failure_text, module_body, rust_module_body,
    rust_signatures,
};
use crate::extractor::{
    extracted_from, sort_units, stably_sorted, unit_views, CSharpExtractor, Unit, UnitView,
};
use crate::text::views;

verus! {

/// The number of repair rounds after failed checks: `cargo check` runs at
/// most `MAX_REPAIRS + 1` times.
pub const MAX_REPAIRS: usize = 3;

/// Where the pipeline stands.
#[derive(PartialEq, Eq, Structural)]
pub enum Stage {
    /// Waiting for the translation of the next unit.
    Translating,
    /// Waiting to learn whether cargo is installed.
    Probing,
    /// Waiting for the outcome of writing and checking the project.
    Checking,
    /// Finished.
    Done,
}

/// A progress report, as the web UI shows it.
pub enum Progress {
    /// The units found, in translation order: name and kind of each.
    Extracted { units: Vec<(String, String)> },
    /// A unit was translated (on the first pass) into this many bytes of
    /// Rust, adding this many signatures to the symbol table.
    Translated { name: String, chars: usize, signatures: usize },
    /// All units are translated; the project is being assembled.
    Assembling,
    /// A `cargo check` ran; `last` says, when it failed, whether it was the
    /// last one allowed.
    Checked { ok: bool, attempt: usize, last: Option<bool> },
    /// cargo is not installed: the check is skipped.
    CheckSkipped,
    /// The pipeline stopped on this error.
    Failed { message: String },
}

/// The outside work the pipeline asks for next.
pub enum Request {
    /// Translate one C# unit, given the signatures translated so far in this
    /// pass and, on a repair pass, the compiler errors to fix and the unit's
    /// current Rust.
    Translate {
        source: String,
        known_signatures: Vec<String>,
        prior_errors: Option<String>,
        prior_rust: Option<String>,
    },
    /// Find out whether cargo is installed.
    ProbeCargo,
    /// Write the project (`CARGO_TOML` and this `src/main.rs`) and run
    /// `cargo check` on it.
    Check { main_rs: String },
    /// The pipeline is over; this is its output.
    Finish { output: String },
}

/// How the requested work went.
pub enum Outcome {
    /// The translation, or the error that stopped it.
    Translated(Result<String, String>),
    /// Whether cargo is installed.
    CargoAvailable(bool),
    /// The project could not be written, for this reason.
    WriteFailed(String),
    /// `cargo check` ran: whether it passed, and its errors.
    Checked { ok: bool, errors: String },
}

/// An outcome, as values.
pub enum OutcomeView {
    Translated(Result<Seq<char>, Seq<char>>),
    CargoAvailable(bool),
    WriteFailed(Seq<char>),
    Checked { ok: bool, errors: Seq<char> },
}

impl View for Outcome {
    type V = OutcomeView;

    open spec fn view(&self) -> OutcomeView {
        match self {
            Outcome::Translated(Ok(r)) => OutcomeView::Translated(Ok(r@)),
            Outcome::Translated(Err(e)) => OutcomeView::Translated(Err(e@)),
            Outcome::CargoAvailable(b) => OutcomeView::CargoAvailable(*b),
            Outcome::WriteFailed(m) => OutcomeView::WriteFailed(m@),
            Outcome::Checked { ok, errors } => OutcomeView::Checked { ok: *ok, errors: errors@ },
        }
    }
}

/// A progress report, as values.
pub enum ProgressView {
    Extracted { units: Seq<(Seq<char>, Seq<char>)> },
    Translated { name: Seq<char>, chars: usize, signatures: nat },
    Assembling,
    Checked { ok: bool, attempt: nat, last: Option<bool> },
    CheckSkipped,
    Failed { message: Seq<char> },
}

impl View for Progress {
    type V = ProgressView;

    open spec fn view(&self) -> ProgressView {
        match self {
            Progress::Extracted { units } => ProgressView::Extracted {
                units: units@.map_values(|p: (String, String)| (p.0@, p.1@)),
            },
            Progress::Translated { name, chars, signatures } => ProgressView::Translated {
                name: name@,
                chars: *chars,
                signatures: *signatures as nat,
            },
            Progress::Assembling => ProgressView::Assembling,
            Progress::Checked { ok, attempt, last } => ProgressView::Checked {
                ok: *ok,
                attempt: *attempt as nat,
                last: *last,
            },
            Progress::CheckSkipped => ProgressView::CheckSkipped,
            Progress::Failed { message } => ProgressView::Failed { message: message@ },
        }
    }
}

/// The views of a list of progress reports.
pub open spec fn progress_views(ps: Seq<Progress>) -> Seq<ProgressView> {
    ps.map_values(|p: Progress| p@)
}

/// What the pipeline holds, as values.
pub struct MigrationView {
    /// The units, in translation order.
    pub units: Seq<UnitView>,
    /// The translations of the last complete pass.
    pub done: Seq<Seq<char>>,
    /// The translations of the pass in progress.
    pub pass: Seq<Seq<char>>,
    /// The running symbol table of the pass in progress.
    pub sigs: Seq<Seq<char>>,
    /// On a repair pass, the compiler errors being fixed.
    pub errors: Option<Seq<char>>,
    /// The number of `cargo check` runs so far.
    pub checks: nat,
    pub stage: Stage,
    /// Once finished, the output.
    pub output: Seq<char>,
}

/// The signatures of a list of translations, in order: the symbol table
/// built from them.
pub open spec fn signatures_of(pass: Seq<Seq<char>>) -> Seq<Seq<char>>
    decreases pass.len(),
{
    if pass.len() == 0 {
        seq![]
    } else {
        signatures_of(pass.drop_last()) + rust_signatures(pass.last())
    }
}

/// The state after `o` answers the request of state `v`.
pub open spec fn next_state(v: MigrationView, o: OutcomeView) -> MigrationView {
    match o {
        OutcomeView::Translated(Ok(r)) => {
            let pass = v.pass.push(r);
            if pass.len() < v.units.len() {
                MigrationView { pass, sigs: v.sigs + rust_signatures(r), ..v }
            } else if v.errors is None {
                MigrationView { done: pass, pass: seq![], sigs: seq![], stage: Stage::Probing, ..v }
            } else {
                MigrationView {
                    done: pass,
                    pass: seq![],
                    sigs: seq![],
                    stage: Stage::Checking,
                    ..v
                }
            }
        },
        OutcomeView::Translated(Err(e)) => MigrationView {
            stage: Stage::Done,
            output: failure_text(e),
            ..v
        },
        OutcomeView::CargoAvailable(available) => if available {
            MigrationView { stage: Stage::Checking, ..v }
        } else {
            MigrationView { stage: Stage::Done, output: module_body(v.done), ..v }
        },
        OutcomeView::WriteFailed(m) => MigrationView {
            stage: Stage::Done,
            output: failure_text("writing cargo project: "@ + m),
            ..v
        },
        OutcomeView::Checked { ok, errors } => {
            let n = v.checks + 1;
            if ok || n == MAX_REPAIRS + 1 {
                MigrationView { checks: n, stage: Stage::Done, output: module_body(v.done), ..v }
            } else if v.units.len() == 0 {
                MigrationView { checks: n, errors: Some(errors), stage: Stage::Checking, ..v }
            } else {
                MigrationView {
                    checks: n,
                    errors: Some(errors),
                    pass: seq![],
                    sigs: seq![],
                    stage: Stage::Translating,
                    ..v
                }
            }
        },
    }
}

/// The progress reports of the step from state `v` on outcome `o`.
pub open spec fn progress_of(v: MigrationView, o: OutcomeView) -> Seq<ProgressView> {
    match o {
        OutcomeView::Translated(Ok(r)) => {
            let reported = if v.errors is None {
                seq![
                    ProgressView::Translated {
                        name: v.units[v.pass.len() as int].name,
                        chars: encode_utf8(r).len() as usize,
                        signatures: rust_signatures(r).len(),
                    },
                ]
            } else {
                seq![]
            };
            if v.pass.len() + 1 == v.units.len() && v.errors is None {
                reported.push(ProgressView::Assembling)
            } else {
                reported
            }
        },
        OutcomeView::Translated(Err(e)) => seq![ProgressView::Failed { message: e }],
        OutcomeView::CargoAvailable(available) => if available {
            seq![]
        } else {
            seq![ProgressView::CheckSkipped]
        },
        OutcomeView::WriteFailed(m) => seq![
            ProgressView::Failed { message: "writing cargo project: "@ + m },
        ],
        OutcomeView::Checked { ok, errors } => seq![
            ProgressView::Checked {
                ok,
                attempt: v.checks + 1,
                last: if ok {
                    None
                } else {
                    Some(v.checks + 1 == MAX_REPAIRS + 1)
                },
            },
        ],
    }
}

/// The request a state makes: the next unit to translate, the probe for
/// cargo, the check of the assembled project, or the output.
pub open spec fn request_of(v: MigrationView, r: Request) -> bool {
    match v.stage {
        Stage::Translating => {
            &&& r is Translate
            &&& r->source@ == v.units[v.pass.len() as int].source
            &&& views(r->known_signatures@) == v.sigs
            &&& match r->prior_errors {
                Some(e) => v.errors == Some(e@),
                None => v.errors is None,
            }
            &&& match r->prior_rust {
                Some(p) => v.errors is Some && p@ == v.done[v.pass.len() as int],
                None => v.errors is None,
            }
        },
        Stage::Probing => r is ProbeCargo,
        Stage::Checking => r is Check && r->main_rs@ == main_rs_text(v.done),
        Stage::Done => r is Finish && r->output@ == v.output,
    }
}

/// The outcome answers the request of a state at `stage`.
pub open spec fn answers(stage: Stage, o: OutcomeView) -> bool {
    match stage {
        Stage::Translating => o is Translated,
        Stage::Probing => o is CargoAvailable,
        Stage::Checking => o is WriteFailed || o is Checked,
        Stage::Done => false,
    }
}

/// The state of a conversion in progress.
pub struct Migration {
    units: Vec<Unit>,
    done: Vec<String>,
    pass: Vec<String>,
    sigs: Vec<String>,
    errors: Option<String>,
    checks: usize,
    stage: Stage,
    output: String,
}

impl View for Migration {
    type V = MigrationView;

    closed spec fn view(&self) -> MigrationView {
        MigrationView {
            units: unit_views(self.units@),
            done: views(self.done@),
            pass: views(self.pass@),
            sigs: views(self.sigs@),
            errors: match self.errors {
                Some(e) => Some(e@),
                None => None,
            },
            checks: self.checks as nat,
            stage: self.stage,
            output: self.output@,
        }
    }
}

/// What every state of the pipeline satisfies.
pub open spec fn consistent(v: MigrationView) -> bool {
    &&& v.sigs == signatures_of(v.pass)
    &&& v.checks <= MAX_REPAIRS + 1
    &&& v.stage == Stage::Translating ==> v.pass.len() < v.units.len()
    &&& (v.stage == Stage::Probing || v.stage == Stage::Checking) ==> v.pass.len() == 0
        && v.done.len() == v.units.len()
    &&& v.stage != Stage::Done ==> v.checks <= MAX_REPAIRS
    &&& v.stage == Stage::Translating && v.errors is Some ==> v.done.len() == v.units.len()
    &&& v.stage == Stage::Probing ==> v.errors is None
    &&& v.stage != Stage::Done ==> (v.errors is None <==> v.checks == 0)
}

impl Migration {
    /// The invariant of the pipeline.
    pub closed spec fn well_formed(&self) -> bool {
        consistent(self@)
    }

    /// A fresh copy of a list of strings.
    fn copy_strings(v: &Vec<String>) -> (out: Vec<String>)
        ensures
            out@ == v@,
    {
        let mut out: Vec<String> = Vec::new();
        let mut i: usize = 0;
        while i < v.len()
            invariant
                i <= v@.len(),
                out@ == v@.take(i as int),
            decreases v@.len() - i,
        {
            out.push(v[i].clone());
            assert(out@ =~= v@.take(i + 1));
            i += 1;
        }
        assert(v@.take(v@.len() as int) =~= v@);
        out
    }

    /// The request of the current state.
    fn request(&self) -> (r: Request)
        requires
            self.well_formed(),
        ensures
            request_of(self@, r),
    {
        match self.stage {
            Stage::Translating => {
                assert(self.pass@.len() < self.units@.len());
                assert(unit_views(self.units@)[self.pass@.len() as int] == self.units@[self.pass@.len() as int]@);
                let prior_rust = match &self.errors {
                    Some(_) => {
                        assert(views(self.done@)[self.pass@.len() as int] == self.done@[self.pass@.len() as int]@);
                        Some(self.done[self.pass.len()].clone())
                    },
                    None => None,
                };
                Request::Translate {
                    source: self.units[self.pass.len()].source.clone(),
                    known_signatures: Self::copy_strings(&self.sigs),
                    prior_errors: match &self.errors {
                        Some(e) => Some(e.clone()),
                        None => None,
                    },
                    prior_rust,
                }
            },
            Stage::Probing => Request::ProbeCargo,
            Stage::Checking => Request::Check { main_rs: main_rs_source(&self.done) },
            Stage::Done => Request::Finish { output: self.output.clone() },
        }
    }
}

/// The reports of one step and the work it asks for next.
pub struct Step {
    pub progress: Vec<Progress>,
    pub request: Request,
}

/// The state of a pipeline over `units`, before any translation.
pub open spec fn initial_state(units: Seq<UnitView>) -> MigrationView {
    MigrationView {
        units,
        done: seq![],
        pass: seq![],
        sigs: seq![],
        errors: None,
        checks: 0,
        stage: if units.len() == 0 {
            Stage::Probing
        } else {
            Stage::Translating
        },
        output: seq![],
    }
}

/// The first progress reports: the units found, and the start of assembly
/// when there is nothing to translate.
pub open spec fn initial_progress(units: Seq<UnitView>) -> Seq<ProgressView> {
    let found = seq![
        ProgressView::Extracted { units: units.map_values(|u: UnitView| (u.name, u.kind)) },
    ];
    if units.len() == 0 {
        found.push(ProgressView::Assembling)
    } else {
        found
    }
}

impl Migration {
    /// Starts the pipeline on the extracted units: they are translated in
    /// the order of their kinds (enums, structs and records, interfaces,
    /// classes, methods), keeping source order within a kind.
    pub fn new(units: Vec<Unit>) -> (r: (Migration, Step))
        ensures
            r.0.well_formed(),
            exists|ordered: Seq<UnitView>|
                stably_sorted(unit_views(units@), ordered, true) && r.0@ == initial_state(ordered),
            progress_views(r.1.progress@) == initial_progress(r.0@.units),
            request_of(r.0@, r.1.request),
    {
        let units = sort_units(units, true);
        let mut listed: Vec<(String, String)> = Vec::new();
        let mut i: usize = 0;
        while i < units.len()
            invariant
                i <= units@.len(),
                listed@.map_values(|p: (String, String)| (p.0@, p.1@)) =~= unit_views(
                    units@,
                ).take(i as int).map_values(|u: UnitView| (u.name, u.kind)),
            decreases units@.len() - i,
        {
            let ghost before = listed@;
            let pair = (units[i].name.clone(), units[i].kind.clone());
            listed.push(pair);
            proof {
                let f = |p: (String, String)| (p.0@, p.1@);
                let g = |u: UnitView| (u.name, u.kind);
                assert(listed@.map_values(f) =~= before.map_values(f).push(f(pair)));
                assert(unit_views(units@).take(i + 1).map_values(g) =~= unit_views(units@).take(
                    i as int,
                ).map_values(g).push(g(units@[i as int]@)));
            }
            i += 1;
        }
        assert(unit_views(units@).take(units@.len() as int) =~= unit_views(units@));
        let mut progress: Vec<Progress> = Vec::new();
        progress.push(Progress::Extracted { units: listed });
        let stage = if units.len() == 0 {
            progress.push(Progress::Assembling);
            Stage::Probing
        } else {
            Stage::Translating
        };
        let m = Migration {
            units,
            done: Vec::new(),
            pass: Vec::new(),
            sigs: Vec::new(),
            errors: None,
            checks: 0,
            stage,
            output: String::new(),
        };
        assert(views(m.done@) =~= Seq::<Seq<char>>::empty());
        assert(views(m.pass@) =~= Seq::<Seq<char>>::empty());
        assert(views(m.sigs@) =~= Seq::<Seq<char>>::empty());
        assert(m@ == initial_state(m@.units));
        assert(progress_views(progress@) =~= initial_progress(m@.units));
        let request = m.request();
        (m, Step { progress, request })
    }

    /// Starts the pipeline on a C# source: extracts its units with
    /// tree-sitter and orders them for translation.
    pub fn start(src: &str) -> (r: (Migration, Step))
        ensures
            r.0.well_formed(),
            exists|found: Seq<UnitView>, ordered: Seq<UnitView>|
                extracted_from(src@, src.spec_bytes(), found) && stably_sorted(found, ordered, true)
                    && r.0@ == initial_state(ordered),
            progress_views(r.1.progress@) == initial_progress(r.0@.units),
            request_of(r.0@, r.1.request),
    {
        let mut extractor = CSharpExtractor::new();
        let units = extractor.parse(src);
        Self::new(units)
    }

    /// Takes the outcome of the pending request and moves to the next state:
    /// `next_state` says where, `progress_of` what is reported, and the
    /// returned request is the new state's.
    pub fn advance(&mut self, outcome: Outcome) -> (step: Step)
        requires
            old(self).well_formed(),
            answers(old(self)@.stage, outcome@),
        ensures
            final(self).well_formed(),
            final(self)@ == next_state(old(self)@, outcome@),
            progress_views(step.progress@) == progress_of(old(self)@, outcome@),
            request_of(final(self)@, step.request),
    {
        let ghost v = self@;
        let mut progress: Vec<Progress> = Vec::new();
        match outcome {
            Outcome::Translated(Ok(rust)) => {
                let idx = self.pass.len();
                let ghost r = rust@;
                let ghost reported = if v.errors is None {
                    seq![
                        ProgressView::Translated {
                            name: v.units[v.pass.len() as int].name,
                            chars: encode_utf8(r).len() as usize,
                            signatures: rust_signatures(r).len(),
                        },
                    ]
                } else {
                    Seq::<ProgressView>::empty()
                };
                let mut new_sigs = extract_rust_signatures(rust.as_str());
                if self.errors.is_none() {
                    assert(unit_views(self.units@)[idx as int] == self.units@[idx as int]@);
                    assert(views(new_sigs@).len() == new_sigs@.len());
                    progress.push(
                        Progress::Translated {
                            name: self.units[idx].name.clone(),
                            chars: rust.as_str().len(),
                            signatures: new_sigs.len(),
                        },
                    );
                }
                assert(progress_views(progress@) =~= reported);
                self.pass.push(rust);
                proof {
                    assert(views(self.pass@) =~= v.pass.push(r));
                    assert(views(self.pass@).drop_last() =~= v.pass);
                }
                if self.pass.len() < self.units.len() {
                    self.sigs.append(&mut new_sigs);
                    assert(views(self.sigs@) =~= v.sigs + rust_signatures(r));
                } else {
                    let mut finished: Vec<String> = Vec::new();
                    std::mem::swap(&mut finished, &mut self.pass);
                    self.done = finished;
                    self.sigs = Vec::new();
                    if self.errors.is_none() {
                        progress.push(Progress::Assembling);
                        assert(progress_views(progress@) =~= reported.push(ProgressView::Assembling));
                        self.stage = Stage::Probing;
                    } else {
                        self.stage = Stage::Checking;
                    }
                    assert(views(self.sigs@) =~= Seq::<Seq<char>>::empty());
                    assert(views(self.pass@) =~= Seq::<Seq<char>>::empty());
                }
            },
            Outcome::Translated(Err(e)) => {
                self.output = failure_comment(e.as_str());
                progress.push(Progress::Failed { message: e });
                assert(progress_views(progress@) =~= progress_of(v, outcome@));
                self.stage = Stage::Done;
            },
            Outcome::CargoAvailable(available) => {
                if available {
                    assert(progress_views(progress@) =~= progress_of(v, outcome@));
                    self.stage = Stage::Checking;
                } else {
                    progress.push(Progress::CheckSkipped);
                    assert(progress_views(progress@) =~= progress_of(v, outcome@));
                    self.output = rust_module_body(&self.done);
                    self.stage = Stage::Done;
                }
            },
            Outcome::WriteFailed(m) => {
                let mut message = String::new();
                message.append("writing cargo project: ");
                message.append(m.as_str());
                self.output = failure_comment(message.as_str());
                progress.push(Progress::Failed { message });
                assert(progress_views(progress@) =~= progress_of(v, outcome@));
                self.stage = Stage::Done;
            },
            Outcome::Checked { ok, errors } => {
                self.checks = self.checks + 1;
                let last = self.checks == MAX_REPAIRS + 1;
                progress.push(
                    Progress::Checked {
                        ok,
                        attempt: self.checks,
                        last: if ok {
                            None
                        } else {
                            Some(last)
                        },
                    },
                );
                assert(progress_views(progress@) =~= progress_of(v, outcome@));
                if ok || last {
                    self.output = rust_module_body(&self.done);
                    self.stage = Stage::Done;
                } else {
                    self.errors = Some(errors);
                    if self.units.len() == 0 {
                        self.stage = Stage::Checking;
                    } else {
                        self.pass = Vec::new();
                        self.sigs = Vec::new();
                        self.stage = Stage::Translating;
                        assert(views(self.sigs@) =~= Seq::<Seq<char>>::empty());
                        assert(views(self.pass@) =~= Seq::<Seq<char>>::empty());
                    }
                }
            },
        }
        assert(self@ == next_state(v, outcome@));
        assert(progress_views(progress@) =~= progress_of(v, outcome@)) by {
            assert(progress_views(progress@).len() == progress_of(v, outcome@).len());
        }
        let request = self.request();
        Step { progress, request }
    }
}

// ---------------------------------------------------------------------------
// Laws
// ---------------------------------------------------------------------------

/// Every translation request carries the running symbol table: the
/// signatures of the translations made before it in the same pass, and the
/// source of the next unit in translation order; on a repair pass it also
/// carries the compiler errors and the unit's current Rust.
pub proof fn law_context_is_symbol_table(m: Migration, r: Request)
    requires
        m.well_formed(),
        m@.stage == Stage::Translating,
        request_of(m@, r),
    ensures
        views(r->known_signatures@) == signatures_of(m@.pass),
        r->source@ == m@.units[m@.pass.len() as int].source,
        m@.pass.len() < m@.units.len(),
        m@.errors matches Some(e) ==> (r->prior_errors matches Some(pe) && pe@ == e),
        m@.errors is Some ==> (r->prior_rust matches Some(pr) && pr@ == m@.done[m@.pass.len() as int]),
        m@.errors is Some ==> m@.done.len() == m@.units.len(),
        m@.errors is None ==> r->prior_errors is None && r->prior_rust is None,
{
}

/// `cargo check` runs at most `MAX_REPAIRS + 1` times (the first check and
/// one after each of `MAX_REPAIRS` repair rounds): each check counts, and no
/// check is asked for once the count is reached.
pub proof fn law_checks_bounded(m: Migration, o: OutcomeView)
    requires
        m.well_formed(),
        answers(m@.stage, o),
    ensures
        m@.checks <= MAX_REPAIRS,
        next_state(m@, o).checks <= MAX_REPAIRS + 1,
        o is Checked ==> next_state(m@, o).checks == m@.checks + 1,
        next_state(m@, o).checks == MAX_REPAIRS + 1 ==> next_state(m@, o).stage == Stage::Done,
{
}

/// After a failed check that is not the last one, every unit is translated
/// again, from the first, with the compiler errors as feedback and an empty
/// symbol table, against the translations that failed.
pub proof fn law_failed_check_repairs(m: Migration, errors: Seq<char>)
    requires
        m.well_formed(),
        m@.stage == Stage::Checking,
        m@.checks < MAX_REPAIRS,
        m@.units.len() > 0,
    ensures
        ({
            let n = next_state(m@, OutcomeView::Checked { ok: false, errors });
            &&& n.stage == Stage::Translating
            &&& n.pass.len() == 0
            &&& n.sigs.len() == 0
            &&& n.errors == Some(errors)
            &&& n.done == m@.done
            &&& n.done.len() == n.units.len()
        }),
{
}

/// A pipeline ends with the assembled module of the last complete pass,
/// unless an error stopped it, in which case it ends with that error as a
/// comment.
pub proof fn law_output(m: Migration, o: OutcomeView)
    requires
        m.well_formed(),
        answers(m@.stage, o),
        next_state(m@, o).stage == Stage::Done,
    ensures
        next_state(m@, o).output == module_body(m@.done) || exists|e: Seq<char>|
            next_state(m@, o).output == failure_text(e),
{
}

} // verus!
