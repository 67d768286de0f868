//! The start-up protocol that runs inside every instance: eliminate running
//! siblings, exit at once when designated as the off instance, make sure the
//! companion runs, then present the UI until asked to exit.
use vstd::prelude::*;
use crate::names::{exe_name, exe_suffix, exe_suffix_str, last_sep_before, strip_seps, strip_seps_len};
use crate::launch::{build_params, joined};
use crate::reconcile::opt_view;
use crate::registry::{file_records, opt_text};
use crate::text::{
    chars_of, ends_with_ignoring_case, eq_ignoring_case, has_suffix_ignoring_case, record_lines,
    records, same_ignoring_case, trim, trim_bounds, views,
};

verus! {

/// The executable name assumed for the companion when its path names no file.
pub const DEFAULT_COMPANION_EXE: &'static str = "awcc.exe";

/// A running OS process, as the process enumeration reports it.
pub struct ProcessEntry {
    pub pid: u32,
    pub name: String,
}

/// `n` with the executable suffix, unless it already ends with it up to case.
pub open spec fn with_exe_suffix(n: Seq<char>) -> Seq<char> {
    if ends_with_ignoring_case(n, exe_suffix()) {
        n
    } else {
        n + exe_suffix()
    }
}

/// The family names that the instance called `own` must terminate: each
/// record of the family file with the executable suffix, in order, leaving
/// out those equal to the instance's own name up to case.
pub open spec fn targets_of(recs: Seq<Seq<char>>, own: Seq<char>) -> Seq<Seq<char>>
    decreases recs.len(),
{
    if recs.len() == 0 {
        Seq::empty()
    } else {
        let r = targets_of(recs.drop_last(), own);
        let t = with_exe_suffix(recs.last());
        if same_ignoring_case(t, with_exe_suffix(own)) {
            r
        } else {
            r.push(t)
        }
    }
}

/// `name` equals one of `targets` up to case.
pub open spec fn matches_any(targets: Seq<Seq<char>>, name: Seq<char>) -> bool {
    exists|i: int| 0 <= i < targets.len() && same_ignoring_case(#[trigger] targets[i], name)
}

/// The identifiers of the processes to terminate: those whose name is a
/// target, up to case, other than the current process, in the order listed.
pub open spec fn kill_list(procs: Seq<ProcessEntry>, targets: Seq<Seq<char>>, self_pid: u32) -> Seq<
    u32,
>
    decreases procs.len(),
{
    if procs.len() == 0 {
        Seq::empty()
    } else {
        let r = kill_list(procs.drop_last(), targets, self_pid);
        let p = procs.last();
        if matches_any(targets, p.name@) && p.pid != self_pid {
            r.push(p.pid)
        } else {
            r
        }
    }
}

/// The off-designation file names the instance `own`, up to case.
pub open spec fn names_instance(off: Seq<char>, own: Seq<char>) -> bool {
    exists|i: int| 0 <= i < records(off).len() && same_ignoring_case(#[trigger] records(off)[i], own)
}

/// A process of the list carries the name `name`, up to case.
pub open spec fn runs(procs: Seq<ProcessEntry>, name: Seq<char>) -> bool {
    exists|i: int| 0 <= i < procs.len() && same_ignoring_case(#[trigger] procs[i].name@, name)
}

/// `n` with the executable suffix added unless it has it, up to case.
pub fn with_exe_suffix_name(n: &str) -> (r: String)
    ensures
        r@ == with_exe_suffix(n@),
{
    if has_suffix_ignoring_case(n, exe_suffix_str()) {
        String::from_str(n)
    } else {
        exe_name(n)
    }
}

/// The family members that the instance `own` must terminate, read from the
/// family file: never the instance itself.
pub fn elimination_targets(family: &str, own: &str) -> (r: Vec<String>)
    ensures
        views(r@) == targets_of(records(family@), own@),
{
    let recs = record_lines(family);
    let own_key = with_exe_suffix_name(own);
    let mut r: Vec<String> = Vec::new();
    let mut i: usize = 0;
    while i < recs.len()
        invariant
            i <= recs@.len(),
            views(recs@) == records(family@),
            own_key@ == with_exe_suffix(own@),
            views(r@) == targets_of(views(recs@).subrange(0, i as int), own@),
        decreases recs@.len() - i,
    {
        let ghost pre = views(recs@).subrange(0, i as int);
        let ghost post = views(recs@).subrange(0, i + 1);
        assert(post.drop_last() =~= pre);
        assert(post.last() == recs@[i as int]@);
        let t = with_exe_suffix_name(recs[i].as_str());
        if !eq_ignoring_case(t.as_str(), own_key.as_str()) {
            let ghost r0 = views(r@);
            let ghost tv = t@;
            r.push(t);
            assert(views(r@) =~= r0.push(tv));
        }
        i = i + 1;
    }
    assert(views(recs@).subrange(0, recs@.len() as int) == views(recs@));
    r
}

/// Whether `name` equals one of `targets` up to case.
pub fn is_target(targets: &Vec<String>, name: &str) -> (r: bool)
    ensures
        r == matches_any(views(targets@), name@),
{
    let mut i: usize = 0;
    while i < targets.len()
        invariant
            i <= targets@.len(),
            forall|j: int| 0 <= j < i ==> !same_ignoring_case(#[trigger] views(targets@)[j], name@),
        decreases targets@.len() - i,
    {
        if eq_ignoring_case(targets[i].as_str(), name) {
            assert(same_ignoring_case(views(targets@)[i as int], name@));
            return true;
        }
        i = i + 1;
    }
    false
}

/// The identifiers of the listed processes that the elimination pass
/// terminates. The current process is never among them.
pub fn pids_to_terminate(targets: &Vec<String>, procs: &Vec<ProcessEntry>, self_pid: u32) -> (r:
    Vec<u32>)
    ensures
        r@ == kill_list(procs@, views(targets@), self_pid),
        forall|i: int| 0 <= i < r@.len() ==> r@[i] != self_pid,
{
    let mut r: Vec<u32> = Vec::new();
    let mut i: usize = 0;
    while i < procs.len()
        invariant
            i <= procs@.len(),
            r@ == kill_list(procs@.subrange(0, i as int), views(targets@), self_pid),
            forall|k: int| 0 <= k < r@.len() ==> r@[k] != self_pid,
        decreases procs@.len() - i,
    {
        let ghost pre = procs@.subrange(0, i as int);
        let ghost post = procs@.subrange(0, i + 1);
        assert(post.drop_last() =~= pre);
        assert(post.last() == procs@[i as int]);
        let p = &procs[i];
        if p.pid != self_pid && is_target(targets, p.name.as_str()) {
            r.push(p.pid);
        }
        i = i + 1;
    }
    assert(procs@.subrange(0, procs@.len() as int) == procs@);
    r
}

/// Whether the off-designation file names the instance `own`, up to case.
pub fn is_off_instance(off: &str, own: &str) -> (r: bool)
    ensures
        r == names_instance(off@, own@),
{
    let recs = record_lines(off);
    let mut i: usize = 0;
    while i < recs.len()
        invariant
            i <= recs@.len(),
            views(recs@) == records(off@),
            forall|j: int| 0 <= j < i ==> !same_ignoring_case(#[trigger] records(off@)[j], own@),
        decreases recs@.len() - i,
    {
        assert(records(off@)[i as int] == recs@[i as int]@);
        if eq_ignoring_case(recs[i].as_str(), own) {
            return true;
        }
        i = i + 1;
    }
    false
}

/// Whether a listed process carries the name `name`, up to case.
pub fn is_running(procs: &Vec<ProcessEntry>, name: &str) -> (r: bool)
    ensures
        r == runs(procs@, name@),
{
    let mut i: usize = 0;
    while i < procs.len()
        invariant
            i <= procs@.len(),
            forall|j: int| 0 <= j < i ==> !same_ignoring_case(#[trigger] procs@[j].name@, name@),
        decreases procs@.len() - i,
    {
        if eq_ignoring_case(procs[i].name.as_str(), name) {
            return true;
        }
        i = i + 1;
    }
    false
}

/// Length of the first line of `t`: up to the first line feed.
pub open spec fn first_line_len(t: Seq<char>) -> nat
    decreases t.len(),
{
    if t.len() == 0 || t[0] == '\n' {
        0
    } else {
        1 + first_line_len(t.drop_first())
    }
}

/// The first line of `t`, trimmed.
pub open spec fn first_line(t: Seq<char>) -> Seq<char> {
    trim(t.subrange(0, first_line_len(t) as int))
}

/// The last component of the path `p`, trailing separators ignored; none
/// when it is empty, `.` or `..`.
pub open spec fn file_name(p: Seq<char>) -> Option<Seq<char>> {
    let q = strip_seps_len(p, p.len() as int);
    let c = p.subrange(last_sep_before(p, q) + 1, q);
    if c.len() == 0 || c == seq!['.'] || c == seq!['.', '.'] {
        None
    } else {
        Some(c)
    }
}

/// The companion's path as the path file gives it: its first line, trimmed;
/// none when the file is missing or that line is blank.
pub open spec fn companion_path(text: Option<Seq<char>>) -> Option<Seq<char>> {
    match text {
        Some(t) => if first_line(t).len() > 0 {
            Some(first_line(t))
        } else {
            None
        },
        None => None,
    }
}

/// Whether to start the companion minimized: yes, unless the first line of
/// the flag file reads `false` up to case.
pub open spec fn start_minimized_of(text: Option<Seq<char>>) -> bool {
    match text {
        Some(t) => !same_ignoring_case(first_line(t), seq!['f', 'a', 'l', 's', 'e']),
        None => true,
    }
}

/// How the companion is launched.
pub struct CompanionLaunch {
    pub path: String,
    /// The executable name that a running companion process carries.
    pub exe_name: String,
    pub args: Vec<String>,
    pub start_minimized: bool,
}

/// `c` is the companion launch that the three companion files describe.
pub open spec fn companion_from(
    path: Option<Seq<char>>,
    args: Option<Seq<char>>,
    minimized: Option<Seq<char>>,
    c: Option<CompanionLaunch>,
) -> bool {
    match companion_path(path) {
        None => c is None,
        Some(p) => c matches Some(l) && l.path@ == p && l.exe_name@ == (match file_name(p) {
            Some(n) => n,
            None => DEFAULT_COMPANION_EXE@,
        }) && views(l.args@) == file_records(args) && l.start_minimized == start_minimized_of(
            minimized,
        ),
    }
}

/// The first line of `t`, trimmed.
pub fn first_line_of(t: &str) -> (r: String)
    ensures
        r@ == first_line(t@),
{
    let v = chars_of(t);
    let mut k: usize = 0;
    assert(v@.subrange(0, v@.len() as int) == v@);
    while k < v.len() && v[k] != '\n'
        invariant
            k <= v@.len(),
            v@ == t@,
            first_line_len(v@) == k + first_line_len(v@.subrange(k as int, v@.len() as int)),
        decreases v@.len() - k,
    {
        assert(v@.subrange(k as int, v@.len() as int).drop_first() =~= v@.subrange(
            k + 1,
            v@.len() as int,
        ));
        k = k + 1;
    }
    let (a, b) = trim_bounds(&v, 0, k);
    String::from_str(t.substring_char(a, b))
}

/// The last component of the path `p`, as `file_name` defines it.
pub fn file_name_of(p: &str) -> (r: Option<String>)
    ensures
        r matches Some(n) ==> file_name(p@) == Some(n@),
        r is None ==> file_name(p@) is None,
{
    let v = chars_of(p);
    let q = strip_seps(&v, v.len());
    let mut k: usize = q;
    while k > 0 && !(v[k - 1] == '/' || v[k - 1] == '\\')
        invariant
            k <= q <= v@.len(),
            v@ == p@,
            last_sep_before(v@, k as int) == last_sep_before(v@, q as int),
        decreases k,
    {
        k = k - 1;
    }
    let c = p.substring_char(k, q);
    let n = q - k;
    if n == 0 {
        return None;
    }
    if n == 1 && v[k] == '.' {
        assert(c@ =~= seq!['.']);
        return None;
    }
    if n == 2 && v[k] == '.' && v[k + 1] == '.' {
        assert(c@ =~= seq!['.', '.']);
        return None;
    }
    assert(c@ != seq!['.']) by {
        if n == 1 {
            assert(c@[0] == v@[k as int]);
        }
    }
    assert(c@ != seq!['.', '.']) by {
        if n == 2 {
            assert(c@[0] == v@[k as int]);
            assert(c@[1] == v@[k + 1]);
        }
    }
    Some(String::from_str(c))
}

/// Whether to start the companion minimized, from the flag file if any.
pub fn start_minimized_flag(text: Option<&str>) -> (r: bool)
    ensures
        r == start_minimized_of(opt_text(text)),
{
    match text {
        None => true,
        Some(t) => {
            let line = first_line_of(t);
            let f = "false";
            proof {
                reveal_strlit("false");
            }
            assert(f@ =~= seq!['f', 'a', 'l', 's', 'e']);
            !eq_ignoring_case(line.as_str(), f)
        },
    }
}

/// The companion launch that the companion files describe: none when the
/// path file is missing or its first line is blank.
pub fn companion_launch(path: Option<&str>, args: Option<&str>, minimized: Option<&str>) -> (r:
    Option<CompanionLaunch>)
    ensures
        companion_from(opt_text(path), opt_text(args), opt_text(minimized), r),
{
    let path_text = match path {
        None => {
            return None;
        },
        Some(t) => t,
    };
    let p = first_line_of(path_text);
    if p.unicode_len() == 0 {
        return None;
    }
    let exe_name = match file_name_of(p.as_str()) {
        Some(n) => n,
        None => String::from_str(DEFAULT_COMPANION_EXE),
    };
    let arg_list = match args {
        Some(t) => record_lines(t),
        None => {
            let e: Vec<String> = Vec::new();
            assert(views(e@) =~= Seq::empty());
            e
        },
    };
    let start_minimized = start_minimized_flag(minimized);
    Some(CompanionLaunch { path: p, exe_name, args: arg_list, start_minimized })
}

/// The phases of an instance's life.
#[derive(PartialEq, Eq, Structural, Clone, Copy, Debug)]
pub enum Phase {
    Starting,
    Eliminating,
    OffExit,
    CompanionCheck,
    Active,
    ShuttingDown,
}

/// What the host reports to the supervisor.
pub enum Event {
    /// The process has started.
    Start,
    /// The running processes, in answer to `Action::ListProcesses`.
    ProcessesListed(Vec<ProcessEntry>),
    /// The requested terminations or launch were attempted, whatever came of
    /// them.
    Done,
    /// The UI registration, in answer to `Action::RegisterUi`, succeeded or not.
    UiRegistered(bool),
    ContextMenuRequested,
    ExitRequested,
    Other,
}

/// What the supervisor asks the host to do next.
pub enum Action {
    ListProcesses,
    /// Request termination of each process; failures are ignored.
    Terminate(Vec<u32>),
    /// Launch the companion in the background; failure is ignored.
    Launch { path: String, params: String, start_minimized: bool },
    RegisterUi,
    ShowMenu,
    Wait,
    /// End the process, first releasing the UI registration if asked to.
    Exit { unregister_ui: bool, success: bool },
}

pub ghost enum ActionModel {
    ListProcesses,
    Terminate(Seq<u32>),
    Launch { path: Seq<char>, params: Seq<char>, start_minimized: bool },
    RegisterUi,
    ShowMenu,
    Wait,
    Exit { unregister_ui: bool, success: bool },
}

impl Action {
    pub open spec fn model(&self) -> ActionModel {
        match self {
            Action::ListProcesses => ActionModel::ListProcesses,
            Action::Terminate(p) => ActionModel::Terminate(p@),
            Action::Launch { path, params, start_minimized } => ActionModel::Launch {
                path: path@,
                params: params@,
                start_minimized: *start_minimized,
            },
            Action::RegisterUi => ActionModel::RegisterUi,
            Action::ShowMenu => ActionModel::ShowMenu,
            Action::Wait => ActionModel::Wait,
            Action::Exit { unregister_ui, success } => ActionModel::Exit {
                unregister_ui: *unregister_ui,
                success: *success,
            },
        }
    }
}

/// The registry files as the instance found them beside its executable;
/// `None` for a file that is missing or unreadable.
pub struct RegistryFiles {
    pub family: Option<String>,
    pub off: Option<String>,
    pub companion_path: Option<String>,
    pub companion_args: Option<String>,
    pub companion_start_minimized: Option<String>,
}

/// The supervisor of one instance: what it read at start-up, and where it
/// stands in the protocol.
pub struct Supervisor {
    pub phase: Phase,
    /// A `Terminate` or `Launch` is out, and `Done` is awaited.
    pub awaiting: bool,
    pub ui_registered: bool,
    pub own_pid: u32,
    /// The family members to terminate (never the instance itself).
    pub targets: Vec<String>,
    /// The instance is the off-designated one.
    pub off: bool,
    pub companion: Option<CompanionLaunch>,
}

/// The part of the supervisor that a step changes.
pub ghost struct Control {
    pub phase: Phase,
    pub awaiting: bool,
    pub ui_registered: bool,
}

pub open spec fn control_of(s: Supervisor) -> Control {
    Control { phase: s.phase, awaiting: s.awaiting, ui_registered: s.ui_registered }
}

/// Two supervisor states hold the same start-up findings.
pub open spec fn same_setup(s: Supervisor, t: Supervisor) -> bool {
    &&& t.own_pid == s.own_pid
    &&& t.targets == s.targets
    &&& t.off == s.off
    &&& t.companion == s.companion
}

/// Where elimination leads: the off instance exits at once and never shows
/// its UI; otherwise the companion check comes next, if a companion is
/// configured, and else the UI is registered.
pub open spec fn after_elimination(s: Supervisor) -> (Control, ActionModel) {
    if s.off {
        (
            Control { phase: Phase::OffExit, awaiting: false, ui_registered: s.ui_registered },
            ActionModel::Exit { unregister_ui: false, success: true },
        )
    } else if s.companion is Some {
        (
            Control { phase: Phase::CompanionCheck, awaiting: false, ui_registered: s.ui_registered },
            ActionModel::ListProcesses,
        )
    } else {
        (
            Control { phase: Phase::Active, awaiting: false, ui_registered: s.ui_registered },
            ActionModel::RegisterUi,
        )
    }
}

/// The launch request for a companion.
pub open spec fn launch_of(c: CompanionLaunch) -> ActionModel {
    ActionModel::Launch {
        path: c.path@,
        params: joined(views(c.args@)),
        start_minimized: c.start_minimized,
    }
}

/// The protocol: the next control state and action of `s` on event `e`.
/// An event that the phase does not expect changes nothing and asks the
/// host to wait.
pub open spec fn next(s: Supervisor, e: Event) -> (Control, ActionModel) {
    let stay = (control_of(s), ActionModel::Wait);
    let active = Control { phase: Phase::Active, awaiting: false, ui_registered: s.ui_registered };
    match s.phase {
        Phase::Starting => match e {
            Event::Start => if s.targets@.len() == 0 {
                after_elimination(s)
            } else {
                (
                    Control { phase: Phase::Eliminating, awaiting: false, ui_registered: s.ui_registered },
                    ActionModel::ListProcesses,
                )
            },
            _ => stay,
        },
        Phase::Eliminating => match e {
            Event::ProcessesListed(ps) => if !s.awaiting {
                (
                    Control { phase: Phase::Eliminating, awaiting: true, ui_registered: s.ui_registered },
                    ActionModel::Terminate(kill_list(ps@, views(s.targets@), s.own_pid)),
                )
            } else {
                stay
            },
            Event::Done => if s.awaiting {
                after_elimination(s)
            } else {
                stay
            },
            _ => stay,
        },
        Phase::CompanionCheck => match e {
            Event::ProcessesListed(ps) => if !s.awaiting && s.companion is Some {
                if runs(ps@, s.companion->Some_0.exe_name@) {
                    (active, ActionModel::RegisterUi)
                } else {
                    (
                        Control { phase: Phase::CompanionCheck, awaiting: true, ui_registered: s.ui_registered },
                        launch_of(s.companion->Some_0),
                    )
                }
            } else {
                stay
            },
            Event::Done => if s.awaiting {
                (active, ActionModel::RegisterUi)
            } else {
                stay
            },
            _ => stay,
        },
        Phase::Active => match e {
            Event::UiRegistered(ok) => if s.ui_registered {
                stay
            } else if ok {
                (
                    Control { phase: Phase::Active, awaiting: false, ui_registered: true },
                    ActionModel::Wait,
                )
            } else {
                (
                    Control { phase: Phase::ShuttingDown, awaiting: false, ui_registered: false },
                    ActionModel::Exit { unregister_ui: false, success: false },
                )
            },
            Event::ContextMenuRequested => if s.ui_registered {
                (control_of(s), ActionModel::ShowMenu)
            } else {
                stay
            },
            Event::ExitRequested => (
                Control { phase: Phase::ShuttingDown, awaiting: false, ui_registered: s.ui_registered },
                ActionModel::Exit { unregister_ui: s.ui_registered, success: true },
            ),
            _ => stay,
        },
        Phase::OffExit => stay,
        Phase::ShuttingDown => stay,
    }
}

/// The supervisor state after `s` takes event `e`.
pub open spec fn after(s: Supervisor, e: Event) -> Supervisor {
    let c = next(s, e).0;
    Supervisor { phase: c.phase, awaiting: c.awaiting, ui_registered: c.ui_registered, ..s }
}

impl Supervisor {
    /// The supervisor of the instance whose executable file is `own_name`,
    /// running as process `own_pid`, from the registry files beside it. A
    /// missing family file means no siblings, a missing off file that the
    /// instance is not the off one, a missing path file no companion.
    pub fn new(own_name: &str, own_pid: u32, files: &RegistryFiles) -> (r: Supervisor)
        ensures
            r.phase == Phase::Starting,
            !r.awaiting,
            !r.ui_registered,
            r.own_pid == own_pid,
            views(r.targets@) == targets_of(file_records(opt_view(files.family)), own_name@),
            r.off == (match files.off {
                Some(o) => names_instance(o@, own_name@),
                None => false,
            }),
            companion_from(
                opt_view(files.companion_path),
                opt_view(files.companion_args),
                opt_view(files.companion_start_minimized),
                r.companion,
            ),
    {
        let targets = match &files.family {
            Some(f) => elimination_targets(f.as_str(), own_name),
            None => {
                let e: Vec<String> = Vec::new();
                assert(views(e@) =~= Seq::empty());
                e
            },
        };
        let off = match &files.off {
            Some(o) => is_off_instance(o.as_str(), own_name),
            None => false,
        };
        let path = match &files.companion_path {
            Some(t) => Some(t.as_str()),
            None => None,
        };
        let args = match &files.companion_args {
            Some(t) => Some(t.as_str()),
            None => None,
        };
        let minimized = match &files.companion_start_minimized {
            Some(t) => Some(t.as_str()),
            None => None,
        };
        let companion = companion_launch(path, args, minimized);
        Supervisor {
            phase: Phase::Starting,
            awaiting: false,
            ui_registered: false,
            own_pid,
            targets,
            off,
            companion,
        }
    }

    fn finish_elimination(&mut self) -> (a: Action)
        ensures
            (control_of(*final(self)), a.model()) == after_elimination(*old(self)),
            same_setup(*old(self), *final(self)),
    {
        self.awaiting = false;
        if self.off {
            self.phase = Phase::OffExit;
            Action::Exit { unregister_ui: false, success: true }
        } else if self.companion.is_some() {
            self.phase = Phase::CompanionCheck;
            Action::ListProcesses
        } else {
            self.phase = Phase::Active;
            Action::RegisterUi
        }
    }

    /// Takes one event and returns what the host is to do next, following
    /// `next`. A termination request never names the current process, and no
    /// launch is requested while the companion runs.
    pub fn step(&mut self, e: Event) -> (a: Action)
        ensures
            (control_of(*final(self)), a.model()) == next(*old(self), e),
            same_setup(*old(self), *final(self)),
            a.model() matches ActionModel::Terminate(p) ==> forall|i: int|
                0 <= i < p.len() ==> p[i] != old(self).own_pid,
            a.model() is Launch ==> (e matches Event::ProcessesListed(ps) && old(self).companion
                matches Some(c) && !runs(ps@, c.exe_name@)),
    {
        match self.phase {
            Phase::Starting => match e {
                Event::Start => {
                    if self.targets.len() == 0 {
                        self.finish_elimination()
                    } else {
                        self.phase = Phase::Eliminating;
                        self.awaiting = false;
                        Action::ListProcesses
                    }
                },
                _ => Action::Wait,
            },
            Phase::Eliminating => match e {
                Event::ProcessesListed(ps) => {
                    if !self.awaiting {
                        let pids = pids_to_terminate(&self.targets, &ps, self.own_pid);
                        self.awaiting = true;
                        Action::Terminate(pids)
                    } else {
                        Action::Wait
                    }
                },
                Event::Done => {
                    if self.awaiting {
                        self.finish_elimination()
                    } else {
                        Action::Wait
                    }
                },
                _ => Action::Wait,
            },
            Phase::CompanionCheck => match e {
                Event::ProcessesListed(ps) => {
                    if self.awaiting {
                        return Action::Wait;
                    }
                    match &self.companion {
                        None => Action::Wait,
                        Some(c) => {
                            if is_running(&ps, c.exe_name.as_str()) {
                                self.phase = Phase::Active;
                                self.awaiting = false;
                                Action::RegisterUi
                            } else {
                                let params = build_params(&c.args);
                                let a = Action::Launch {
                                    path: c.path.clone(),
                                    params,
                                    start_minimized: c.start_minimized,
                                };
                                self.awaiting = true;
                                a
                            }
                        },
                    }
                },
                Event::Done => {
                    if self.awaiting {
                        self.phase = Phase::Active;
                        self.awaiting = false;
                        Action::RegisterUi
                    } else {
                        Action::Wait
                    }
                },
                _ => Action::Wait,
            },
            Phase::Active => match e {
                Event::UiRegistered(ok) => {
                    if self.ui_registered {
                        Action::Wait
                    } else if ok {
                        self.ui_registered = true;
                        self.awaiting = false;
                        Action::Wait
                    } else {
                        self.phase = Phase::ShuttingDown;
                        self.awaiting = false;
                        Action::Exit { unregister_ui: false, success: false }
                    }
                },
                Event::ContextMenuRequested => {
                    if self.ui_registered {
                        Action::ShowMenu
                    } else {
                        Action::Wait
                    }
                },
                Event::ExitRequested => {
                    self.phase = Phase::ShuttingDown;
                    self.awaiting = false;
                    Action::Exit { unregister_ui: self.ui_registered, success: true }
                },
                _ => Action::Wait,
            },
            Phase::OffExit => Action::Wait,
            Phase::ShuttingDown => Action::Wait,
        }
    }
}

/// `states`, `events` and `actions` form a run of the protocol: each state
/// takes the next event to the following state and action.
pub open spec fn is_run(states: Seq<Supervisor>, events: Seq<Event>, actions: Seq<ActionModel>) -> bool {
    &&& states.len() == events.len() + 1
    &&& actions.len() == events.len()
    &&& forall|i: int|
        0 <= i < events.len() ==> #[trigger] next(states[i], events[i]) == (
            control_of(states[i + 1]),
            actions[i],
        ) && same_setup(states[i], states[i + 1])
}

/// The phases that the off instance can be in.
pub open spec fn off_phase(p: Phase) -> bool {
    p == Phase::Starting || p == Phase::Eliminating || p == Phase::OffExit
}

/// Whatever the events, the off instance never registers its UI nor shows
/// its menu, and never leaves the start-up and off-exit phases, whatever the
/// family file holds.
pub proof fn lemma_off_instance_never_presents_ui(
    states: Seq<Supervisor>,
    events: Seq<Event>,
    actions: Seq<ActionModel>,
)
    requires
        is_run(states, events, actions),
        states[0].off,
        states[0].phase == Phase::Starting,
        !states[0].ui_registered,
    ensures
        forall|i: int|
            0 <= i < actions.len() ==> !(#[trigger] actions[i] is RegisterUi) && !(
            actions[i] is ShowMenu),
        forall|i: int|
            0 <= i < states.len() ==> off_phase(#[trigger] states[i].phase)
                && !states[i].ui_registered && states[i].off,
{
    lemma_off_run_prefix(states, events, actions, events.len() as int);
}

proof fn lemma_off_run_prefix(
    states: Seq<Supervisor>,
    events: Seq<Event>,
    actions: Seq<ActionModel>,
    k: int,
)
    requires
        is_run(states, events, actions),
        0 <= k <= events.len(),
        states[0].off,
        states[0].phase == Phase::Starting,
        !states[0].ui_registered,
    ensures
        forall|i: int|
            0 <= i < k ==> !(#[trigger] actions[i] is RegisterUi) && !(actions[i] is ShowMenu),
        forall|i: int|
            0 <= i <= k ==> off_phase(#[trigger] states[i].phase) && !states[i].ui_registered
                && states[i].off,
    decreases k,
{
    if k > 0 {
        lemma_off_run_prefix(states, events, actions, k - 1);
        let s = states[k - 1];
        assert(next(states[k - 1], events[k - 1]) == (control_of(states[k]), actions[k - 1]));
        assert(same_setup(s, states[k]));
        assert(off_phase(s.phase) && !s.ui_registered && s.off);
    }
}

/// The off instance, started, eliminates its siblings and then exits with
/// success: at once when no sibling is to be terminated, and otherwise
/// after listing the processes and terminating the matching ones.
pub proof fn lemma_off_instance_exits(s: Supervisor, ps: Vec<ProcessEntry>)
    requires
        s.off,
        s.phase == Phase::Starting,
        !s.awaiting,
        !s.ui_registered,
    ensures
        s.targets@.len() == 0 ==> next(s, Event::Start).1 == (ActionModel::Exit {
            unregister_ui: false,
            success: true,
        }) && after(s, Event::Start).phase == Phase::OffExit,
        s.targets@.len() > 0 ==> ({
            let s1 = after(s, Event::Start);
            let s2 = after(s1, Event::ProcessesListed(ps));
            &&& next(s, Event::Start).1 == ActionModel::ListProcesses
            &&& next(s1, Event::ProcessesListed(ps)).1 == ActionModel::Terminate(
                kill_list(ps@, views(s.targets@), s.own_pid),
            )
            &&& next(s2, Event::Done).1 == (ActionModel::Exit { unregister_ui: false, success: true })
            &&& after(s2, Event::Done).phase == Phase::OffExit
        }),
{
}

/// The elimination targets never include the instance's own name, up to
/// case and executable suffix, even when the family file lists it.
pub proof fn lemma_own_name_never_targeted(recs: Seq<Seq<char>>, own: Seq<char>)
    ensures
        forall|i: int|
            0 <= i < targets_of(recs, own).len() ==> !same_ignoring_case(
                #[trigger] targets_of(recs, own)[i],
                with_exe_suffix(own),
            ),
    decreases recs.len(),
{
    if recs.len() > 0 {
        let p = recs.drop_last();
        lemma_own_name_never_targeted(p, own);
        let r = targets_of(p, own);
        let t = with_exe_suffix(recs.last());
        assert forall|i: int| 0 <= i < targets_of(recs, own).len() implies !same_ignoring_case(
            #[trigger] targets_of(recs, own)[i],
            with_exe_suffix(own),
        ) by {
            if i < r.len() {
                assert(targets_of(recs, own)[i] == r[i]);
            }
        }
    }
}

/// In the companion check, a listing that shows the companion running leads
/// to no launch: the UI is registered instead.
pub proof fn lemma_running_companion_not_relaunched(s: Supervisor, ps: Vec<ProcessEntry>)
    requires
        s.phase == Phase::CompanionCheck,
        !s.awaiting,
        s.companion matches Some(c) && runs(ps@, c.exe_name@),
    ensures
        next(s, Event::ProcessesListed(ps)).1 == ActionModel::RegisterUi,
        after(s, Event::ProcessesListed(ps)).phase == Phase::Active,
{
}

} // verus!
