//! The reconciler: from a validated configuration and the previously managed
//! names, the plan that brings the output directory and the registry in line
//! with the desired instances.
use vstd::prelude::*;
use crate::names::{
    artifact_name, exe_name, exe_suffix, is_name_char, is_profile_name, is_valid_profile_name,
};
use crate::registry::{
    file_records, is_plain_record, lemma_obsolete_set, lemma_records_of_lines, line_feed, lines_file,
    lines_text, obsolete, registry_names, remove_obsolete,
};
use crate::text::{eq_ignoring_case, lemma_views_prefix, lemma_views_push, same_ignoring_case, views};

verus! {

/// The configuration schema version that this reconciler understands.
pub const CONFIG_VERSION: u32 = 1;

/// The output directory used when the configuration names none.
pub const DEFAULT_OUTPUT_DIR: &'static str = "dist";

/// How to launch the companion process.
pub struct CompanionSpec {
    pub path: String,
    pub args: Vec<String>,
    pub start_minimized: Option<bool>,
}

/// The validated configuration handed to the reconciler.
pub struct ReconcileConfig {
    pub version: u32,
    pub output_dir: Option<String>,
    pub profiles: Vec<String>,
    pub off_name: Option<String>,
    pub companion: Option<CompanionSpec>,
}

/// A configuration error; each one aborts the run before any change.
pub enum ReconcileError {
    /// The configuration has a schema version other than `CONFIG_VERSION`.
    UnsupportedVersion(u32),
    /// A profile or off name is not a valid profile name.
    InvalidName(String),
    /// The off name is also listed, up to case, as a profile.
    OffNameIsProfile(String),
}

/// What to write into the companion files.
pub struct CompanionFiles {
    /// The path file: the path on one line.
    pub path_text: String,
    /// The argument file, one argument per line; `None` when the file is to
    /// be removed.
    pub args_text: Option<String>,
    /// The start-minimized file: `true` or `false` on one line.
    pub start_minimized_text: String,
}

/// The changes that one reconciliation makes, in order: remove the obsolete
/// artifacts (tolerating those already gone), copy the template to each
/// artifact of `create`, write the family file, write the off file (or
/// remove it when `off_text` is `None`), and write the companion files when
/// `companion` is given.
pub struct ReconcilePlan {
    pub remove: Vec<String>,
    pub create: Vec<String>,
    pub family_text: String,
    pub off_text: Option<String>,
    pub companion: Option<CompanionFiles>,
}

/// The part of a plan that decides the managed set and the artifacts.
pub ghost struct PlanModel {
    pub remove: Seq<Seq<char>>,
    pub create: Seq<Seq<char>>,
    pub family_text: Seq<char>,
    pub off_text: Option<Seq<char>>,
}

impl ReconcilePlan {
    pub open spec fn model(&self) -> PlanModel {
        PlanModel {
            remove: views(self.remove@),
            create: views(self.create@),
            family_text: self.family_text@,
            off_text: match self.off_text {
                Some(t) => Some(t@),
                None => None,
            },
        }
    }
}

/// The view of an optional string.
pub open spec fn opt_view(o: Option<String>) -> Option<Seq<char>> {
    match o {
        Some(s) => Some(s@),
        None => None,
    }
}

/// The one-element sequence of an optional value, or the empty one.
pub open spec fn opt_seq(o: Option<Seq<char>>) -> Seq<Seq<char>> {
    match o {
        Some(x) => seq![x],
        None => Seq::empty(),
    }
}

/// The instance names of a configuration: the profiles, then the off name.
pub open spec fn instance_names(profiles: Seq<Seq<char>>, off: Option<Seq<char>>) -> Seq<
    Seq<char>,
> {
    profiles + opt_seq(off)
}

/// The artifact names of a sequence of instance names.
pub open spec fn artifacts_of(names: Seq<Seq<char>>) -> Seq<Seq<char>> {
    names.map_values(|n: Seq<char>| artifact_name(n))
}

/// The desired set: the artifact names of the profiles and of the off name.
pub open spec fn desired_set(profiles: Seq<Seq<char>>, off: Option<Seq<char>>) -> Set<Seq<char>> {
    artifacts_of(instance_names(profiles, off)).to_set()
}

/// The off file of a configuration: the off artifact name on one line, or
/// no file.
pub open spec fn off_file(off: Option<Seq<char>>) -> Option<Seq<char>> {
    match off {
        Some(o) => Some(lines_text(seq![artifact_name(o)])),
        None => None,
    }
}

/// The plan for `profiles` and `off`, given the previously managed names.
pub open spec fn plan_model(
    profiles: Seq<Seq<char>>,
    off: Option<Seq<char>>,
    prev: Seq<Seq<char>>,
) -> PlanModel {
    PlanModel {
        remove: obsolete(prev, desired_set(profiles, off)),
        create: artifacts_of(instance_names(profiles, off)),
        family_text: lines_text(artifacts_of(profiles)),
        off_text: off_file(off),
    }
}

/// The artifacts present after a plan has run on a directory holding
/// `before`.
pub open spec fn artifacts_after(before: Set<Seq<char>>, plan: PlanModel) -> Set<Seq<char>> {
    before.difference(plan.remove.to_set()).union(plan.create.to_set())
}

/// All names are valid profile names.
pub open spec fn all_valid(names: Seq<Seq<char>>) -> bool {
    forall|i: int| 0 <= i < names.len() ==> is_profile_name(#[trigger] names[i])
}

/// `i` is the position of the first invalid name.
pub open spec fn first_invalid_at(names: Seq<Seq<char>>, i: int) -> bool {
    &&& 0 <= i < names.len()
    &&& !is_profile_name(names[i])
    &&& forall|j: int| 0 <= j < i ==> is_profile_name(#[trigger] names[j])
}

/// The off name equals one of the profiles, up to case.
pub open spec fn off_is_profile(profiles: Seq<Seq<char>>, off: Option<Seq<char>>) -> bool {
    off matches Some(o) && exists|i: int|
        0 <= i < profiles.len() && same_ignoring_case(#[trigger] profiles[i], o)
}

/// The files written for a companion spec.
pub open spec fn companion_files_of(c: CompanionSpec, f: CompanionFiles) -> bool {
    &&& f.path_text@ == c.path@ + seq!['\n']
    &&& f.args_text matches Some(t) ==> c.args@.len() > 0 && t@ == lines_text(views(c.args@))
    &&& f.args_text is None ==> c.args@.len() == 0
    &&& f.start_minimized_text@ == (if c.start_minimized != Some(false) {
        seq!['t', 'r', 'u', 'e', '\n']
    } else {
        seq!['f', 'a', 'l', 's', 'e', '\n']
    })
}

impl ReconcileConfig {
    /// The profile names of the configuration.
    pub open spec fn profile_names(&self) -> Seq<Seq<char>> {
        views(self.profiles@)
    }

    /// The off name of the configuration.
    pub open spec fn off(&self) -> Option<Seq<char>> {
        opt_view(self.off_name)
    }

    /// The output directory: the configured one, else `DEFAULT_OUTPUT_DIR`.
    pub fn output_dir(&self) -> (r: String)
        ensures
            r@ == (match self.output_dir {
                Some(d) => d@,
                None => DEFAULT_OUTPUT_DIR@,
            }),
    {
        match &self.output_dir {
            Some(d) => d.clone(),
            None => String::from_str(DEFAULT_OUTPUT_DIR),
        }
    }
}

/// The files to write for a companion spec.
pub fn companion_files(c: &CompanionSpec) -> (r: CompanionFiles)
    ensures
        companion_files_of(*c, r),
{
    let mut path_text = c.path.clone();
    path_text.append(line_feed());
    let args_text = if c.args.len() == 0 {
        None
    } else {
        Some(lines_file(&c.args))
    };
    proof {
        reveal_strlit("true\n");
        reveal_strlit("false\n");
    }
    let start_minimized_text = match c.start_minimized {
        Some(false) => {
            let t = String::from_str("false\n");
            assert(t@ =~= seq!['f', 'a', 'l', 's', 'e', '\n']);
            t
        },
        _ => {
            let t = String::from_str("true\n");
            assert(t@ =~= seq!['t', 'r', 'u', 'e', '\n']);
            t
        },
    };
    CompanionFiles { path_text, args_text, start_minimized_text }
}

/// The artifact names of `names`, in order.
pub fn artifact_names(names: &Vec<String>) -> (r: Vec<String>)
    ensures
        views(r@) == artifacts_of(views(names@)),
{
    let mut r: Vec<String> = Vec::new();
    let mut i: usize = 0;
    while i < names.len()
        invariant
            i <= names@.len(),
            views(r@) == artifacts_of(views(names@).subrange(0, i as int)),
        decreases names@.len() - i,
    {
        let a = exe_name(names[i].as_str());
        let ghost old_r = r@;
        let ghost a_view = a;
        r.push(a);
        proof {
            lemma_views_push(old_r, a_view);
            lemma_views_prefix(names@, i as int);
            let pre = views(names@).subrange(0, i as int);
            assert(artifacts_of(pre.push(names@[i as int]@)) =~= artifacts_of(pre).push(
                artifact_name(names@[i as int]@),
            ));
        }
        i = i + 1;
    }
    assert(views(names@).subrange(0, names@.len() as int) == views(names@));
    r
}

/// Checks a configuration before anything is changed: the schema version,
/// then each profile name and the off name in order, then that the off name
/// is not also a profile.
pub fn validate_config(cfg: &ReconcileConfig) -> (r: Result<(), ReconcileError>)
    ensures
        ({
            let names = instance_names(cfg.profile_names(), cfg.off());
            match r {
                Ok(()) => cfg.version == CONFIG_VERSION && all_valid(names) && !off_is_profile(
                    cfg.profile_names(),
                    cfg.off(),
                ),
                Err(ReconcileError::UnsupportedVersion(v)) => cfg.version != CONFIG_VERSION && v
                    == cfg.version,
                Err(ReconcileError::InvalidName(n)) => cfg.version == CONFIG_VERSION && exists|
                    i: int,
                | first_invalid_at(names, i) && n@ == names[i],
                Err(ReconcileError::OffNameIsProfile(n)) => cfg.version == CONFIG_VERSION
                    && all_valid(names) && off_is_profile(cfg.profile_names(), cfg.off())
                    && cfg.off() == Some(n@),
            }
        }),
{
    if cfg.version != CONFIG_VERSION {
        return Err(ReconcileError::UnsupportedVersion(cfg.version));
    }
    let ghost profiles = cfg.profile_names();
    let ghost names = instance_names(profiles, cfg.off());
    let mut i: usize = 0;
    while i < cfg.profiles.len()
        invariant
            i <= cfg.profiles@.len(),
            cfg.version == CONFIG_VERSION,
            profiles == cfg.profile_names(),
            names == instance_names(profiles, cfg.off()),
            forall|j: int| 0 <= j < i ==> is_profile_name(#[trigger] names[j]),
        decreases cfg.profiles@.len() - i,
    {
        assert(names[i as int] == cfg.profiles@[i as int]@);
        if !is_valid_profile_name(cfg.profiles[i].as_str()) {
            assert(first_invalid_at(names, i as int));
            let n = cfg.profiles[i].clone();
            assert(n@ == names[i as int]);
            return Err(ReconcileError::InvalidName(n));
        }
        i = i + 1;
    }
    match &cfg.off_name {
        None => {
            assert(names =~= profiles);
            Ok(())
        },
        Some(off) => {
            let k = cfg.profiles.len();
            assert(names[k as int] == off@);
            if !is_valid_profile_name(off.as_str()) {
                assert(first_invalid_at(names, k as int));
                let n = off.clone();
                assert(n@ == names[k as int]);
                return Err(ReconcileError::InvalidName(n));
            }
            assert(all_valid(names)) by {
                assert forall|m: int| 0 <= m < names.len() implies is_profile_name(
                    #[trigger] names[m],
                ) by {
                    if m < k {
                        assert(names[m] == profiles[m]);
                    }
                }
            }
            let mut j: usize = 0;
            while j < cfg.profiles.len()
                invariant
                    j <= cfg.profiles@.len(),
                    cfg.version == CONFIG_VERSION,
                    cfg.off() == Some(off@),
                    all_valid(names),
                    names == instance_names(profiles, cfg.off()),
                    profiles == cfg.profile_names(),
                    forall|m: int| 0 <= m < j ==> !same_ignoring_case(#[trigger] profiles[m], off@),
                decreases cfg.profiles@.len() - j,
            {
                assert(profiles[j as int] == cfg.profiles@[j as int]@);
                if eq_ignoring_case(cfg.profiles[j].as_str(), off.as_str()) {
                    assert(same_ignoring_case(profiles[j as int], off@));
                    assert(off_is_profile(profiles, cfg.off()));
                    return Err(ReconcileError::OffNameIsProfile(off.clone()));
                }
                j = j + 1;
            }
            Ok(())
        },
    }
}

/// Plans one reconciliation of `cfg` against the names that the previous
/// one left in charge. Fails, before any change, exactly when the
/// configuration is invalid.
pub fn plan_reconcile(cfg: &ReconcileConfig, prev: &Vec<String>) -> (r: Result<
    ReconcilePlan,
    ReconcileError,
>)
    ensures
        ({
            let names = instance_names(cfg.profile_names(), cfg.off());
            let valid = cfg.version == CONFIG_VERSION && all_valid(names) && !off_is_profile(
                cfg.profile_names(),
                cfg.off(),
            );
            match r {
                Ok(p) => {
                    &&& valid
                    &&& p.model() == plan_model(cfg.profile_names(), cfg.off(), views(prev@))
                    &&& p.companion is Some <==> cfg.companion is Some
                    &&& p.companion matches Some(f) ==> companion_files_of(cfg.companion->Some_0, f)
                },
                Err(ReconcileError::UnsupportedVersion(v)) => cfg.version != CONFIG_VERSION && v
                    == cfg.version,
                Err(ReconcileError::InvalidName(n)) => cfg.version == CONFIG_VERSION && exists|
                    i: int,
                | first_invalid_at(names, i) && n@ == names[i],
                Err(ReconcileError::OffNameIsProfile(n)) => cfg.version == CONFIG_VERSION
                    && all_valid(names) && off_is_profile(cfg.profile_names(), cfg.off())
                    && cfg.off() == Some(n@),
            }
        }),
{
    match validate_config(cfg) {
        Err(e) => {
            return Err(e);
        },
        Ok(()) => {},
    }
    let ghost profiles = cfg.profile_names();
    let ghost off = cfg.off();
    let family = artifact_names(&cfg.profiles);
    let family_text = lines_file(&family);
    let mut create = family.clone();
    let off_text = match &cfg.off_name {
        None => {
            assert(instance_names(profiles, off) =~= profiles);
            None
        },
        Some(o) => {
            let a = exe_name(o.as_str());
            let mut one: Vec<String> = Vec::new();
            one.push(a.clone());
            let t = lines_file(&one);
            assert(views(one@) =~= seq![artifact_name(o@)]);
            let ghost c0 = views(create@);
            create.push(a);
            assert(views(create@) =~= c0.push(artifact_name(o@)));
            assert(artifacts_of(instance_names(profiles, off)) =~= artifacts_of(profiles).push(
                artifact_name(o@),
            ));
            Some(t)
        },
    };
    let remove = remove_obsolete(prev, &create);
    let companion = match &cfg.companion {
        Some(c) => Some(companion_files(c)),
        None => None,
    };
    Ok(ReconcilePlan { remove, create, family_text, off_text, companion })
}

/// The artifact name of a valid profile name reads back unchanged from a
/// registry file.
pub proof fn lemma_artifact_is_plain(n: Seq<char>)
    requires
        is_profile_name(n),
    ensures
        is_plain_record(artifact_name(n)),
{
    let a = artifact_name(n);
    assert(is_name_char(n[0]));
    assert(a[0] == n[0]);
    assert(a.last() == 'e');
    assert forall|j: int| 0 <= j < a.len() implies #[trigger] a[j] != '\n' by {
        if j < n.len() {
            assert(a[j] == n[j]);
            assert(is_name_char(n[j]));
        } else {
            assert(a[j] == exe_suffix()[j - n.len()]);
        }
    }
}

proof fn lemma_artifacts_plain(names: Seq<Seq<char>>)
    requires
        all_valid(names),
    ensures
        forall|i: int|
            0 <= i < artifacts_of(names).len() ==> is_plain_record(#[trigger] artifacts_of(names)[i]),
{
    assert forall|i: int| 0 <= i < artifacts_of(names).len() implies is_plain_record(
        #[trigger] artifacts_of(names)[i],
    ) by {
        assert(is_profile_name(names[i]));
        lemma_artifact_is_plain(names[i]);
    }
}

/// What the registry written by a plan reads back as: the artifacts of the
/// profiles, then that of the off name.
proof fn lemma_registry_reads_back(profiles: Seq<Seq<char>>, off: Option<Seq<char>>)
    requires
        all_valid(instance_names(profiles, off)),
    ensures
        file_records(Some(lines_text(artifacts_of(profiles)))) + file_records(off_file(off))
            == artifacts_of(instance_names(profiles, off)),
{
    let names = instance_names(profiles, off);
    assert(all_valid(profiles)) by {
        assert forall|i: int| 0 <= i < profiles.len() implies is_profile_name(
            #[trigger] profiles[i],
        ) by {
            assert(names[i] == profiles[i]);
        }
    }
    lemma_artifacts_plain(profiles);
    lemma_records_of_lines(artifacts_of(profiles));
    match off {
        Some(o) => {
            assert(names[profiles.len() as int] == o);
            lemma_artifact_is_plain(o);
            let one = seq![artifact_name(o)];
            assert forall|i: int| 0 <= i < one.len() implies is_plain_record(#[trigger] one[i]) by {}
            lemma_records_of_lines(one);
            assert(artifacts_of(names) =~= artifacts_of(profiles) + one);
        },
        None => {
            assert(names =~= profiles);
            assert(artifacts_of(profiles) + Seq::<Seq<char>>::empty() =~= artifacts_of(profiles));
        },
    }
}

/// After a reconciliation the registry describes exactly the desired set
/// (the artifacts of the profiles and of the off name), and among the names
/// that were managed before or are desired now, an artifact exists exactly
/// for the desired ones.
pub proof fn lemma_reconcile_reaches_desired(
    profiles: Seq<Seq<char>>,
    off: Option<Seq<char>>,
    prev: Seq<Seq<char>>,
    before: Set<Seq<char>>,
)
    requires
        all_valid(instance_names(profiles, off)),
    ensures
        ({
            let plan = plan_model(profiles, off, prev);
            let d = desired_set(profiles, off);
            &&& registry_names(Some(plan.family_text), plan.off_text) == d
            &&& forall|n: Seq<char>|
                prev.contains(n) || d.contains(n) ==> (artifacts_after(before, plan).contains(n)
                    <==> d.contains(n))
        }),
{
    let plan = plan_model(profiles, off, prev);
    let d = desired_set(profiles, off);
    lemma_registry_reads_back(profiles, off);
    lemma_obsolete_set(prev, d);
    assert forall|n: Seq<char>| prev.contains(n) || d.contains(n) implies (artifacts_after(
        before,
        plan,
    ).contains(n) <==> d.contains(n)) by {
        if !d.contains(n) {
            assert(prev.to_set().contains(n));
            assert(plan.remove.to_set().contains(n));
        }
    }
}

/// Reconciling a second time with the same configuration, against the
/// registry that the first run wrote, removes nothing and leaves the managed
/// set, the registry files and the artifacts as the first run left them.
pub proof fn lemma_reconcile_idempotent(
    profiles: Seq<Seq<char>>,
    off: Option<Seq<char>>,
    prev: Seq<Seq<char>>,
    prev2: Seq<Seq<char>>,
    before: Set<Seq<char>>,
)
    requires
        all_valid(instance_names(profiles, off)),
        prev2.to_set() == registry_names(
            Some(plan_model(profiles, off, prev).family_text),
            plan_model(profiles, off, prev).off_text,
        ),
    ensures
        ({
            let p1 = plan_model(profiles, off, prev);
            let p2 = plan_model(profiles, off, prev2);
            let after1 = artifacts_after(before, p1);
            &&& p2.remove.len() == 0
            &&& p2.create == p1.create
            &&& p2.family_text == p1.family_text
            &&& p2.off_text == p1.off_text
            &&& registry_names(Some(p2.family_text), p2.off_text) == registry_names(
                Some(p1.family_text),
                p1.off_text,
            )
            &&& artifacts_after(after1, p2) == after1
        }),
{
    let p1 = plan_model(profiles, off, prev);
    let p2 = plan_model(profiles, off, prev2);
    let d = desired_set(profiles, off);
    lemma_reconcile_reaches_desired(profiles, off, prev, before);
    lemma_obsolete_set(prev2, d);
    assert(p2.remove.to_set() =~= Set::empty());
    if p2.remove.len() > 0 {
        assert(p2.remove.to_set().contains(p2.remove[0]));
    }
    let after1 = artifacts_after(before, p1);
    assert(artifacts_after(after1, p2) =~= after1);
}

/// Removal goes by difference: the plan removes exactly the previously
/// managed names that are no longer desired, and a name both managed and
/// desired is never removed but rewritten.
pub proof fn lemma_removal_is_difference(
    profiles: Seq<Seq<char>>,
    off: Option<Seq<char>>,
    prev: Seq<Seq<char>>,
)
    ensures
        ({
            let plan = plan_model(profiles, off, prev);
            let d = desired_set(profiles, off);
            &&& plan.remove.to_set() == prev.to_set().difference(d)
            &&& forall|n: Seq<char>|
                prev.contains(n) && d.contains(n) ==> !plan.remove.contains(n)
                    && plan.create.contains(n)
        }),
{
    let plan = plan_model(profiles, off, prev);
    let d = desired_set(profiles, off);
    lemma_obsolete_set(prev, d);
    assert forall|n: Seq<char>| prev.contains(n) && d.contains(n) implies !plan.remove.contains(
        n,
    ) && plan.create.contains(n) by {
        if plan.remove.contains(n) {
            assert(plan.remove.to_set().contains(n));
        }
        assert(plan.create.to_set().contains(n));
    }
}

} // verus!
