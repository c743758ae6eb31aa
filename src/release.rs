use vstd::prelude::*;

use crate::addon::{addons_folder, Addon};
use crate::location::AddonLocation;
use crate::path::{join, join_path};

verus! {

/// `keys`, the folder holding public and private keys.
pub open spec fn keys_folder() -> Seq<char> {
    seq!['k', 'e', 'y', 's']
}

/// `releases`, the folder holding every release and the project-wide keys.
pub open spec fn releases_folder() -> Seq<char> {
    seq!['r', 'e', 'l', 'e', 'a', 's', 'e', 's']
}

/// `releases/{version}/@{modname}`.
pub open spec fn release_folder_spec(version: Seq<char>, modname: Seq<char>) -> Seq<char> {
    join(join(releases_folder(), version), seq!['@'] + modname)
}

/// The root of one release: `releases/{version}/@{modname}`.
pub fn release_folder(version: &str, modname: &str) -> (r: String)
    ensures
        r@ == release_folder_spec(version@, modname@),
{
    proof {
        reveal_strlit("releases");
        reveal_strlit("@");
    }
    assert("releases"@ =~= releases_folder());
    let base = join_path("releases", version);
    let mut own = String::from_str("@");
    own.append(modname);
    join_path(base.as_str(), own.as_str())
}

/// The project-wide folder of keys: `releases/keys`.
pub fn project_keys_folder() -> (r: String)
    ensures
        r@ == join(releases_folder(), keys_folder()),
{
    proof {
        reveal_strlit("releases");
        reveal_strlit("keys");
    }
    assert("releases"@ =~= releases_folder());
    assert("keys"@ =~= keys_folder());
    join_path("releases", "keys")
}

/// The directories a release needs before any addon is written into it.
pub open spec fn layout_spec(root: Seq<char>) -> Seq<Seq<char>> {
    seq![join(root, addons_folder()), join(root, keys_folder())]
}

/// The skeleton of a release: `{root}/addons` and `{root}/keys`.
pub fn layout_dirs(release_root: &str) -> (r: Vec<String>)
    ensures
        r.deep_view() == layout_spec(release_root@),
{
    proof {
        reveal_strlit("addons");
        reveal_strlit("keys");
    }
    let addons = join_path(release_root, "addons");
    let keys = join_path(release_root, "keys");
    let ghost (a, k) = (addons@, keys@);
    assert("addons"@ =~= addons_folder());
    assert("keys"@ =~= keys_folder());
    let r = vec![addons, keys];
    assert(r@[0].deep_view() == a && r@[1].deep_view() == k);
    assert(r.deep_view() =~= layout_spec(release_root@));
    r
}

/// The directories of `required` that `existing` lacks, in order.
pub open spec fn missing(required: Seq<Seq<char>>, existing: Seq<Seq<char>>) -> Seq<Seq<char>> {
    required.filter(|d: Seq<char>| !existing.contains(d))
}

fn contains_path(dirs: &Vec<String>, dir: &String) -> (r: bool)
    ensures
        r == dirs.deep_view().contains(dir@),
{
    let mut i: usize = 0;
    while i < dirs.len()
        invariant
            i <= dirs.len(),
            forall|j: int| 0 <= j < i ==> dirs.deep_view()[j] != dir@,
        decreases dirs.len() - i,
    {
        if dirs[i] == *dir {
            assert(dirs.deep_view()[i as int] == dir@);
            return true;
        }
        i += 1;
    }
    false
}

/// The directories still to create so that every one of `required` exists,
/// given those that already do.
pub fn dirs_to_create(required: &Vec<String>, existing: &Vec<String>) -> (r: Vec<String>)
    ensures
        r.deep_view() == missing(required.deep_view(), existing.deep_view()),
{
    let ghost req = required.deep_view();
    let ghost ex = existing.deep_view();
    let mut r: Vec<String> = Vec::new();
    let mut i: usize = 0;
    while i < required.len()
        invariant
            i <= required.len(),
            req == required.deep_view(),
            ex == existing.deep_view(),
            r.deep_view() == missing(req.subrange(0, i as int), ex),
        decreases required.len() - i,
    {
        let dir = &required[i];
        let ghost next = req.subrange(0, i + 1);
        assert(next.drop_last() =~= req.subrange(0, i as int));
        assert(next.last() == dir@);
        proof {
            reveal(Seq::filter);
        }
        let present = contains_path(existing, dir);
        if !present {
            let ghost before = r.deep_view();
            r.push(dir.clone());
            assert(r.deep_view() =~= before.push(dir@));
        }
        i += 1;
    }
    assert(req.subrange(0, required.len() as int) =~= req);
    r
}

/// Creating what `dirs_to_create` names leaves nothing to create: preparing a
/// release twice on the same root asks for no directory the second time.
pub proof fn law_prepare_idempotent(required: Seq<Seq<char>>, existing: Seq<Seq<char>>)
    ensures
        missing(required, existing + missing(required, existing)).len() == 0,
{
    let first = missing(required, existing);
    let after = existing + first;
    let pred = |d: Seq<char>| !after.contains(d);
    assert forall|i: int| 0 <= i < required.len() implies !pred(required[i]) by {
        let d = required[i];
        if existing.contains(d) {
            let k = choose|k: int| 0 <= k < existing.len() && existing[k] == d;
            assert(after[k] == d);
        } else {
            required.lemma_filter_contains(|d: Seq<char>| !existing.contains(d), i);
            assert(first.contains(d));
            let k = choose|k: int| 0 <= k < first.len() && first[k] == d;
            assert(after[existing.len() + k] == d);
        }
    }
    required.lemma_all_neg_filter_empty(pred);
}

/// How the signing key of a release is obtained.
#[derive(Clone, Copy, Debug, PartialEq, Eq, Structural)]
pub enum KeyAction {
    /// A fresh key kept in memory for this run only.
    GenerateInMemory,
    /// A fresh key, written under the project-wide keys folder.
    GenerateAndPersist,
    /// The key persisted by an earlier run, read back.
    ReadPersisted,
}

pub open spec fn key_action_spec(reuse_private_key: bool, persisted: bool) -> KeyAction {
    if !reuse_private_key {
        KeyAction::GenerateInMemory
    } else if persisted {
        KeyAction::ReadPersisted
    } else {
        KeyAction::GenerateAndPersist
    }
}

/// Whether a private key is persisted once a key was obtained.
pub open spec fn persisted_after(reuse_private_key: bool, persisted: bool) -> bool {
    persisted || reuse_private_key
}

/// The way to obtain the signing key, from the project's choice to reuse a
/// private key and whether one is persisted already.
pub fn key_action(reuse_private_key: bool, persisted: bool) -> (r: KeyAction)
    ensures
        r == key_action_spec(reuse_private_key, persisted),
{
    if !reuse_private_key {
        KeyAction::GenerateInMemory
    } else if persisted {
        KeyAction::ReadPersisted
    } else {
        KeyAction::GenerateAndPersist
    }
}

/// With a reused key, every run after the first reads back the key that the
/// first persisted, so two runs sign with the same private key; without
/// reuse, every run generates a key of its own and persists none.
pub proof fn law_key_persistence(persisted: bool)
    ensures
        key_action_spec(true, persisted_after(true, persisted)) == KeyAction::ReadPersisted,
        persisted ==> key_action_spec(true, persisted) == KeyAction::ReadPersisted,
        persisted_after(true, persisted),
        key_action_spec(false, persisted) == KeyAction::GenerateInMemory,
        key_action_spec(false, persisted_after(false, persisted)) == KeyAction::GenerateInMemory,
        persisted_after(false, persisted) == persisted,
{
}

/// `{keyname}.bikey` or `{keyname}.biprivatekey`.
pub open spec fn key_file_spec(keyname: Seq<char>, private: bool) -> Seq<char> {
    if private {
        keyname + seq!['.', 'b', 'i', 'p', 'r', 'i', 'v', 'a', 't', 'e', 'k', 'e', 'y']
    } else {
        keyname + seq!['.', 'b', 'i', 'k', 'e', 'y']
    }
}

/// Path of the public or private key named `keyname` in `folder`.
pub fn key_path(folder: &str, keyname: &str, private: bool) -> (r: String)
    ensures
        r@ == join(folder@, key_file_spec(keyname@, private)),
{
    proof {
        reveal_strlit(".biprivatekey");
        reveal_strlit(".bikey");
    }
    let mut file = String::from_str(keyname);
    if private {
        file.append(".biprivatekey");
    } else {
        file.append(".bikey");
    }
    join_path(folder, file.as_str())
}

/// Whether an addon of `location` goes into a mod of its own: the project
/// asks for it, and only optional and compatibility addons are nested.
pub open spec fn nests_spec(location: AddonLocation, nest_into_own_mods: bool) -> bool {
    nest_into_own_mods && !(location is Addons)
}

/// The standalone mod an addon is nested into, if any.
pub open spec fn nesting_spec(
    location: AddonLocation,
    modname: Seq<char>,
    nest_into_own_mods: bool,
) -> Option<Seq<char>> {
    if nests_spec(location, nest_into_own_mods) {
        Some(modname)
    } else {
        None
    }
}

/// The folder of the release that receives the packed archive of `addon`:
/// its category's folder, or `@{modname}_{name}/addons` inside it where the
/// addon is nested into a mod of its own. The flag tells whether the nesting
/// breaks the policy for core addons.
pub fn unit_folder(
    release_root: &str,
    addon: &Addon,
    modname: &str,
    nest_into_own_mods: bool,
) -> (r: (String, bool))
    ensures
        r.0@ == addon.parent_spec(
            release_root@,
            nesting_spec(addon.location, modname@, nest_into_own_mods),
        ),
        r.1 == (nesting_spec(addon.location, modname@, nest_into_own_mods) is Some
            && addon.location is Addons),
{
    let nests = nest_into_own_mods && !matches!(addon.location, AddonLocation::Addons);
    let standalone = if nests {
        Some(modname)
    } else {
        None
    };
    addon.destination_parent_with_policy(release_root, standalone)
}

/// The addon name in the stem of a packed archive: what follows
/// `{prefix}_`, or the whole stem when it does not start so.
pub open spec fn addon_name_of(stem: Seq<char>, prefix: Seq<char>) -> Seq<char> {
    let lead = prefix + seq!['_'];
    if stem.len() >= lead.len() && stem.subrange(0, lead.len() as int) == lead {
        stem.subrange(lead.len() as int, stem.len() as int)
    } else {
        stem
    }
}

/// The addon name of the archive `{prefix}_{name}.pbo`, from its stem.
pub fn archive_addon_name(stem: &str, prefix: &str) -> (r: String)
    ensures
        r@ == addon_name_of(stem@, prefix@),
{
    let ghost lead = prefix@ + seq!['_'];
    let n = stem.unicode_len();
    let k = prefix.unicode_len();
    if n <= k {
        return String::from_str(stem);
    }
    let mut i: usize = 0;
    while i < k
        invariant
            i <= k,
            k < n,
            n == stem@.len(),
            k == prefix@.len(),
            lead == prefix@ + seq!['_'],
            forall|j: int| 0 <= j < i ==> stem@[j] == prefix@[j],
        decreases k - i,
    {
        if stem.get_char(i) != prefix.get_char(i) {
            assert(stem@.subrange(0, lead.len() as int)[i as int] != lead[i as int]);
            return String::from_str(stem);
        }
        i += 1;
    }
    if stem.get_char(k) != '_' {
        assert(stem@.subrange(0, lead.len() as int)[k as int] != lead[k as int]);
        return String::from_str(stem);
    }
    assert(stem@.subrange(0, lead.len() as int) =~= lead);
    String::from_str(stem.substring_char(k + 1, n))
}

/// Whether the archives of a category are released: core always, the others
/// only where their folder exists.
pub fn processes_category(location: &AddonLocation, folder_exists: bool) -> (r: bool)
    ensures
        r == (location is Addons || folder_exists),
{
    matches!(location, AddonLocation::Addons) || folder_exists
}

/// The step of a unit of work that failed.
#[derive(Clone, Copy, Debug, PartialEq, Eq, Structural)]
pub enum Stage {
    /// The archive's addon name was refused.
    Name,
    Copy,
    Sign,
}

/// One failed unit of work: which archive, of which category, at which step,
/// and why.
#[derive(Clone, Debug, PartialEq, Eq)]
pub struct UnitFailure {
    pub archive: String,
    pub location: AddonLocation,
    pub stage: Stage,
    pub message: String,
}

/// What became of one discovered archive.
#[derive(Clone, Debug, PartialEq, Eq)]
pub enum UnitOutcome {
    Signed,
    SkippedNotAFile,
    Failed(UnitFailure),
}

/// What became of one archive, from what its steps reported: an entry that
/// is not a file is skipped; otherwise the first step that failed, in the
/// order name, copy, sign, makes the failure; with none, it was signed.
pub fn unit_outcome(
    archive: String,
    location: AddonLocation,
    is_file: bool,
    name_error: Option<String>,
    copy_error: Option<String>,
    sign_error: Option<String>,
) -> (r: UnitOutcome)
    ensures
        !is_file ==> r == UnitOutcome::SkippedNotAFile,
        is_file && name_error is Some ==> r == UnitOutcome::Failed(
            (UnitFailure { archive, location, stage: Stage::Name, message: name_error->0 }),
        ),
        is_file && name_error is None && copy_error is Some ==> r == UnitOutcome::Failed(
            (UnitFailure { archive, location, stage: Stage::Copy, message: copy_error->0 }),
        ),
        is_file && name_error is None && copy_error is None && sign_error is Some ==> r
            == UnitOutcome::Failed(
            (UnitFailure { archive, location, stage: Stage::Sign, message: sign_error->0 }),
        ),
        is_file && name_error is None && copy_error is None && sign_error is None ==> r
            == UnitOutcome::Signed,
{
    if !is_file {
        return UnitOutcome::SkippedNotAFile;
    }
    let failed = match (name_error, copy_error, sign_error) {
        (Some(message), _, _) => (Stage::Name, message),
        (None, Some(message), _) => (Stage::Copy, message),
        (None, None, Some(message)) => (Stage::Sign, message),
        (None, None, None) => {
            return UnitOutcome::Signed;
        },
    };
    UnitOutcome::Failed(UnitFailure { archive, location, stage: failed.0, message: failed.1 })
}

/// Number of `Signed` outcomes.
pub open spec fn signed_count(s: Seq<UnitOutcome>) -> nat
    decreases s.len(),
{
    if s.len() == 0 {
        0
    } else {
        signed_count(s.drop_last()) + if s.last() is Signed { 1nat } else { 0nat }
    }
}

/// The failures among the outcomes, in order.
pub open spec fn failures_of(s: Seq<UnitOutcome>) -> Seq<UnitFailure>
    decreases s.len(),
{
    if s.len() == 0 {
        Seq::empty()
    } else {
        match s.last() {
            UnitOutcome::Failed(f) => failures_of(s.drop_last()).push(f),
            _ => failures_of(s.drop_last()),
        }
    }
}

proof fn lemma_signed_count_bound(s: Seq<UnitOutcome>)
    ensures
        signed_count(s) <= s.len(),
    decreases s.len(),
{
    if s.len() > 0 {
        lemma_signed_count_bound(s.drop_last());
    }
}

/// The result of a release: how many archives were signed, and the units that
/// failed.
#[derive(Debug)]
pub struct ReleaseSummary {
    pub signed: usize,
    pub failures: Vec<UnitFailure>,
}

impl ReleaseSummary {
    /// Nothing signed, nothing failed.
    pub fn new() -> (r: Self)
        ensures
            r.signed == 0,
            r.failures@ == Seq::<UnitFailure>::empty(),
    {
        ReleaseSummary { signed: 0, failures: Vec::new() }
    }

    /// Counts a signed archive once, and keeps a failure.
    pub fn record(&mut self, outcome: UnitOutcome)
        requires
            old(self).signed < usize::MAX,
        ensures
            final(self).signed == old(self).signed + if outcome is Signed { 1int } else { 0int },
            final(self).failures@ == match outcome {
                UnitOutcome::Failed(f) => old(self).failures@.push(f),
                _ => old(self).failures@,
            },
    {
        match outcome {
            UnitOutcome::Signed => {
                self.signed = self.signed + 1;
            },
            UnitOutcome::SkippedNotAFile => {},
            UnitOutcome::Failed(f) => {
                self.failures.push(f);
            },
        }
    }
}

/// The summary of all units of a release once every one has reported: the
/// number of signed archives and every failure, in the order given.
pub fn aggregate(outcomes: Vec<UnitOutcome>) -> (r: ReleaseSummary)
    ensures
        r.signed == signed_count(outcomes@),
        r.failures@ == failures_of(outcomes@),
{
    let ghost all = outcomes@;
    let total = outcomes.len();
    let mut rest = outcomes;
    let mut summary = ReleaseSummary::new();
    let mut i: usize = 0;
    while rest.len() > 0
        invariant
            i + rest@.len() == all.len(),
            all.len() == total,
            rest@ == all.subrange(i as int, all.len() as int),
            summary.signed == signed_count(all.subrange(0, i as int)),
            summary.failures@ == failures_of(all.subrange(0, i as int)),
        decreases rest@.len(),
    {
        let outcome = rest.remove(0);
        let ghost next = all.subrange(0, i + 1);
        assert(next.drop_last() =~= all.subrange(0, i as int));
        assert(next.last() == outcome);
        proof {
            lemma_signed_count_bound(all.subrange(0, i as int));
        }
        summary.record(outcome);
        i += 1;
        assert(rest@ =~= all.subrange(i as int, all.len() as int));
    }
    assert(all.subrange(0, i as int) =~= all);
    summary
}

/// Size of the worker pool: the requested number of jobs, or the number of
/// available processing units when none was requested.
pub fn job_count(requested: usize, available: usize) -> (r: usize)
    ensures
        r == if requested == 0 { available } else { requested },
{
    if requested == 0 {
        available
    } else {
        requested
    }
}

} // verus!
