//! Switching to an environment: every replacement of the environment is
//! applied, in order, to every file it names. Every file is read and every
//! replacement computed before anything is written, so a file that cannot be
//! read or a replacement that fails leaves every file as it was. A dry run
//! shows, once per file, the change that all its replacements make together.
//!
//! The switch is a state machine. The program around it performs each
//! [`SwitchAction`] (checking files, reading, writing, printing) and hands the
//! outcome back as a [`SwitchEvent`], until the machine finishes or fails.

use crate::config::{Config, Replacement};
use crate::error::{prefixed, regex_parse_error_text, IoErrorKind, KoseiError};
use crate::config::loader::config_problem;
use crate::replacer::engine::{apply, apply_outcome, lemma_validated_config_applies};
use crate::text::texts;
use vstd::prelude::*;

verus! {

/// Where a switch stands.
#[derive(Clone, Copy, Debug, PartialEq, Eq, Structural)]
pub enum SwitchPhase {
    /// The dry-run banner is being shown.
    Announcing,
    /// The existence of the files is being checked.
    Checking,
    /// A file that no earlier replacement named is being read.
    Reading,
    /// The new content of a file is being written; all are computed.
    Writing,
    /// The diff of a changed file is being shown; all are computed.
    Showing,
    /// Nothing more is to be done.
    Finished,
}

/// How a successful switch ends.
#[derive(Clone, Copy, Debug, PartialEq, Eq, Structural)]
pub enum SwitchReport {
    /// Nothing more to say: a dry run that showed changes.
    Quiet,
    /// A dry run found nothing to change.
    NoChanges,
    /// The files were rewritten for the environment.
    Switched,
}

/// What the switch asks the program around it to do next.
#[derive(Debug)]
pub enum SwitchAction {
    /// Print this warning; the switch is over and succeeded.
    Warn(String),
    /// Show the dry-run banner, then answer `Done`.
    AnnounceDryRun,
    /// Tell, for each of these files (relative to the configuration's
    /// directory), whether it exists: answer `Checked`.
    CheckFiles(Vec<String>),
    /// Read this file: answer `Read` or `ReadFailed`.
    Read(String),
    /// Write this content to this file: answer `Done` or `WriteFailed`.
    Write(String, String),
    /// Show, under this file's name, the diff from the first text to the
    /// second, then answer `Done`.
    ShowDiff(String, String, String),
    /// The switch is over and succeeded.
    Finish(SwitchReport),
    /// The switch is over and failed with this error.
    Fail(KoseiError),
}

/// What the program around the switch reports back.
#[derive(Debug)]
pub enum SwitchEvent {
    /// The banner, the write or the diff asked for is done.
    Done,
    /// Whether each file asked about exists, in the order asked.
    Checked(Vec<bool>),
    /// The content of the file asked for.
    Read(String),
    /// The file could not be read: its full path, the error's text and kind.
    ReadFailed(String, String, IoErrorKind),
    /// The file could not be written: its full path, the error's text and kind.
    WriteFailed(String, String, IoErrorKind),
}


/// The files a switch goes through, in order, each with the position of the
/// replacement that applies to it: the files of the first replacement, then
/// those of the second, and so on. A file named twice is visited twice.
pub open spec fn switch_targets(reps: Seq<Replacement>) -> Seq<(int, Seq<char>)>
    decreases reps.len(),
{
    if reps.len() == 0 {
        seq![]
    } else {
        switch_targets(reps.drop_last()) + reps.last().files@.map_values(
            |f: String| (reps.len() - 1, f@),
        )
    }
}

proof fn lemma_switch_targets_bound(reps: Seq<Replacement>)
    ensures
        forall|k: int|
            0 <= k < switch_targets(reps).len() ==> 0 <= #[trigger] switch_targets(reps)[k].0
                < reps.len(),
    decreases reps.len(),
{
    if reps.len() > 0 {
        lemma_switch_targets_bound(reps.drop_last());
        let front = switch_targets(reps.drop_last());
        assert forall|k: int|
            0 <= k < switch_targets(reps).len() implies 0 <= #[trigger] switch_targets(
            reps,
        )[k].0 < reps.len() by {
            if k < front.len() {
                assert(switch_targets(reps)[k] == front[k]);
            }
        }
    }
}

/// The views of a list of targets.
pub open spec fn target_views(t: Seq<(usize, String)>) -> Seq<(int, Seq<char>)> {
    t.map_values(|p: (usize, String)| (p.0 as int, p.1@))
}

/// The file names of a list of targets.
pub open spec fn target_files(t: Seq<(int, Seq<char>)>) -> Seq<Seq<char>> {
    t.map_values(|p: (int, Seq<char>)| p.1)
}

/// The warning for an environment that has no replacements.
pub open spec fn no_replacements_warning(name: Seq<char>) -> Seq<char> {
    "warning: environment '"@ + name + "' has no replacements defined \u{2014} nothing will be changed"@
}

/// The list of the files among `files` that do not exist, each on a line of
/// its own; `exists[i]` tells whether `files[i]` exists.
pub open spec fn missing_list(files: Seq<Seq<char>>, exists: Seq<bool>) -> Seq<char>
    decreases files.len(),
{
    if files.len() == 0 {
        seq![]
    } else {
        missing_list(files.drop_last(), exists) + if exists[files.len() - 1] {
            seq![]
        } else {
            "  - "@ + files.last() + "\n"@
        }
    }
}

/// The message of a switch whose files do not all exist.
pub open spec fn missing_message(files: Seq<Seq<char>>, exists: Seq<bool>) -> Seq<char> {
    "There were issues resolving files from paths:\n"@ + missing_list(files, exists)
}

/// How a successful switch ends, given whether it is a dry run and whether
/// it found a change.
pub open spec fn report_for(dry_run: bool, any_change: bool) -> SwitchReport {
    if !dry_run {
        SwitchReport::Switched
    } else if any_change {
        SwitchReport::Quiet
    } else {
        SwitchReport::NoChanges
    }
}

/// The files among `ts`, each once, in the order of their first mention.
pub open spec fn distinct_files(ts: Seq<(int, Seq<char>)>) -> Seq<Seq<char>>
    decreases ts.len(),
{
    if ts.len() == 0 {
        seq![]
    } else {
        let d = distinct_files(ts.drop_last());
        if d.contains(ts.last().1) {
            d
        } else {
            d.push(ts.last().1)
        }
    }
}

/// The content of file `f`, which held `original`, after the replacements
/// of the targets `ts` that name `f` are applied to it in order; or the
/// message of the first of them that fails.
pub open spec fn content_after(
    reps: Seq<Replacement>,
    ts: Seq<(int, Seq<char>)>,
    f: Seq<char>,
    original: Seq<char>,
) -> Result<Seq<char>, Seq<char>>
    decreases ts.len(),
{
    if ts.len() == 0 {
        Ok(original)
    } else {
        match content_after(reps, ts.drop_last(), f, original) {
            Err(m) => Err(m),
            Ok(c) => if ts.last().1 == f {
                let r = reps[ts.last().0];
                apply_outcome(c, r.regex@, r.value@)
            } else {
                Ok(c)
            },
        }
    }
}

/// Before any target, a file holds what it held; each further target applies
/// its replacement to what its file holds after the targets before it,
/// whatever those did (a failure stays a failure), and leaves every other
/// file as it was. So the final content of a file is its original with every
/// replacement that names it applied in turn.
pub proof fn lemma_each_target_applies_to_current_content(
    reps: Seq<Replacement>,
    ts: Seq<(int, Seq<char>)>,
    r: int,
    g: Seq<char>,
    f: Seq<char>,
    original: Seq<char>,
)
    ensures
        content_after(reps, seq![], f, original) == Ok::<Seq<char>, Seq<char>>(original),
        content_after(reps, ts.push((r, g)), f, original) == if g == f {
            match content_after(reps, ts, f, original) {
                Err(m) => Err(m),
                Ok(c) => apply_outcome(c, reps[r].regex@, reps[r].value@),
            }
        } else {
            content_after(reps, ts, f, original)
        },
{
    assert(ts.push((r, g)).drop_last() =~= ts);
    assert(ts.push((r, g)).last() == (r, g));
}

proof fn lemma_distinct_files(ts: Seq<(int, Seq<char>)>)
    ensures
        distinct_files(ts).no_duplicates(),
        forall|f: Seq<char>|
            #[trigger] distinct_files(ts).contains(f) <==> exists|j: int|
                0 <= j < ts.len() && ts[j].1 == f,
    decreases ts.len(),
{
    if ts.len() > 0 {
        let front = ts.drop_last();
        lemma_distinct_files(front);
        let d = distinct_files(front);
        assert forall|f: Seq<char>| #[trigger]
            distinct_files(ts).contains(f) <==> exists|j: int| 0 <= j < ts.len() && ts[j].1 == f by {
            if distinct_files(ts).contains(f) {
                if d.contains(f) {
                    let j = choose|j: int| 0 <= j < front.len() && front[j].1 == f;
                    assert(ts[j] == front[j]);
                } else {
                    assert(f == ts.last().1);
                    assert(ts[ts.len() - 1].1 == f);
                }
            }
            if exists|j: int| 0 <= j < ts.len() && ts[j].1 == f {
                let j = choose|j: int| 0 <= j < ts.len() && ts[j].1 == f;
                if j < ts.len() - 1 {
                    assert(front[j] == ts[j]);
                    assert(d.contains(f));
                    if !d.contains(ts.last().1) {
                        assert(d.push(ts.last().1)[d.index_of(f)] == f);
                    }
                } else if !d.contains(ts.last().1) {
                    assert(d.push(ts.last().1)[d.len() as int] == f);
                }
            }
        }
        if !d.contains(ts.last().1) {
            assert forall|a: int, b: int|
                0 <= a < b < d.push(ts.last().1).len() implies d.push(ts.last().1)[a] != d.push(
                ts.last().1,
            )[b] by {
                if b == d.len() {
                    assert(d[a] == d.push(ts.last().1)[a]);
                }
            }
        }
    }
}

proof fn lemma_content_untouched(
    reps: Seq<Replacement>,
    ts: Seq<(int, Seq<char>)>,
    f: Seq<char>,
    original: Seq<char>,
)
    requires
        !distinct_files(ts).contains(f),
    ensures
        content_after(reps, ts, f, original) == Ok::<Seq<char>, Seq<char>>(original),
    decreases ts.len(),
{
    if ts.len() > 0 {
        lemma_distinct_files(ts);
        lemma_distinct_files(ts.drop_last());
        if distinct_files(ts.drop_last()).contains(f) {
            let j = choose|j: int| 0 <= j < ts.drop_last().len() && ts.drop_last()[j].1 == f;
            assert(ts[j].1 == f);
        }
        if ts.last().1 == f {
            assert(ts[ts.len() - 1].1 == f);
        }
        lemma_content_untouched(reps, ts.drop_last(), f, original);
    }
}

/// The rank of a phase: a switch only moves to phases of equal or higher
/// rank, reading (rank 2) ends before writing (rank 3) begins.
pub open spec fn phase_rank(p: SwitchPhase) -> int {
    match p {
        SwitchPhase::Announcing => 0,
        SwitchPhase::Checking => 1,
        SwitchPhase::Reading => 2,
        SwitchPhase::Writing => 3,
        SwitchPhase::Showing => 3,
        SwitchPhase::Finished => 4,
    }
}

/// A switch in progress.
pub struct Switch<'a> {
    replacements: &'a Vec<Replacement>,
    targets: Vec<(usize, String)>,
    dry_run: bool,
    phase: SwitchPhase,
    next: usize,
    files: Vec<String>,
    originals: Vec<String>,
    contents: Vec<String>,
    out: usize,
    any_change: bool,
}

impl<'a> Switch<'a> {
    /// The replacements being applied.
    pub closed spec fn replacements(&self) -> Seq<Replacement> {
        self.replacements@
    }

    /// The files to go through, each with its replacement's position.
    pub closed spec fn targets(&self) -> Seq<(int, Seq<char>)> {
        target_views(self.targets@)
    }

    /// Whether this is a dry run, which writes nothing.
    pub closed spec fn dry_run(&self) -> bool {
        self.dry_run
    }

    /// Where the switch stands.
    pub closed spec fn phase(&self) -> SwitchPhase {
        self.phase
    }

    /// How many targets have been dealt with.
    pub closed spec fn next(&self) -> int {
        self.next as int
    }

    /// The files read so far, in the order they were read.
    pub closed spec fn files(&self) -> Seq<Seq<char>> {
        texts(self.files@)
    }

    /// What each file read so far held when it was read.
    pub closed spec fn originals(&self) -> Seq<Seq<char>> {
        texts(self.originals@)
    }

    /// What each file read so far holds after the replacements dealt with.
    pub closed spec fn contents(&self) -> Seq<Seq<char>> {
        texts(self.contents@)
    }

    /// The position, among the files, of the one being written or shown.
    pub closed spec fn out(&self) -> int {
        self.out as int
    }

    /// The contents computed so far are those that the replacements of the
    /// targets dealt with give: every file those targets name has been read,
    /// once, in the order of first mention (the file of the next target may
    /// already have been read too), and each content is its original with
    /// those targets' replacements applied.
    pub open spec fn consistent(&self) -> bool {
        let done = self.targets().take(self.next());
        &&& 0 <= self.next() <= self.targets().len()
        &&& (self.files() == distinct_files(done) || (self.next() < self.targets().len()
            && !distinct_files(done).contains(self.targets()[self.next()].1) && self.files()
            == distinct_files(done).push(self.targets()[self.next()].1)))
        &&& self.originals().len() == self.files().len()
        &&& self.contents().len() == self.files().len()
        &&& forall|i: int|
            0 <= i < self.files().len() ==> content_after(
                self.replacements(),
                done,
                #[trigger] self.files()[i],
                self.originals()[i],
            ) == Ok::<Seq<char>, Seq<char>>(self.contents()[i])
    }

    /// Whether some file's computed content differs from what it held.
    pub open spec fn any_file_changed(&self) -> bool {
        exists|j: int|
            0 <= j < self.files().len() && #[trigger] self.contents()[j] != self.originals()[j]
    }

    /// Where the search for the next changed file to show starts, after
    /// this switch took its last step.
    pub open spec fn shown_from(&self) -> int {
        if self.phase() == SwitchPhase::Showing {
            self.out() + 1
        } else {
            0
        }
    }

    /// The part of the machine's invariant that does not depend on its phase.
    closed spec fn wf_data(&self) -> bool {
        &&& target_views(self.targets@) == switch_targets(self.replacements@)
        &&& forall|k: int|
            0 <= k < self.targets@.len() ==> (#[trigger] self.targets@[k]).0
                < self.replacements@.len()
        &&& self.next <= self.targets@.len()
        &&& self.originals@.len() == self.files@.len()
        &&& self.contents@.len() == self.files@.len()
    }

    /// The machine's invariant.
    pub closed spec fn wf(&self) -> bool {
        &&& self.wf_data()
        &&& (self.phase == SwitchPhase::Announcing || self.phase == SwitchPhase::Checking)
            ==> self.next == 0 && self.files@.len() == 0
        &&& self.phase == SwitchPhase::Reading ==> {
            &&& self.consistent()
            &&& self.next < self.targets@.len()
            &&& self.files() == distinct_files(self.targets().take(self.next()))
            &&& !self.files().contains(self.targets()[self.next()].1)
        }
        &&& self.phase == SwitchPhase::Writing ==> {
            &&& self.consistent()
            &&& self.next == self.targets@.len()
            &&& self.out < self.files@.len()
            &&& !self.dry_run
        }
        &&& self.phase == SwitchPhase::Showing ==> {
            &&& self.consistent()
            &&& self.next == self.targets@.len()
            &&& self.out < self.files@.len()
            &&& self.dry_run
            &&& self.any_change
            &&& self.contents()[self.out()] != self.originals()[self.out()]
        }
    }

    /// Whether the switch, where it stands, takes `event`.
    pub open spec fn accepts(&self, event: SwitchEvent) -> bool {
        match event {
            SwitchEvent::Done => self.phase() == SwitchPhase::Announcing || self.phase()
                == SwitchPhase::Writing || self.phase() == SwitchPhase::Showing,
            SwitchEvent::Checked(exists) => self.phase() == SwitchPhase::Checking && exists@.len()
                == self.targets().len(),
            SwitchEvent::Read(_) => self.phase() == SwitchPhase::Reading,
            SwitchEvent::ReadFailed(..) => self.phase() == SwitchPhase::Reading,
            SwitchEvent::WriteFailed(..) => self.phase() == SwitchPhase::Writing,
        }
    }

    /// What a step from `before` to `after` that asks for `action` promises
    /// of the action, whatever the event: reads and failing replacements only
    /// before anything is written, and read failures too; every failure ends
    /// the switch; once the output has begun, the files and their contents
    /// stay as computed; writes of each file's final content, one file after
    /// the other, only outside a dry run; in a dry run, one diff per changed
    /// file, in order, from what it held to its final content; and how the
    /// switch ends.
    pub open spec fn step_action(before: Switch<'a>, after: Switch<'a>, action: SwitchAction) -> bool {
        let n = after.targets().len();
        &&& !(action is Warn) && !(action is AnnounceDryRun)
        &&& action is CheckFiles ==> before.phase() == SwitchPhase::Announcing && after.phase()
            == SwitchPhase::Checking
        &&& phase_rank(before.phase()) >= 3 ==> {
            &&& after.files() == before.files()
            &&& after.originals() == before.originals()
            &&& after.contents() == before.contents()
        }
        &&& (action is Read || action matches SwitchAction::Fail(KoseiError::RegexApplyError(_))
            || action matches SwitchAction::Fail(KoseiError::FileReadError(_, _))) ==> phase_rank(
            before.phase(),
        ) <= 2
        &&& action is Fail ==> after.phase() == SwitchPhase::Finished
        &&& action is Write ==> !before.dry_run()
        &&& action is ShowDiff ==> before.dry_run()
        &&& action matches SwitchAction::Read(f) ==> {
            &&& after.phase() == SwitchPhase::Reading
            &&& after.consistent()
            &&& after.next() < n
            &&& f@ == after.targets()[after.next()].1
            &&& !after.files().contains(f@)
        }
        &&& action matches SwitchAction::Fail(KoseiError::RegexApplyError(e)) ==> {
            &&& after.phase() == SwitchPhase::Finished
            &&& after.consistent()
            &&& after.next() < n
            &&& exists|i: int|
                0 <= i < after.files().len() && #[trigger] after.files()[i]
                    == after.targets()[after.next()].1 && (apply_outcome(
                    after.contents()[i],
                    after.replacements()[after.targets()[after.next()].0].regex@,
                    after.replacements()[after.targets()[after.next()].0].value@,
                ) matches Err(m) && e@ == "replacement failed for `"@ + after.files()[i] + "`: "@
                    + regex_parse_error_text(m))
        }
        &&& action matches SwitchAction::Write(f, t) ==> {
            &&& after.phase() == SwitchPhase::Writing
            &&& after.next() == n
            &&& after.consistent()
            &&& 0 <= after.out() < after.files().len()
            &&& after.out() == if before.phase() == SwitchPhase::Writing {
                before.out() + 1
            } else {
                0
            }
            &&& f@ == after.files()[after.out()]
            &&& t@ == after.contents()[after.out()]
        }
        &&& action matches SwitchAction::ShowDiff(f, a, b) ==> {
            &&& after.phase() == SwitchPhase::Showing
            &&& after.next() == n
            &&& after.consistent()
            &&& before.shown_from() <= after.out() < after.files().len()
            &&& f@ == after.files()[after.out()]
            &&& a@ == after.originals()[after.out()]
            &&& b@ == after.contents()[after.out()]
            &&& a@ != b@
            &&& forall|j: int|
                before.shown_from() <= j < after.out() ==> #[trigger] after.contents()[j]
                    == after.originals()[j]
        }
        &&& action matches SwitchAction::Finish(r) ==> {
            &&& after.phase() == SwitchPhase::Finished
            &&& after.next() == n
            &&& after.consistent()
            &&& r == report_for(after.dry_run(), after.any_file_changed())
            &&& after.dry_run() ==> forall|j: int|
                before.shown_from() <= j < after.files().len() ==> #[trigger] after.contents()[j]
                    == after.originals()[j]
            &&& !after.dry_run() ==> if before.phase() == SwitchPhase::Writing {
                before.out() + 1 == after.files().len()
            } else {
                after.files().len() == 0
            }
        }
    }

    /// The list of files to check, in order.
    fn target_names(&self) -> (names: Vec<String>)
        requires
            self.wf_data(),
        ensures
            texts(names@) == target_files(self.targets()),
    {
        let mut names: Vec<String> = Vec::new();
        for k in 0..self.targets.len()
            invariant
                texts(names@) == target_files(self.targets()).take(k as int),
        {
            let ghost before = names@;
            names.push(self.targets[k].1.clone());
            assert(texts(names@) =~= texts(before).push(self.targets@[k as int].1@));
            assert(target_files(self.targets()).take(k + 1) =~= target_files(
                self.targets(),
            ).take(k as int).push(self.targets@[k as int].1@));
        }
        assert(target_files(self.targets()).take(self.targets@.len() as int) =~= target_files(
            self.targets(),
        ));
        names
    }

    /// The position of `f` among the files read so far.
    fn find_file(&self, f: &str) -> (res: Option<usize>)
        ensures
            match res {
                Some(i) => i < self.files@.len() && self.files()[i as int] == f@,
                None => !self.files().contains(f@),
            },
    {
        for i in 0..self.files.len()
            invariant
                forall|j: int| 0 <= j < i ==> self.files()[j] != f@,
        {
            if crate::text::str_equal(self.files[i].as_str(), f) {
                return Some(i);
            }
        }
        None
    }

    /// Asks for the output of the computed contents, from file `out` on:
    /// outside a dry run, a write of each file; in a dry run, a diff of each
    /// changed one; then the end of the switch.
    #[verifier::spinoff_prover]
    fn emit(&mut self) -> (action: SwitchAction)
        requires
            old(self).wf_data(),
            old(self).consistent(),
            old(self).next() == old(self).targets().len(),
            old(self).out() <= old(self).files().len(),
            old(self).dry_run() ==> (old(self).any_change <==> exists|j: int|
                0 <= j < old(self).out() && #[trigger] old(self).contents()[j]
                    != old(self).originals()[j]),
        ensures
            final(self).wf(),
            final(self).replacements() == old(self).replacements(),
            final(self).targets() == old(self).targets(),
            final(self).dry_run() == old(self).dry_run(),
            final(self).next() == old(self).next(),
            final(self).files() == old(self).files(),
            final(self).originals() == old(self).originals(),
            final(self).contents() == old(self).contents(),
            final(self).consistent(),
            old(self).out() <= final(self).out() <= final(self).files().len(),
            !old(self).dry_run() ==> if old(self).out() < old(self).files().len() {
                &&& final(self).phase() == SwitchPhase::Writing
                &&& final(self).out() == old(self).out()
                &&& action matches SwitchAction::Write(f, t) && f@ == final(self).files()[final(self).out()] && t@ == final(self).contents()[final(self).out()]
            } else {
                &&& final(self).phase() == SwitchPhase::Finished
                &&& action matches SwitchAction::Finish(r) && r == SwitchReport::Switched
            },
            old(self).dry_run() ==> {
                &&& forall|j: int|
                    old(self).out() <= j < final(self).out() ==> #[trigger] final(self).contents()[j]
                        == final(self).originals()[j]
                &&& if final(self).out() < final(self).files().len() {
                    &&& final(self).phase() == SwitchPhase::Showing
                    &&& action matches SwitchAction::ShowDiff(f, a, b) && {
                        &&& f@ == final(self).files()[final(self).out()]
                        &&& a@ == final(self).originals()[final(self).out()]
                        &&& b@ == final(self).contents()[final(self).out()]
                        &&& a@ != b@
                    }
                } else {
                    &&& final(self).phase() == SwitchPhase::Finished
                    &&& action matches SwitchAction::Finish(r) && r == report_for(
                        true,
                        final(self).any_file_changed(),
                    )
                }
            },
    {
        if !self.dry_run {
            if self.out < self.files.len() {
                self.phase = SwitchPhase::Writing;
                return SwitchAction::Write(
                    self.files[self.out].clone(),
                    self.contents[self.out].clone(),
                );
            } else {
                self.phase = SwitchPhase::Finished;
                return SwitchAction::Finish(SwitchReport::Switched);
            }
        }
        let ghost start = self.out as int;
        while self.out < self.files.len()
            invariant
                self.wf_data(),
                self.consistent(),
                self.dry_run,
                self.next() == self.targets().len(),
                start <= self.out() <= self.files().len(),
                self.files() == old(self).files(),
                self.originals() == old(self).originals(),
                self.contents() == old(self).contents(),
                self.replacements() == old(self).replacements(),
                self.targets() == old(self).targets(),
                self.any_change <==> exists|j: int|
                    0 <= j < self.out() && #[trigger] self.contents()[j] != self.originals()[j],
                forall|j: int|
                    start <= j < self.out() ==> #[trigger] self.contents()[j]
                        == self.originals()[j],
            ensures
                self.out() < self.files().len() ==> self.contents()[self.out()]
                    != self.originals()[self.out()],
            decreases self.files@.len() - self.out,
        {
            if !crate::text::str_equal(
                self.contents[self.out].as_str(),
                self.originals[self.out].as_str(),
            ) {
                break;
            }
            let ghost o = self.out as int;
            self.out = self.out + 1;
            proof {
                assert(self.contents()[o] == self.originals()[o]);
                if exists|j: int|
                    0 <= j < self.out() && #[trigger] self.contents()[j] != self.originals()[j] {
                    let j = choose|j: int|
                        0 <= j < self.out() && #[trigger] self.contents()[j]
                            != self.originals()[j];
                    assert(j < o);
                }
            }
        }
        assert(forall|j: int|
            old(self).out() <= j < self.out() ==> #[trigger] self.contents()[j]
                == self.originals()[j]);
        if self.out < self.files.len() {
            self.any_change = true;
            self.phase = SwitchPhase::Showing;
            SwitchAction::ShowDiff(
                self.files[self.out].clone(),
                self.originals[self.out].clone(),
                self.contents[self.out].clone(),
            )
        } else {
            self.phase = SwitchPhase::Finished;
            assert(self.out() == self.files().len());
            assert(self.any_change == self.any_file_changed()) by {
                if self.any_change {
                    let j = choose|j: int|
                        0 <= j < self.out() && #[trigger] self.contents()[j]
                            != self.originals()[j];
                    assert(0 <= j < self.files().len() && self.contents()[j]
                        != self.originals()[j]);
                }
                if self.any_file_changed() {
                    let j = choose|j: int|
                        0 <= j < self.files().len() && #[trigger] self.contents()[j]
                            != self.originals()[j];
                    assert(0 <= j < self.out() && self.contents()[j] != self.originals()[j]);
                }
            }
            let report = if self.any_change {
                SwitchReport::Quiet
            } else {
                SwitchReport::NoChanges
            };
            SwitchAction::Finish(report)
        }
    }

    /// Deals with the targets from `next` on, as far as it can without
    /// reading: each target whose file is already read gets its replacement
    /// applied to that file's content. Stops at the first target whose file
    /// is not read yet (asking to read it), at the first replacement that
    /// fails, or after the last target (asking for the output).
    fn advance(&mut self) -> (action: SwitchAction)
        requires
            old(self).wf_data(),
            old(self).consistent(),
            old(self).phase() == SwitchPhase::Checking || old(self).phase()
                == SwitchPhase::Reading,
        ensures
            final(self).wf(),
            final(self).replacements() == old(self).replacements(),
            final(self).targets() == old(self).targets(),
            final(self).dry_run() == old(self).dry_run(),
            final(self).files() == old(self).files(),
            final(self).originals() == old(self).originals(),
            action is Read || action is Write || action is ShowDiff || action is Finish
                || action matches SwitchAction::Fail(KoseiError::RegexApplyError(_)),
            Self::step_action(*old(self), *final(self), action),
    {
        let reps: &'a Vec<Replacement> = self.replacements;
        while self.next < self.targets.len()
            invariant
                self.wf_data(),
                self.consistent(),
                *self.replacements == *reps,
                self.replacements() == old(self).replacements(),
                self.targets() == old(self).targets(),
                self.dry_run == old(self).dry_run,
                self.files() == old(self).files(),
                self.originals() == old(self).originals(),
                old(self).phase() == SwitchPhase::Checking || old(self).phase()
                    == SwitchPhase::Reading,
            decreases self.targets@.len() - self.next,
        {
            let k = self.next;
            let r = self.targets[k].0;
            let ghost done = self.targets().take(k as int);
            let ghost f = self.targets()[k as int].1;
            proof {
                assert(self.targets()[k as int] == (r as int, self.targets@[k as int].1@));
                lemma_distinct_files(done);
                lemma_distinct_files(self.targets().take(k + 1));
                assert(self.targets().take(k + 1).drop_last() =~= done);
                assert(self.targets().take(k + 1).last() == self.targets()[k as int]);
            }
            match self.find_file(self.targets[k].1.as_str()) {
                None => {
                    proof {
                        if self.files() != distinct_files(done) {
                            assert(self.files()[self.files().len() - 1] == f);
                        }
                    }
                    self.phase = SwitchPhase::Reading;
                    let name = self.targets[k].1.clone();
                    proof {
                        assert(name@ == self.targets()[self.next()].1);
                        assert(!self.files().contains(name@));
                    }
                    return SwitchAction::Read(name);
                },
                Some(i) => {
                    let ghost contents_before = self.contents();
                    match apply(self.contents[i].as_str(), &reps[r]) {
                        Err(e) => {
                            self.phase = SwitchPhase::Finished;
                            let mut msg = prefixed(
                                "replacement failed for `",
                                self.targets[k].1.as_str(),
                            );
                            msg.append("`: ");
                            msg.append(e.to_string().as_str());
                            proof {
                                let m = apply_outcome(
                                    contents_before[i as int],
                                    reps@[r as int].regex@,
                                    reps@[r as int].value@,
                                )->Err_0;
                                assert(self.files()[i as int] == self.targets()[self.next()].1);
                                assert(msg@ == "replacement failed for `"@ + self.files()[i as int]
                                    + "`: "@ + regex_parse_error_text(m));
                                let rep = self.replacements()[self.targets()[self.next()].0];
                                assert(rep == reps@[r as int]);
                                assert(self.contents()[i as int] == contents_before[i as int]);
                                assert(apply_outcome(self.contents()[i as int], rep.regex@, rep.value@)
                                    matches Err(m2) && msg@ == "replacement failed for `"@
                                    + self.files()[i as int] + "`: "@ + regex_parse_error_text(m2));
                            }
                            return SwitchAction::Fail(KoseiError::RegexApplyError(msg));
                        },
                        Ok(u) => {
                            proof {
                                // The files are those of the targets up to `k`.
                                if self.files() == distinct_files(done) {
                                    assert(distinct_files(done).contains(f));
                                } else {
                                    assert(self.files() == distinct_files(done).push(f));
                                }
                                assert(self.files() == distinct_files(
                                    self.targets().take(k + 1),
                                ));
                            }
                            let ghost u_view = u@;
                            self.contents.set(i, u);
                            proof {
                                assert(self.contents() =~= contents_before.update(
                                    i as int,
                                    u_view,
                                ));
                                let next_done = self.targets().take(k + 1);
                                assert forall|j: int| 0 <= j < self.files().len() implies content_after(
                                    self.replacements(),
                                    next_done,
                                    #[trigger] self.files()[j],
                                    self.originals()[j],
                                ) == Ok::<Seq<char>, Seq<char>>(self.contents()[j]) by {
                                    assert(content_after(
                                        self.replacements(),
                                        done,
                                        self.files()[j],
                                        self.originals()[j],
                                    ) == Ok::<Seq<char>, Seq<char>>(contents_before[j]));
                                    if j != i {
                                        assert(self.files()[j] != self.files()[i as int]);
                                    }
                                }
                            }
                            self.next = k + 1;
                        },
                    }
                },
            }
        }
        self.out = 0;
        self.any_change = false;
        self.emit()
    }
}

impl<'a> Switch<'a> {
    /// Starts switching `config` to the environment named `environment`.
    /// Fails with `EnvironmentNotFound` when the configuration does not define
    /// it. An environment without replacements is only warned about. A dry run
    /// first shows its banner; then the existence of every file is checked.
    pub fn start(config: &'a Config, environment: &str, dry_run: bool) -> (res: Result<
        (Switch<'a>, SwitchAction),
        KoseiError,
    >)
        ensures
            match config.position_of(environment@) {
                None => res matches Err(KoseiError::EnvironmentNotFound(m)) && m@
                    == config.not_found_message(environment@),
                Some(i) => res matches Ok((sw, action)) && {
                    &&& sw.wf()
                    &&& !(action is Write)
                    &&& sw.replacements() == config.environments@[i].1.replacements@
                    &&& sw.targets() == switch_targets(sw.replacements())
                    &&& sw.dry_run() == dry_run
                    &&& sw.next() == 0
                    &&& sw.files().len() == 0
                    &&& if sw.replacements().len() == 0 {
                        &&& sw.phase() == SwitchPhase::Finished
                        &&& action matches SwitchAction::Warn(w) && w@ == no_replacements_warning(
                            environment@,
                        )
                    } else if dry_run {
                        sw.phase() == SwitchPhase::Announcing && action is AnnounceDryRun
                    } else {
                        &&& sw.phase() == SwitchPhase::Checking
                        &&& action matches SwitchAction::CheckFiles(files) && texts(files@)
                            == target_files(sw.targets())
                    }
                },
            },
    {
        let env = match config.environment(environment) {
            Ok(env) => env,
            Err(e) => return Err(e),
        };
        let replacements = &env.replacements;
        let targets = targets_of(replacements);
        let mut sw = Switch {
            replacements,
            targets,
            dry_run,
            phase: SwitchPhase::Checking,
            next: 0,
            files: Vec::new(),
            originals: Vec::new(),
            contents: Vec::new(),
            out: 0,
            any_change: false,
        };
        if replacements.len() == 0 {
            sw.phase = SwitchPhase::Finished;
            let mut msg = prefixed("warning: environment '", environment);
            msg.append("' has no replacements defined \u{2014} nothing will be changed");
            return Ok((sw, SwitchAction::Warn(msg)));
        }
        if dry_run {
            sw.phase = SwitchPhase::Announcing;
            return Ok((sw, SwitchAction::AnnounceDryRun));
        }
        let names = sw.target_names();
        Ok((sw, SwitchAction::CheckFiles(names)))
    }

    /// Takes the outcome of the last action and says what to do next.
    pub fn step(&mut self, event: SwitchEvent) -> (action: SwitchAction)
        requires
            old(self).wf(),
            old(self).accepts(event),
        ensures
            final(self).wf(),
            final(self).replacements() == old(self).replacements(),
            final(self).targets() == old(self).targets(),
            final(self).dry_run() == old(self).dry_run(),
            phase_rank(final(self).phase()) >= phase_rank(old(self).phase()),
            old(self).dry_run() ==> !(action is Write),
            Self::step_action(*old(self), *final(self), action),
            !(event is Read) ==> final(self).files() == old(self).files() && final(self).originals() == old(self).originals(),
            event matches SwitchEvent::Read(content) ==> {
                &&& final(self).files() == old(self).files().push(
                    old(self).targets()[old(self).next()].1,
                )
                &&& final(self).originals() == old(self).originals().push(content@)
                &&& (action is Read || action is Write || action is ShowDiff || action is Finish
                    || action matches SwitchAction::Fail(KoseiError::RegexApplyError(_)))
            },
            event is Done && old(self).phase() == SwitchPhase::Announcing ==> {
                &&& final(self).phase() == SwitchPhase::Checking
                &&& action matches SwitchAction::CheckFiles(files) && texts(files@)
                    == target_files(old(self).targets())
            },
            event is Done && old(self).phase() == SwitchPhase::Writing ==> action is Write
                || action is Finish,
            event is Done && old(self).phase() == SwitchPhase::Showing ==> action is ShowDiff
                || action is Finish,
            event matches SwitchEvent::Checked(exists) ==> if exists@.contains(false) {
                &&& final(self).phase() == SwitchPhase::Finished
                &&& action matches SwitchAction::Fail(KoseiError::FileReadError(m, kind)) && kind
                    == IoErrorKind::NotFound && m@ == missing_message(
                    target_files(old(self).targets()),
                    exists@,
                )
            } else {
                action is Read || action is Write || action is ShowDiff || action is Finish
                    || action matches SwitchAction::Fail(KoseiError::RegexApplyError(_))
            },
            event matches SwitchEvent::ReadFailed(path, detail, kind) ==> {
                &&& final(self).phase() == SwitchPhase::Finished
                &&& action matches SwitchAction::Fail(KoseiError::FileReadError(m, k)) && k
                    == kind && m@ == "cannot read `"@ + path@ + "`: "@ + detail@
            },
            event matches SwitchEvent::WriteFailed(path, detail, kind) ==> {
                &&& final(self).phase() == SwitchPhase::Finished
                &&& action matches SwitchAction::Fail(KoseiError::FileWriteError(m, k)) && k
                    == kind && m@ == "cannot write `"@ + path@ + "`: "@ + detail@
            },
    {
        match event {
            SwitchEvent::Done => {
                if self.phase == SwitchPhase::Announcing {
                    self.phase = SwitchPhase::Checking;
                    let names = self.target_names();
                    SwitchAction::CheckFiles(names)
                } else {
                    let count = self.files.len();
                    assert(self.out < count);
                    self.out = self.out + 1;
                    proof {
                        if self.dry_run {
                            assert(self.contents()[self.out() - 1] != self.originals()[self.out()
                                - 1]);
                        }
                    }
                    self.emit()
                }
            },
            SwitchEvent::Checked(exists) => {
                let names = self.target_names();
                let ghost files = target_files(self.targets());
                let mut list = String::new();
                let mut any_missing = false;
                for k in 0..exists.len()
                    invariant
                        exists@.len() == files.len(),
                        texts(names@) == files,
                        list@ == missing_list(files.take(k as int), exists@),
                        any_missing == exists@.take(k as int).contains(false),
                {
                    assert(files.take(k + 1).drop_last() =~= files.take(k as int));
                    assert(files.take(k + 1).last() == files[k as int]);
                    assert(exists@.take(k + 1) =~= exists@.take(k as int).push(exists@[k as int]));
                    if !exists[k] {
                        any_missing = true;
                        list.append("  - ");
                        list.append(names[k].as_str());
                        list.append("\n");
                    }
                    assert(exists@.take(k + 1).contains(false) == (exists@.take(
                        k as int,
                    ).contains(false) || !exists@[k as int])) by {
                        if exists@.take(k + 1).contains(false) {
                            let j = choose|j: int|
                                0 <= j < k + 1 && #[trigger] exists@.take(k + 1)[j] == false;
                            if j < k {
                                assert(exists@.take(k as int)[j] == false);
                            }
                        }
                        if exists@.take(k as int).contains(false) {
                            let j = choose|j: int|
                                0 <= j < k && #[trigger] exists@.take(k as int)[j] == false;
                            assert(exists@.take(k + 1)[j] == false);
                        }
                        if !exists@[k as int] {
                            assert(exists@.take(k + 1)[k as int] == false);
                        }
                    }
                }
                assert(files.take(files.len() as int) =~= files);
                assert(exists@.take(exists@.len() as int) =~= exists@);
                if any_missing {
                    self.phase = SwitchPhase::Finished;
                    let msg = prefixed(
                        "There were issues resolving files from paths:\n",
                        list.as_str(),
                    );
                    SwitchAction::Fail(KoseiError::FileReadError(msg, IoErrorKind::NotFound))
                } else {
                    assert(self.targets().take(0) =~= Seq::<(int, Seq<char>)>::empty());
                    assert(self.files() =~= Seq::<Seq<char>>::empty());
                    self.advance()
                }
            },
            SwitchEvent::Read(content) => {
                let k = self.next;
                let ghost f = self.targets()[k as int].1;
                let ghost done = self.targets().take(k as int);
                proof {
                    lemma_content_untouched(self.replacements(), done, f, content@);
                }
                let ghost files_before = self.files();
                let ghost originals_before = self.originals();
                let ghost contents_before = self.contents();
                self.files.push(self.targets[k].1.clone());
                self.originals.push(content.clone());
                self.contents.push(content);
                proof {
                    assert(self.files() =~= files_before.push(f));
                    assert(self.originals() =~= originals_before.push(content@));
                    assert(self.contents() =~= contents_before.push(content@));
                    assert forall|j: int| 0 <= j < self.files().len() implies content_after(
                        self.replacements(),
                        done,
                        #[trigger] self.files()[j],
                        self.originals()[j],
                    ) == Ok::<Seq<char>, Seq<char>>(self.contents()[j]) by {
                        if j < files_before.len() {
                            assert(self.files()[j] == files_before[j]);
                            assert(self.originals()[j] == originals_before[j]);
                            assert(self.contents()[j] == contents_before[j]);
                        }
                    }
                }
                self.advance()
            },
            SwitchEvent::ReadFailed(path, detail, kind) => {
                self.phase = SwitchPhase::Finished;
                let mut msg = prefixed("cannot read `", path.as_str());
                msg.append("`: ");
                msg.append(detail.as_str());
                SwitchAction::Fail(KoseiError::FileReadError(msg, kind))
            },
            SwitchEvent::WriteFailed(path, detail, kind) => {
                self.phase = SwitchPhase::Finished;
                let mut msg = prefixed("cannot write `", path.as_str());
                msg.append("`: ");
                msg.append(detail.as_str());
                SwitchAction::Fail(KoseiError::FileWriteError(msg, kind))
            },
        }
    }
}

/// A finished switch, whether it succeeded or failed, takes no further
/// event: once it has failed, nothing more is read or written.
pub proof fn lemma_finished_switch_is_over<'a>(sw: Switch<'a>, event: SwitchEvent)
    requires
        sw.phase() == SwitchPhase::Finished,
    ensures
        !sw.accepts(event),
{
}

/// Whether `states` and `actions` record a run of one switch: each action is
/// one that a step from a state to the next may ask for, as `step` promises,
/// and no step starts from a finished switch, which takes no event.
pub open spec fn is_run<'a>(states: Seq<Switch<'a>>, actions: Seq<SwitchAction>) -> bool {
    &&& states.len() == actions.len() + 1
    &&& forall|k: int|
        #![trigger actions[k]]
        0 <= k < actions.len() ==> {
            &&& states[k].phase() != SwitchPhase::Finished
            &&& Switch::step_action(states[k], states[k + 1], actions[k])
            &&& phase_rank(states[k + 1].phase()) >= phase_rank(states[k].phase())
            &&& states[k + 1].dry_run() == states[k].dry_run()
            &&& states[k + 1].targets() == states[k].targets()
        }
}

proof fn lemma_run_ranks<'a>(states: Seq<Switch<'a>>, actions: Seq<SwitchAction>, i: int, j: int)
    requires
        is_run(states, actions),
        0 <= i <= j < states.len(),
    ensures
        phase_rank(states[j].phase()) >= phase_rank(states[i].phase()),
        states[j].dry_run() == states[i].dry_run(),
        states[j].targets() == states[i].targets(),
    decreases j - i,
{
    if i < j {
        lemma_run_ranks(states, actions, i, j - 1);
        assert(Switch::step_action(states[j - 1], states[j], actions[j - 1]));
    }
}

/// No partial edits: in a run of a switch, once a write has been asked for,
/// no file is read any more and no read or replacement fails. Every file is
/// read and every replacement computed before the first write, so a switch
/// that fails on a file it cannot read or on a replacement has written
/// nothing.
pub proof fn lemma_no_write_before_failure<'a>(
    states: Seq<Switch<'a>>,
    actions: Seq<SwitchAction>,
    i: int,
    j: int,
)
    requires
        is_run(states, actions),
        0 <= i < j < actions.len(),
        actions[i] is Write,
    ensures
        !(actions[j] is Read),
        !(actions[j] matches SwitchAction::Fail(KoseiError::RegexApplyError(_))),
        !(actions[j] matches SwitchAction::Fail(KoseiError::FileReadError(_, _))),
{
    assert(Switch::step_action(states[i], states[i + 1], actions[i]));
    assert(Switch::step_action(states[j], states[j + 1], actions[j]));
    lemma_run_ranks(states, actions, i + 1, j);
}

/// A dry run writes nothing.
pub proof fn lemma_dry_run_writes_nothing<'a>(
    states: Seq<Switch<'a>>,
    actions: Seq<SwitchAction>,
    k: int,
)
    requires
        is_run(states, actions),
        states[0].dry_run(),
        0 <= k < actions.len(),
    ensures
        !(actions[k] is Write),
{
    lemma_run_ranks(states, actions, 0, k);
    assert(Switch::step_action(states[k], states[k + 1], actions[k]));
}

proof fn lemma_showing_continues<'a>(
    states: Seq<Switch<'a>>,
    actions: Seq<SwitchAction>,
    i: int,
    k: int,
)
    requires
        is_run(states, actions),
        0 <= i < k < actions.len(),
        actions[i] is ShowDiff,
    ensures
        actions[k - 1] is ShowDiff,
        states[k].phase() == SwitchPhase::Showing,
        states[k].out() >= states[i + 1].out(),
    decreases k - i,
{
    assert(Switch::step_action(states[i], states[i + 1], actions[i]));
    assert(Switch::step_action(states[k - 1], states[k], actions[k - 1]));
    assert(Switch::step_action(states[k], states[k + 1], actions[k]));
    if k - 1 > i {
        lemma_showing_continues(states, actions, i, k - 1);
        lemma_run_ranks(states, actions, 0, k - 1);
        lemma_run_ranks(states, actions, 0, i);
    }
}

/// A dry run shows each file at most once, in the order in which the files
/// were first named: the diffs it asks for come from ever later positions
/// among the files, which are the files the replacements name, each once.
pub proof fn lemma_dry_run_shows_each_file_once<'a>(
    states: Seq<Switch<'a>>,
    actions: Seq<SwitchAction>,
    i: int,
    j: int,
)
    requires
        is_run(states, actions),
        0 <= i < j < actions.len(),
        actions[i] is ShowDiff,
        actions[j] is ShowDiff,
    ensures
        states[i + 1].out() < states[j + 1].out(),
        states[i + 1].files() == distinct_files(states[i + 1].targets()),
        states[j + 1].files() == states[i + 1].files(),
        states[i + 1].files().no_duplicates(),
        (actions[i] matches SwitchAction::ShowDiff(f, _, _) && actions[j] matches SwitchAction::ShowDiff(
            g,
            _,
            _,
        ) && f@ != g@),
{
    lemma_showing_continues(states, actions, i, j);
    assert(Switch::step_action(states[i], states[i + 1], actions[i]));
    assert(Switch::step_action(states[j], states[j + 1], actions[j]));
    lemma_run_ranks(states, actions, i + 1, j + 1);
    let n = states[i + 1].targets().len();
    assert(states[i + 1].targets().take(n as int) =~= states[i + 1].targets());
    assert(states[j + 1].targets().take(n as int) =~= states[j + 1].targets());
    lemma_distinct_files(states[i + 1].targets());
}

proof fn lemma_shown_before<'a>(
    states: Seq<Switch<'a>>,
    actions: Seq<SwitchAction>,
    m: int,
    j: int,
)
    requires
        is_run(states, actions),
        phase_rank(states[0].phase()) <= 2,
        1 <= m <= actions.len(),
        states[m].phase() == SwitchPhase::Showing,
        0 <= j <= states[m].out(),
        states[m].contents()[j] != states[m].originals()[j],
    ensures
        exists|k: int|
            0 <= k < m && #[trigger] actions[k] is ShowDiff && states[k + 1].out() == j
                && states[k + 1].files() == states[m].files() && states[k + 1].originals()
                == states[m].originals() && states[k + 1].contents() == states[m].contents(),
    decreases m,
{
    assert(Switch::step_action(states[m - 1], states[m], actions[m - 1]));
    if j < states[m].out() {
        if states[m - 1].phase() != SwitchPhase::Showing {
            assert(states[m].contents()[j] == states[m].originals()[j]);
        }
        if m - 1 == 0 {
            assert(phase_rank(states[0].phase()) <= 2);
        }
        lemma_shown_before(states, actions, m - 1, j);
        let k = choose|k: int|
            0 <= k < m - 1 && #[trigger] actions[k] is ShowDiff && states[k + 1].out() == j
                && states[k + 1].files() == states[m - 1].files() && states[k + 1].originals()
                == states[m - 1].originals() && states[k + 1].contents()
                == states[m - 1].contents();
        assert(actions[k] is ShowDiff);
    } else {
        assert(actions[m - 1] is ShowDiff);
    }
}

/// A dry run that finishes has shown every change: each file whose final
/// content differs from what it held was shown in a diff from that content to
/// the final one. Together with `lemma_dry_run_shows_each_file_once` and the
/// report of `step` (no changes exactly when no file's final content
/// differs), a dry run shows each changed file exactly once.
pub proof fn lemma_dry_run_shows_every_change<'a>(
    states: Seq<Switch<'a>>,
    actions: Seq<SwitchAction>,
    j: int,
)
    requires
        is_run(states, actions),
        phase_rank(states[0].phase()) <= 2,
        states[0].dry_run(),
        actions.len() >= 1,
        actions.last() is Finish,
        0 <= j < states.last().files().len(),
        states.last().contents()[j] != states.last().originals()[j],
    ensures
        exists|k: int|
            #![trigger actions[k]]
            0 <= k < actions.len() && (actions[k] matches SwitchAction::ShowDiff(f, a, b) && f@
                == states.last().files()[j] && a@ == states.last().originals()[j] && b@
                == states.last().contents()[j]),
{
    let n = actions.len() as int;
    assert(Switch::step_action(states[n - 1], states[n], actions[n - 1]));
    lemma_run_ranks(states, actions, 0, n);
    assert(states[n].dry_run());
    if states[n - 1].phase() != SwitchPhase::Showing {
        assert(states[n].contents()[j] == states[n].originals()[j]);
    }
    if n - 1 == 0 {
        assert(phase_rank(states[0].phase()) <= 2);
    }
    lemma_shown_before(states, actions, n - 1, j);
    let k = choose|k: int|
        0 <= k < n - 1 && #[trigger] actions[k] is ShowDiff && states[k + 1].out() == j
            && states[k + 1].files() == states[n - 1].files() && states[k + 1].originals()
            == states[n - 1].originals() && states[k + 1].contents() == states[n - 1].contents();
    assert(Switch::step_action(states[k], states[k + 1], actions[k]));
    assert(actions[k] matches SwitchAction::ShowDiff(f, a, b) && f@ == states.last().files()[j]
        && a@ == states.last().originals()[j] && b@ == states.last().contents()[j]);
}

/// In a configuration that passes the loader's validation, every file a
/// switch to any of its environments goes through has a replacement that
/// applies to whatever the file holds: such a switch never fails on a regex.
pub proof fn lemma_validated_switch_applies(
    config: Config,
    i: int,
    k: int,
    content: Seq<char>,
)
    requires
        config_problem(config.environments@) is None,
        0 <= i < config.environments@.len(),
        0 <= k < switch_targets(config.environments@[i].1.replacements@).len(),
    ensures
        ({
            let reps = config.environments@[i].1.replacements@;
            let rep = reps[switch_targets(reps)[k].0];
            apply_outcome(content, rep.regex@, rep.value@) is Ok
        }),
{
    let reps = config.environments@[i].1.replacements@;
    lemma_switch_targets_bound(reps);
    lemma_validated_config_applies(
        config.environments@,
        i,
        switch_targets(reps)[k].0,
        content,
    );
}

/// The targets of `reps`, as `switch_targets` describes.
fn targets_of(reps: &Vec<Replacement>) -> (t: Vec<(usize, String)>)
    ensures
        target_views(t@) == switch_targets(reps@),
        forall|k: int| 0 <= k < t@.len() ==> (#[trigger] t@[k]).0 < reps@.len(),
{
    let mut t: Vec<(usize, String)> = Vec::new();
    for r in 0..reps.len()
        invariant
            target_views(t@) == switch_targets(reps@.take(r as int)),
            forall|k: int| 0 <= k < t@.len() ==> (#[trigger] t@[k]).0 < r,
    {
        let files = &reps[r].files;
        let ghost start = target_views(t@);
        for k in 0..files.len()
            invariant
                *files == reps@[r as int].files,
                r < reps@.len(),
                target_views(t@) == start + files@.take(k as int).map_values(
                    |f: String| (r as int, f@),
                ),
                forall|q: int| 0 <= q < t@.len() ==> (#[trigger] t@[q]).0 <= r,
        {
            let ghost before = t@;
            t.push((r, files[k].clone()));
            assert(target_views(t@) =~= target_views(before).push((r as int, files@[k as int]@)));
            assert(files@.take(k + 1).map_values(|f: String| (r as int, f@)) =~= files@.take(
                k as int,
            ).map_values(|f: String| (r as int, f@)).push((r as int, files@[k as int]@)));
        }
        assert(files@.take(files@.len() as int) =~= files@);
        assert(reps@.take(r + 1).drop_last() =~= reps@.take(r as int));
        assert(reps@.take(r + 1).last() == reps@[r as int]);
        assert(target_views(t@) == switch_targets(reps@.take(r + 1)));
    }
    assert(reps@.take(reps@.len() as int) =~= reps@);
    t
}

} // verus!
