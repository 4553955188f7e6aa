//! The intake side of the sorter: which files are queued, when a freshly
//! dropped file is ready to be read, how dropped folders are imported, and
//! what the user is told.

use vstd::prelude::*;
use crate::files::{is_image_name, is_valid_image};
use crate::models::{flag_value, AppConfig};
use crate::numbers::{decimal, format_u64};
use crate::tags::strings;
use crate::text::{append_chars, append_str, owned};

verus! {

// ---- the set of queued files ------------------------------------------------

/// The files that are queued or being processed, each at most once.
pub struct QueueTracker {
    paths: Vec<String>,
}

impl View for QueueTracker {
    type V = Set<Seq<char>>;

    closed spec fn view(&self) -> Set<Seq<char>> {
        strings(self.paths@).to_set()
    }
}

impl QueueTracker {
    #[verifier::type_invariant]
    spec fn inv(self) -> bool {
        strings(self.paths@).no_duplicates()
    }

    /// An empty tracker.
    pub fn new() -> (r: QueueTracker)
        ensures
            r@ == Set::<Seq<char>>::empty(),
    {
        let r = QueueTracker { paths: Vec::new() };
        assert(strings(r.paths@).to_set() =~= Set::<Seq<char>>::empty());
        r
    }

    fn position(&self, path: &str) -> (r: Option<usize>)
        ensures
            r matches Some(i) ==> i < self.paths@.len() && strings(self.paths@)[i as int]
                == path@,
            r is None ==> !strings(self.paths@).contains(path@),
    {
        let mut i: usize = 0;
        while i < self.paths.len()
            invariant
                i <= self.paths@.len(),
                forall|k: int| 0 <= k < i ==> strings(self.paths@)[k] != path@,
            decreases self.paths@.len() - i,
        {
            if crate::text::same_chars(
                &crate::text::to_chars(self.paths[i].as_str()),
                &crate::text::to_chars(path),
            ) {
                return Some(i);
            }
            i = i + 1;
        }
        None
    }

    /// The file `path` is queued.
    pub fn contains(&self, path: &str) -> (b: bool)
        ensures
            b == self@.contains(path@),
    {
        proof {
            assert(strings(self.paths@).to_set().contains(path@) == strings(self.paths@).contains(
                path@,
            ));
        }
        self.position(path).is_some()
    }

    /// Queues `path` unless it is queued already; tells whether it was added.
    pub fn insert(&mut self, path: String) -> (added: bool)
        ensures
            added == !old(self)@.contains(path@),
            final(self)@ == old(self)@.insert(path@),
    {
        proof {
            use_type_invariant(&*self);
        }
        let ghost before = strings(self.paths@);
        if self.position(path.as_str()).is_some() {
            assert(before.to_set().insert(path@) =~= before.to_set());
            return false;
        }
        let ghost p = path@;
        let mut paths: Vec<String> = Vec::new();
        std::mem::swap(&mut paths, &mut self.paths);
        paths.push(path);
        proof {
            let after = before.push(p);
            assert(strings(paths@) =~= after);
            assert forall|i: int, j: int|
                0 <= i < after.len() && 0 <= j < after.len() && i != j implies after[i]
                != after[j] by {
                if i == before.len() as int {
                    assert(after[j] == before[j]);
                } else if j == before.len() as int {
                    assert(after[i] == before[i]);
                }
            }
            before.lemma_push_to_set_commute(p);
        }
        self.paths = paths;
        true
    }

    /// Takes `path` off the queue; tells whether it was there.
    pub fn remove(&mut self, path: &str) -> (removed: bool)
        ensures
            removed == old(self)@.contains(path@),
            final(self)@ == old(self)@.remove(path@),
    {
        proof {
            use_type_invariant(&*self);
        }
        let ghost before = strings(self.paths@);
        match self.position(path) {
            None => {
                assert(before.to_set().remove(path@) =~= before.to_set());
                false
            },
            Some(i) => {
                let mut paths: Vec<String> = Vec::new();
                std::mem::swap(&mut paths, &mut self.paths);
                paths.remove(i);
                proof {
                    let after = strings(paths@);
                    assert(after =~= before.remove(i as int));
                    assert forall|x: Seq<char>| after.to_set().contains(x) == before.to_set().remove(
                        path@,
                    ).contains(x) by {
                        if after.contains(x) {
                            let k = choose|k: int| 0 <= k < after.len() && after[k] == x;
                            if k < i {
                                assert(before[k] == x);
                            } else {
                                assert(before[k + 1] == x);
                            }
                        }
                        if x != path@ && before.contains(x) {
                            let k = choose|k: int| 0 <= k < before.len() && before[k] == x;
                            if k < i {
                                assert(after[k] == x);
                            } else {
                                assert(after[k - 1] == x);
                            }
                        }
                    }
                    assert(after.to_set() =~= before.to_set().remove(path@));
                }
                self.paths = paths;
                true
            },
        }
    }

    /// The number of queued files.
    pub fn len(&self) -> (n: usize)
        ensures
            n == self@.len(),
    {
        proof {
            use_type_invariant(self);
            strings(self.paths@).unique_seq_to_set();
        }
        self.paths.len()
    }
}

/// A file is taken into the queue at most once until it is done: queuing a
/// queued file changes nothing, and once it is taken off it can be queued
/// again.
pub proof fn lemma_queue_once(queued: Set<Seq<char>>, path: Seq<char>)
    requires
        queued.contains(path),
    ensures
        queued.insert(path) == queued,
        !queued.remove(path).contains(path),
        queued.remove(path).insert(path) == queued,
{
    assert(queued.insert(path) =~= queued);
    assert(queued.remove(path).insert(path) =~= queued);
}

// ---- waiting for a dropped file --------------------------------------------

/// What probing a freshly dropped file found.
pub struct FileProbe {
    /// The file could be opened for appending: nobody is writing it.
    pub writable: bool,
    /// Opening it for appending was refused for lack of permission.
    pub permission_denied: bool,
    /// Its metadata could be read and mark it read-only.
    pub read_only: bool,
    /// It could be opened for reading.
    pub readable: bool,
}

/// The next step while waiting for a dropped file to be fully written.
#[derive(Debug, Clone, Copy, PartialEq, Eq, Structural)]
pub enum WaitStep {
    /// The file can be processed.
    Ready,
    /// Sleep, then probe again.
    Retry,
    /// Waited too long; give up on the file.
    TimedOut,
}

/// The file can be processed: it opens for appending, or it is read-only
/// (as cloud transfers leave files), which is why appending was refused,
/// and it can at least be read.
pub open spec fn probe_ready(p: FileProbe) -> bool {
    p.writable || (p.permission_denied && p.read_only && p.readable)
}

/// Decides the next step from a probe and whether the waiting time is over.
pub fn wait_step(probe: &FileProbe, timed_out: bool) -> (r: WaitStep)
    ensures
        probe_ready(*probe) ==> r == WaitStep::Ready,
        !probe_ready(*probe) && timed_out ==> r == WaitStep::TimedOut,
        !probe_ready(*probe) && !timed_out ==> r == WaitStep::Retry,
{
    if probe.writable || (probe.permission_denied && probe.read_only && probe.readable) {
        WaitStep::Ready
    } else if timed_out {
        WaitStep::TimedOut
    } else {
        WaitStep::Retry
    }
}

/// What is reported when a dropped file never became ready.
pub fn timed_out_message() -> (r: String)
    ensures
        r@ == "Timed out waiting for file to finish writing to disk."@,
{
    owned("Timed out waiting for file to finish writing to disk.")
}

// ---- while scanning is paused ------------------------------------------------

/// A file taken from the queue while scanning is paused is dropped (taken
/// off the queue, its task reported done) unless scanning is permanent (the
/// setting `isPermanentScan`, on when unset), in which case the worker waits
/// for scanning to resume.
pub fn drops_while_paused(config: &AppConfig) -> (b: bool)
    requires
        config.wf(),
    ensures
        b == !flag_value(config.flags@, "isPermanentScan"@, true),
{
    !config.flag("isPermanentScan", true)
}

// ---- before a file is processed -----------------------------------------------

/// What is reported when no service has usable credentials.
pub open spec fn no_credentials_message() -> Seq<char> {
    "No active API credentials configured. Please add keys in the Credentials tab."@
}

/// A file can only be looked up when at least one service is usable.
pub fn require_services(active: &Vec<String>) -> (r: Result<(), String>)
    ensures
        active@.len() > 0 <==> r is Ok,
        r matches Err(e) ==> e@ == no_credentials_message(),
{
    if active.len() == 0 {
        Err(owned("No active API credentials configured. Please add keys in the Credentials tab."))
    } else {
        Ok(())
    }
}

// ---- importing dropped folders -------------------------------------------------

/// How deep below a dropped folder files are still imported.
pub const MAX_DEPTH: usize = 5;

/// How many files one drop may import.
pub const MAX_FILES: usize = 5000;

/// One path met while importing a drop.
pub enum DropEntry {
    /// A file, by its name.
    File { name: String },
    /// A folder; `is_root` when it has no parent (a whole drive).
    Folder { is_root: bool },
    /// Anything else, such as a dangling link.
    Other,
}

/// What to do with one path of a drop.
#[derive(Debug, Clone, Copy, PartialEq, Eq, Structural)]
pub enum ImportAction {
    /// Place the image in the input folder (see
    /// [`crate::files::import_destination`]); the file itself is moved when
    /// it was dropped directly, and copied when it was found inside a
    /// dropped folder.
    Place { move_original: bool },
    /// Import everything inside the folder, one level deeper.
    Descend,
    /// Leave it: it is not an image.
    Skip,
}

/// Refusal once a drop goes deeper than [`MAX_DEPTH`].
pub open spec fn too_deep_message() -> Seq<char> {
    "Folder hierarchy too deep! Stopped at depth "@ + decimal(MAX_DEPTH as nat) + "."@
}

/// Refusal once [`MAX_FILES`] files have been imported.
pub open spec fn too_many_message() -> Seq<char> {
    "Safety limit reached: Cannot import more than "@ + decimal(MAX_FILES as nat)
        + " files at once."@
}

/// Refusal for a dropped root drive.
pub open spec fn root_drive_message() -> Seq<char> {
    "For safety, dropping an entire root drive is not allowed."@
}

/// What importing does with a path met at `depth` (0 for what was dropped
/// itself) after `imported` files.
pub open spec fn import_action_of(depth: nat, imported: nat, entry: DropEntry) -> Result<
    ImportAction,
    Seq<char>,
> {
    if depth > MAX_DEPTH {
        Err(too_deep_message())
    } else if imported >= MAX_FILES {
        Err(too_many_message())
    } else {
        match entry {
            DropEntry::File { name } => if is_image_name(name@) {
                Ok(ImportAction::Place { move_original: depth == 0 })
            } else {
                Ok(ImportAction::Skip)
            },
            DropEntry::Folder { is_root } => if is_root {
                Err(root_drive_message())
            } else {
                Ok(ImportAction::Descend)
            },
            DropEntry::Other => Ok(ImportAction::Skip),
        }
    }
}

/// Executable form of [`import_action_of`].
pub fn import_action(depth: usize, imported: usize, entry: &DropEntry) -> (r: Result<
    ImportAction,
    String,
>)
    ensures
        match r {
            Ok(a) => import_action_of(depth as nat, imported as nat, *entry) == Ok::<
                ImportAction,
                Seq<char>,
            >(a),
            Err(e) => import_action_of(depth as nat, imported as nat, *entry) == Err::<
                ImportAction,
                Seq<char>,
            >(e@),
        },
{
    if depth > MAX_DEPTH {
        let mut m = owned("Folder hierarchy too deep! Stopped at depth ");
        append_chars(&mut m, &format_u64(MAX_DEPTH as u64));
        append_str(&mut m, ".");
        return Err(m);
    }
    if imported >= MAX_FILES {
        let mut m = owned("Safety limit reached: Cannot import more than ");
        append_chars(&mut m, &format_u64(MAX_FILES as u64));
        append_str(&mut m, " files at once.");
        return Err(m);
    }
    match entry {
        DropEntry::File { name } => {
            if is_valid_image(name.as_str()) {
                Ok(ImportAction::Place { move_original: depth == 0 })
            } else {
                Ok(ImportAction::Skip)
            }
        },
        DropEntry::Folder { is_root } => {
            if *is_root {
                Err(owned("For safety, dropping an entire root drive is not allowed."))
            } else {
                Ok(ImportAction::Descend)
            }
        },
        DropEntry::Other => Ok(ImportAction::Skip),
    }
}

/// A drop never imports more than [`MAX_FILES`] files: a file is only
/// placed while fewer have been imported, and nothing deeper than
/// [`MAX_DEPTH`] is looked at.
pub proof fn lemma_import_within_limits(depth: nat, imported: nat, entry: DropEntry)
    ensures
        import_action_of(depth, imported, entry) matches Ok(a) ==> depth <= MAX_DEPTH
            && (a is Place ==> imported < MAX_FILES),
{
}

/// Only what was dropped itself is moved: an image found inside a dropped
/// folder (at any depth below it) is copied, and an image placed is always
/// an image file, met within the depth and file limits.
pub proof fn lemma_import_moves_only_dropped(depth: nat, imported: nat, entry: DropEntry)
    ensures
        import_action_of(depth, imported, entry) matches Ok(ImportAction::Place { move_original })
            ==> {
            &&& move_original <==> depth == 0
            &&& depth <= 5 && imported < 5000
            &&& entry matches DropEntry::File { name } && is_image_name(name@)
        },
        entry matches DropEntry::File { name } && is_image_name(name@) && depth <= 5 && imported
            < 5000 ==> import_action_of(depth, imported, entry) == Ok::<ImportAction, Seq<char>>(
            ImportAction::Place { move_original: depth == 0 },
        ),
{
}

/// What the user is told after a drop.
pub open spec fn queued_message(count: nat) -> Seq<char> {
    "Successfully queued "@ + decimal(count) + " images."@
}

/// Executable form of [`queued_message`].
pub fn queued_summary(count: usize) -> (r: String)
    ensures
        r@ == queued_message(count as nat),
{
    let mut m = owned("Successfully queued ");
    append_chars(&mut m, &format_u64(count as u64));
    append_str(&mut m, " images.");
    m
}

// ---- the input folder ----------------------------------------------------------

/// How many of the names are image file names.
pub open spec fn image_count(names: Seq<Seq<char>>) -> nat
    decreases names.len(),
{
    if names.len() == 0 {
        0
    } else {
        image_count(names.drop_last()) + if is_image_name(names.last()) {
            1nat
        } else {
            0nat
        }
    }
}

/// Counts the image files among the names of the files waiting in the input
/// folder.
pub fn count_images(names: &Vec<String>) -> (n: usize)
    ensures
        n == image_count(strings(names@)),
{
    let mut n: usize = 0;
    let mut i: usize = 0;
    while i < names.len()
        invariant
            i <= names@.len(),
            n <= i,
            n == image_count(strings(names@).take(i as int)),
        decreases names@.len() - i,
    {
        assert(strings(names@).take(i + 1).drop_last() =~= strings(names@).take(i as int));
        if is_valid_image(names[i].as_str()) {
            n = n + 1;
        }
        i = i + 1;
    }
    assert(strings(names@).take(i as int) =~= strings(names@));
    n
}

} // verus!
