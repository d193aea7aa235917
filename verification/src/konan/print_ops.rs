use vstd::prelude::*;
use crate::cadence::channels::{Artifact, ArtifactModel, DeliveryChannel};
use crate::cadence::error::CadenceError;
use crate::cadence::registry::{SpawnRequest, Task};
use crate::konan::template::box_outline::BoxOutline;
use crate::konan::template::habit_tracker::HabitTracker;
use crate::text::{push_str, str_eq};

verus! {

broadcast use vstd::string::group_string_axioms;

pub const TASK_OUTLINE_BUILD: &'static str = "konan.outline.build";

pub const TASK_TRACKER_BUILD: &'static str = "konan.tracker.build";

pub const TASK_FILE_BUILD: &'static str = "konan.file.build";

pub const TASK_PRINT_DELIVER: &'static str = "konan.print.deliver";

/// The name of the printer's delivery channel.
pub const CHANNEL_PRINT: &'static str = "konan.print";

pub const MIME_OUTLINE: &'static str = "application/x-konan-outline";

pub const MIME_TRACKER: &'static str = "application/x-konan-tracker";

/// What a build step hands to the deliver step: enough to make the artifact
/// that the print channel takes.
#[derive(Debug, Clone)]
pub enum KonanDeliverPayload {
    Outline { outline: BoxOutline },
    Tracker { tracker: HabitTracker },
    File { file_name: String, rows: Option<u32> },
}

/// A stored markdown file to print.
#[derive(Debug, Clone)]
pub struct PrintFileTask {
    pub file_name: String,
    pub rows: Option<u32>,
}

/// Anything the printer can be asked to print.
#[derive(Debug, Clone)]
pub enum PrintTask {
    Outline(BoxOutline),
    Tracker(HabitTracker),
    File(PrintFileTask),
}

impl Task for BoxOutline {
    open spec fn task_type_spec() -> Seq<char> {
        TASK_OUTLINE_BUILD@
    }

    fn task_type() -> (r: &'static str) {
        TASK_OUTLINE_BUILD
    }
}

impl Task for HabitTracker {
    open spec fn task_type_spec() -> Seq<char> {
        TASK_TRACKER_BUILD@
    }

    fn task_type() -> (r: &'static str) {
        TASK_TRACKER_BUILD
    }
}

impl Task for PrintFileTask {
    open spec fn task_type_spec() -> Seq<char> {
        TASK_FILE_BUILD@
    }

    fn task_type() -> (r: &'static str) {
        TASK_FILE_BUILD
    }
}

impl Task for KonanDeliverPayload {
    open spec fn task_type_spec() -> Seq<char> {
        TASK_PRINT_DELIVER@
    }

    fn task_type() -> (r: &'static str) {
        TASK_PRINT_DELIVER
    }
}

/// Why a file may not be stored for printing.
#[derive(Debug, Clone, PartialEq, Eq)]
pub enum PrintFileError {
    /// The name does not end in `.md`.
    NotMarkdown(String),
    /// The name is empty, or holds a path separator, a NUL or `..`.
    InvalidName(String),
}

impl PrintFileError {
    pub fn message(&self) -> (r: String)
        ensures
            r@ == print_file_error_message(*self),
    {
        match self {
            PrintFileError::NotMarkdown(name) => {
                let mut r = "file must be a markdown file (.md): ".to_string();
                push_str(&mut r, name.as_str());
                r
            },
            PrintFileError::InvalidName(name) => {
                let mut r = "invalid file name: ".to_string();
                push_str(&mut r, name.as_str());
                r
            },
        }
    }
}

pub open spec fn print_file_error_message(e: PrintFileError) -> Seq<char> {
    match e {
        PrintFileError::NotMarkdown(name) => "file must be a markdown file (.md): "@ + name@,
        PrintFileError::InvalidName(name) => "invalid file name: "@ + name@,
    }
}

pub open spec fn ends_with_md(s: Seq<char>) -> bool {
    s.len() >= 3 && s.subrange(s.len() - 3, s.len() as int) == ".md"@
}

/// The name could reach outside the file directory, or names nothing.
pub open spec fn unsafe_name(s: Seq<char>) -> bool {
    ||| s.len() == 0
    ||| s.contains('/')
    ||| s.contains('\\')
    ||| s.contains('\0')
    ||| exists|i: int| 0 <= i < s.len() - 1 && #[trigger] dot_pair(s, i)
}

/// `..` starts at index `i`.
pub open spec fn dot_pair(s: Seq<char>, i: int) -> bool {
    s[i] == '.' && s[i + 1] == '.'
}

/// Checks the name of a markdown file to store: it must end in `.md`, and
/// may not be empty nor hold `/`, `\`, a NUL or `..`.
pub fn check_print_file_name(file_name: &str) -> (r: Result<(), PrintFileError>)
    ensures
        !ends_with_md(file_name@) ==> (r matches Err(PrintFileError::NotMarkdown(n)) && n@
            == file_name@),
        ends_with_md(file_name@) && unsafe_name(file_name@) ==> (r matches Err(
            PrintFileError::InvalidName(n),
        ) && n@ == file_name@),
        ends_with_md(file_name@) && !unsafe_name(file_name@) ==> r is Ok,
{
    let n = file_name.unicode_len();
    proof {
        reveal_strlit(".md");
    }
    let md = n >= 3 && file_name.get_char(n - 3) == '.' && file_name.get_char(n - 2) == 'm'
        && file_name.get_char(n - 1) == 'd';
    proof {
        if n >= 3 {
            if md {
                assert(file_name@.subrange(n - 3, n as int) =~= ".md"@);
            } else {
                let tail = file_name@.subrange(n - 3, n as int);
                assert(tail[0] == file_name@[n - 3]);
                assert(tail[1] == file_name@[n - 2]);
                assert(tail[2] == file_name@[n - 1]);
            }
        }
    }
    if !md {
        return Err(PrintFileError::NotMarkdown(file_name.to_string()));
    }
    let mut i: usize = 0;
    let mut bad = false;
    while i < n
        invariant
            n == file_name@.len(),
            i <= n,
            !bad ==> forall|j: int| 0 <= j < i ==> {
                &&& file_name@[j] != '/'
                &&& file_name@[j] != '\\'
                &&& file_name@[j] != '\0'
                &&& (j + 1 < n ==> !dot_pair(file_name@, j))
            },
            bad ==> unsafe_name(file_name@),
        decreases n - i,
    {
        let c = file_name.get_char(i);
        if c == '/' || c == '\\' || c == '\0' {
            assert(file_name@.contains(c));
            bad = true;
        } else if c == '.' && i + 1 < n && file_name.get_char(i + 1) == '.' {
            assert(dot_pair(file_name@, i as int));
            bad = true;
        }
        i = i + 1;
    }
    if bad {
        Err(PrintFileError::InvalidName(file_name.to_string()))
    } else {
        assert(!unsafe_name(file_name@));
        Ok(())
    }
}

/// The thermal printer as a delivery channel.
#[derive(Debug, Clone, Copy)]
pub struct KonanPrintChannel;

/// The printer takes markdown files and laid-out outlines and trackers.
pub open spec fn print_accepts(a: ArtifactModel) -> bool {
    match a {
        ArtifactModel::MarkdownFile(_) => true,
        ArtifactModel::Bytes { mime, .. } => mime == MIME_OUTLINE@ || mime == MIME_TRACKER@,
        ArtifactModel::PlainText(_) => false,
    }
}

/// What printing an artifact takes.
pub enum PrintJob {
    /// An outline, as JSON.
    Outline(Vec<u8>),
    /// A tracker, as JSON.
    Tracker(Vec<u8>),
    /// The markdown file at this path.
    Markdown(String),
}

impl DeliveryChannel for KonanPrintChannel {
    open spec fn channel_name(&self) -> Seq<char> {
        CHANNEL_PRINT@
    }

    open spec fn accepts_spec(&self, a: ArtifactModel) -> bool {
        print_accepts(a)
    }

    fn name(&self) -> (r: &str) {
        CHANNEL_PRINT
    }

    fn accepts(&self, artifact: &Artifact) -> (b: bool) {
        match artifact {
            Artifact::MarkdownFile(_) => true,
            Artifact::Bytes { mime, .. } => str_eq(mime.as_str(), MIME_OUTLINE) || str_eq(
                mime.as_str(),
                MIME_TRACKER,
            ),
            Artifact::PlainText(_) => false,
        }
    }
}

impl KonanPrintChannel {
    /// What printing `artifact` takes: outline and tracker bytes by their
    /// MIME type, a markdown file by its path; anything else is refused.
    pub fn print_job(&self, artifact: Artifact) -> (r: Result<PrintJob, CadenceError>)
        ensures
            match artifact@ {
                ArtifactModel::Bytes { data, mime } => if mime == MIME_OUTLINE@ {
                    r matches Ok(PrintJob::Outline(d)) && d@ == data
                } else if mime == MIME_TRACKER@ {
                    r matches Ok(PrintJob::Tracker(d)) && d@ == data
                } else {
                    r == Err::<PrintJob, CadenceError>(CadenceError::ArtifactNotAccepted)
                },
                ArtifactModel::MarkdownFile(p) => r matches Ok(PrintJob::Markdown(q)) && q@ == p,
                ArtifactModel::PlainText(_) => r == Err::<PrintJob, CadenceError>(
                    CadenceError::ArtifactNotAccepted,
                ),
            },
    {
        match artifact {
            Artifact::Bytes { data, mime } => {
                if str_eq(mime.as_str(), MIME_OUTLINE) {
                    Ok(PrintJob::Outline(data))
                } else if str_eq(mime.as_str(), MIME_TRACKER) {
                    Ok(PrintJob::Tracker(data))
                } else {
                    Err(CadenceError::ArtifactNotAccepted)
                }
            },
            Artifact::MarkdownFile(path) => Ok(PrintJob::Markdown(path)),
            Artifact::PlainText(_) => Err(CadenceError::ArtifactNotAccepted),
        }
    }
}

/// Turns an outline into the payload of its deliver step.
#[derive(Debug, Clone, Copy)]
pub struct OutlineBuildHandler;

/// Turns a tracker into the payload of its deliver step.
#[derive(Debug, Clone, Copy)]
pub struct TrackerBuildHandler;

/// Checks that a stored file exists and hands it to the deliver step.
#[derive(Debug, Clone, Copy)]
pub struct FileBuildHandler;

/// Makes the artifact of a deliver payload and sends it to the printer.
#[derive(Debug, Clone, Copy)]
pub struct KonanPrintDeliverHandler;

impl OutlineBuildHandler {
    pub fn run(&self, outline: BoxOutline) -> (r: SpawnRequest<KonanDeliverPayload>)
        ensures
            r.task_type@ == TASK_PRINT_DELIVER@,
            r.payload == (KonanDeliverPayload::Outline { outline }),
            r.artifact_ref is None,
            r.delay_secs == 0,
    {
        SpawnRequest::spawn(KonanDeliverPayload::Outline { outline })
    }
}

impl TrackerBuildHandler {
    pub fn run(&self, tracker: HabitTracker) -> (r: SpawnRequest<KonanDeliverPayload>)
        ensures
            r.task_type@ == TASK_PRINT_DELIVER@,
            r.payload == (KonanDeliverPayload::Tracker { tracker }),
            r.artifact_ref is None,
            r.delay_secs == 0,
    {
        SpawnRequest::spawn(KonanDeliverPayload::Tracker { tracker })
    }
}

impl FileBuildHandler {
    /// The deliver step for a stored file (`file_exists` says whether it is
    /// there): the file, also named as the job's artifact; an error when it
    /// is missing.
    pub fn run(&self, task: PrintFileTask, file_exists: bool) -> (r: Result<
        SpawnRequest<KonanDeliverPayload>,
        CadenceError,
    >)
        ensures
            !file_exists ==> (r matches Err(CadenceError::Channel(m)) && m@ == "file not found: "@
                + task.file_name@),
            file_exists ==> (r matches Ok(s) && {
                &&& s.task_type@ == TASK_PRINT_DELIVER@
                &&& (s.payload matches KonanDeliverPayload::File { file_name, rows } && file_name@
                    == task.file_name@ && rows == task.rows)
                &&& (s.artifact_ref matches Some(a) && a@ == task.file_name@)
                &&& s.delay_secs == 0
            }),
    {
        if !file_exists {
            let mut m = "file not found: ".to_string();
            push_str(&mut m, task.file_name.as_str());
            return Err(CadenceError::Channel(m));
        }
        let name = task.file_name.clone();
        Ok(
            SpawnRequest::spawn_with(
                KonanDeliverPayload::File { file_name: task.file_name, rows: task.rows },
                Some(name),
                0,
            ),
        )
    }
}

impl KonanPrintDeliverHandler {
    /// The artifact for a deliver payload, given the JSON of the outline or
    /// tracker it holds (`encoded`) and the path of the file it names
    /// (`file_path`).
    pub fn artifact(&self, payload: &KonanDeliverPayload, encoded: Vec<u8>, file_path: String) -> (r:
        Artifact)
        ensures
            match *payload {
                KonanDeliverPayload::Outline { .. } => r@ == (ArtifactModel::Bytes {
                    data: encoded@,
                    mime: MIME_OUTLINE@,
                }),
                KonanDeliverPayload::Tracker { .. } => r@ == (ArtifactModel::Bytes {
                    data: encoded@,
                    mime: MIME_TRACKER@,
                }),
                KonanDeliverPayload::File { .. } => r@ == ArtifactModel::MarkdownFile(file_path@),
            },
            print_accepts(r@),
    {
        match payload {
            KonanDeliverPayload::Outline { .. } => Artifact::Bytes {
                data: encoded,
                mime: MIME_OUTLINE.to_string(),
            },
            KonanDeliverPayload::Tracker { .. } => Artifact::Bytes {
                data: encoded,
                mime: MIME_TRACKER.to_string(),
            },
            KonanDeliverPayload::File { .. } => Artifact::MarkdownFile(file_path),
        }
    }
}

} // verus!
