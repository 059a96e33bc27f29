//! Merging one directory, step by step.
//!
//! A merge reads and writes files, and between reading and writing it
//! decides. The deciding is done here: a job says what is to be done next, the
//! caller does it and reports what came of it, and the job decides again. The
//! order is fixed: the files are counted, their times are asked for and the
//! composite's name is made, the directory is listed and earlier composites
//! are removed, the files are read and decoded one by one, and the composite
//! is laid out, encoded and handed over for writing. A job keeps nothing beyond
//! its own run.

use vstd::prelude::*;
use vstd::string::*;
use crate::codec::{loaded, png_encoding, to_png};
use crate::error::MergeError;
use crate::merger::{all_wf, composite_of, images_of, load_image_info, merge_images, ImageInfo};
use crate::naming::{is_merged_file, is_merged_name};
use crate::raster::RasterData;
use crate::scanner::{candidates, image_files_of, lemma_image_files_are_images, names_of, DirEntry, EntryKind};
use crate::timestamp::{derive_output_name, find_latest_creation_date, latest, lemma_output_name_is_merged, output_name_of, preferred_times, FileTimes};

verus! {

/// Where a job stands.
#[derive(Debug, Clone, Copy, PartialEq, Eq, Structural)]
pub enum MergeStage {
    /// The times of the files have been asked for.
    AwaitingTimes,
    /// The listing of the directory has been asked for.
    AwaitingListing,
    /// The removal of the earlier composites has been asked for.
    AwaitingRemoval,
    /// The content of one of the files has been asked for.
    Loading,
    /// The writing of the composite has been asked for.
    AwaitingWrite,
    /// The composite is written.
    Done,
    /// The merge has ended without a composite.
    Failed,
}

/// What the caller is to do next.
#[derive(Debug)]
pub enum MergeAction {
    /// Read the times of each of these files: that of its creation and that of
    /// its last change.
    StatFiles { paths: Vec<String> },
    /// List the entries of the directory.
    ListDirectory,
    /// Remove these files from the directory.
    RemoveFiles { names: Vec<String> },
    /// Read the content of this file.
    ReadFile { path: String },
    /// Write these bytes to the file of this name in the directory.
    WriteFile { name: String, bytes: Vec<u8> },
    /// Nothing: the composite of this name is written.
    Done { name: String },
    /// Nothing: the merge has ended without a composite, for this reason.
    Failed { error: MergeError, detail: String },
    /// Nothing new: the event did not answer what the job had asked for, and
    /// the job stands where it stood.
    Ignored,
}

/// What came of the action that the job asked for.
#[derive(Debug)]
pub enum MergeEvent {
    /// The times of the files, one entry to the file.
    Times(Vec<FileTimes>),
    /// The entries of the directory.
    Listing(Vec<DirEntry>),
    /// The directory could not be listed.
    ListingFailed(String),
    /// The files are removed.
    Removed,
    /// One of the files could not be removed.
    RemovalFailed(String),
    /// The content of the file, or why it could not be read.
    FileRead(Result<Vec<u8>, String>),
    /// The composite is written.
    Written,
    /// The composite could not be written.
    WriteFailed(String),
}

/// What an action is.
pub ghost enum ActionData {
    StatFiles { paths: Seq<Seq<char>> },
    ListDirectory,
    RemoveFiles { names: Seq<Seq<char>> },
    ReadFile { path: Seq<char> },
    WriteFile { name: Seq<char>, bytes: Seq<u8> },
    Done { name: Seq<char> },
    Failed { error: MergeError, detail: Seq<char> },
    Ignored,
}

impl View for MergeAction {
    type V = ActionData;

    open spec fn view(&self) -> ActionData {
        match self {
            MergeAction::StatFiles { paths } => ActionData::StatFiles { paths: names_of(paths@) },
            MergeAction::ListDirectory => ActionData::ListDirectory,
            MergeAction::RemoveFiles { names } => ActionData::RemoveFiles {
                names: names_of(names@),
            },
            MergeAction::ReadFile { path } => ActionData::ReadFile { path: path@ },
            MergeAction::WriteFile { name, bytes } => ActionData::WriteFile {
                name: name@,
                bytes: bytes@,
            },
            MergeAction::Done { name } => ActionData::Done { name: name@ },
            MergeAction::Failed { error, detail } => ActionData::Failed {
                error: *error,
                detail: detail@,
            },
            MergeAction::Ignored => ActionData::Ignored,
        }
    }
}

/// A file that was read and gave no image, and why.
#[derive(Debug)]
pub struct SkippedFile {
    pub path: String,
    pub reason: String,
}

/// What a `SkippedFile` is.
pub ghost struct SkippedData {
    pub path: Seq<char>,
    pub reason: Seq<char>,
}

impl View for SkippedFile {
    type V = SkippedData;

    open spec fn view(&self) -> SkippedData {
        SkippedData { path: self.path@, reason: self.reason@ }
    }
}

/// What each of the skipped files is.
pub open spec fn skipped_of(files: Seq<SkippedFile>) -> Seq<SkippedData> {
    files.map_values(|file: SkippedFile| file@)
}

/// What a job is: where it stands and what it has gathered so far.
pub ghost struct JobData {
    /// Where the job stands.
    pub stage: MergeStage,
    /// The files to merge, in the order given.
    pub files: Seq<Seq<char>>,
    /// The name of the composite, once it is made; empty before.
    pub output_name: Seq<char>,
    /// How many of the files have been read.
    pub next: nat,
    /// The images that the files read so far have given, in the order of the
    /// files.
    pub images: Seq<RasterData>,
    /// The files read so far that have given no image, in the order of the
    /// files, each with the reason.
    pub skipped: Seq<SkippedData>,
    /// Why the merge failed, where it did.
    pub error: Option<MergeError>,
    /// What is known beyond the reason, where the merge failed.
    pub detail: Seq<char>,
}

/// The names of the earlier composites among the entries of a directory: the
/// regular files whose names are those of composites, in the order of the
/// entries.
pub open spec fn stale_names(entries: Seq<DirEntry>) -> Seq<Seq<char>>
    decreases entries.len(),
{
    if entries.len() == 0 {
        Seq::empty()
    } else if entries.last().kind == EntryKind::File && is_merged_name(entries.last().name@) {
        stale_names(entries.drop_last()).push(entries.last().name@)
    } else {
        stale_names(entries.drop_last())
    }
}

/// The job that has failed for the given reason, with the action that says so.
pub open spec fn failed(job: JobData, error: MergeError, detail: Seq<char>) -> (
    JobData,
    ActionData,
) {
    (
        JobData { stage: MergeStage::Failed, error: Some(error), detail: detail, ..job },
        ActionData::Failed { error: error, detail: detail },
    )
}

/// The job for the given files as it begins, with its first action: a job for
/// no file or for one file fails at once, with `EmptyInput` or `SingleImage`;
/// any other asks for the times of its files.
pub open spec fn begun(files: Seq<Seq<char>>) -> (JobData, ActionData) {
    let job = JobData {
        stage: MergeStage::AwaitingTimes,
        files: files,
        output_name: Seq::empty(),
        next: 0,
        images: Seq::empty(),
        skipped: Seq::empty(),
        error: None,
        detail: Seq::empty(),
    };
    if files.len() == 0 {
        failed(job, MergeError::EmptyInput, MergeError::EmptyInput.message_text())
    } else if files.len() == 1 {
        failed(job, MergeError::SingleImage, MergeError::SingleImage.message_text())
    } else {
        (job, ActionData::StatFiles { paths: files })
    }
}

/// What the file at `path` gives once it is read: its image, or the reason
/// why it gives none, which is why it could not be read, or what the decoder
/// said of its content.
pub open spec fn image_of(path: Seq<char>, content: Result<Vec<u8>, String>) -> Result<
    RasterData,
    Seq<char>,
> {
    match content {
        Ok(bytes) => match loaded(path, bytes@) {
            Ok(image) => Ok(image),
            Err(fault) => Err(fault.message_text()),
        },
        Err(reason) => Err(reason@),
    }
}

/// The job after the file that it had asked for has been read: a file that
/// gives an image adds it to the images, any other is passed over and listed
/// with the reason.
pub open spec fn after_file(job: JobData, content: Result<Vec<u8>, String>) -> JobData {
    let path = job.files[job.next as int];
    match image_of(path, content) {
        Ok(image) => JobData { next: job.next + 1, images: job.images.push(image), ..job },
        Err(reason) => JobData {
            next: job.next + 1,
            skipped: job.skipped.push(SkippedData { path: path, reason: reason }),
            ..job
        },
    }
}

/// The job once all its files are read: it lays the images out and encodes the
/// composite, and asks for it to be written; it fails with `NoValidImages`
/// where no file gave an image, with `CanvasTooLarge` where the composite
/// cannot be had, and with `PersistFailed` and what the encoder said where it
/// cannot be encoded.
pub open spec fn composed(job: JobData) -> (JobData, ActionData) {
    match composite_of(job.images) {
        Err(e) => failed(job, e, e.message_text()),
        Ok(canvas) => match png_encoding(canvas.pixels, canvas.width, canvas.height) {
            Err(reason) => failed(job, MergeError::PersistFailed, reason),
            Ok(bytes) => (
                JobData { stage: MergeStage::AwaitingWrite, ..job },
                ActionData::WriteFile { name: job.output_name, bytes: bytes },
            ),
        },
    }
}

/// The job after `event`, with its next action.
pub open spec fn stepped(job: JobData, event: MergeEvent) -> (JobData, ActionData) {
    match (job.stage, event) {
        (MergeStage::AwaitingTimes, MergeEvent::Times(times)) => {
            let name = match latest(preferred_times(times@)) {
                Some(time) => output_name_of(time),
                None => None,
            };
            match name {
                Some(name) => (
                    JobData { stage: MergeStage::AwaitingListing, output_name: name, ..job },
                    ActionData::ListDirectory,
                ),
                None => failed(
                    job,
                    MergeError::TimestampUnavailable,
                    MergeError::TimestampUnavailable.message_text(),
                ),
            }
        },
        (MergeStage::AwaitingListing, MergeEvent::Listing(entries)) => (
            JobData { stage: MergeStage::AwaitingRemoval, ..job },
            ActionData::RemoveFiles { names: stale_names(entries@) },
        ),
        (MergeStage::AwaitingListing, MergeEvent::ListingFailed(detail)) => failed(
            job,
            MergeError::FilesystemError,
            detail@,
        ),
        (MergeStage::AwaitingRemoval, MergeEvent::Removed) => (
            JobData { stage: MergeStage::Loading, ..job },
            ActionData::ReadFile { path: job.files[0] },
        ),
        (MergeStage::AwaitingRemoval, MergeEvent::RemovalFailed(detail)) => failed(
            job,
            MergeError::FilesystemError,
            detail@,
        ),
        (MergeStage::Loading, MergeEvent::FileRead(content)) => {
            let read = after_file(job, content);
            if read.next < read.files.len() {
                (read, ActionData::ReadFile { path: read.files[read.next as int] })
            } else {
                composed(read)
            }
        },
        (MergeStage::AwaitingWrite, MergeEvent::Written) => (
            JobData { stage: MergeStage::Done, ..job },
            ActionData::Done { name: job.output_name },
        ),
        (MergeStage::AwaitingWrite, MergeEvent::WriteFailed(detail)) => failed(
            job,
            MergeError::PersistFailed,
            detail@,
        ),
        _ => (job, ActionData::Ignored),
    }
}

/// The earlier composites among the entries of a directory: the names of the
/// regular files that `is_merged_file` recognises, in the order of the
/// entries.
pub fn stale_outputs(entries: &Vec<DirEntry>) -> (names: Vec<String>)
    ensures
        names_of(names@) == stale_names(entries@),
{
    let mut names: Vec<String> = Vec::new();
    let mut i: usize = 0;
    assert(entries@.take(0) =~= Seq::<DirEntry>::empty());
    assert(names_of(names@) =~= Seq::<Seq<char>>::empty());
    while i < entries.len()
        invariant
            i <= entries.len(),
            names_of(names@) == stale_names(entries@.take(i as int)),
        decreases entries.len() - i,
    {
        assert(entries@.take(i + 1).drop_last() =~= entries@.take(i as int));
        let entry = &entries[i];
        let stale = match entry.kind {
            EntryKind::File => is_merged_file(entry.name.as_str()),
            _ => false,
        };
        if stale {
            let ghost before = names_of(names@);
            names.push(entry.name.clone());
            assert(names_of(names@) =~= before.push(entry.name@));
        }
        i = i + 1;
    }
    assert(entries@.take(i as int) =~= entries@);
    names
}

/// A copy of the names.
fn copy_names(names: &Vec<String>) -> (copy: Vec<String>)
    ensures
        names_of(copy@) == names_of(names@),
{
    let mut copy: Vec<String> = Vec::new();
    let mut i: usize = 0;
    while i < names.len()
        invariant
            i <= names.len(),
            names_of(copy@) =~= names_of(names@).take(i as int),
        decreases names.len() - i,
    {
        let ghost before = names_of(copy@);
        copy.push(names[i].clone());
        assert(names_of(copy@) =~= before.push(names@[i as int]@));
        i = i + 1;
    }
    assert(names_of(names@).take(i as int) =~= names_of(names@));
    copy
}

/// The merge of one directory, under way.
#[derive(Debug)]
pub struct MergeJob {
    stage: MergeStage,
    files: Vec<String>,
    output_name: String,
    next: usize,
    images: Vec<ImageInfo>,
    skipped: Vec<SkippedFile>,
    error: Option<MergeError>,
    detail: String,
}

impl View for MergeJob {
    type V = JobData;

    closed spec fn view(&self) -> JobData {
        JobData {
            stage: self.stage,
            files: names_of(self.files@),
            output_name: self.output_name@,
            next: self.next as nat,
            images: images_of(self.images@),
            skipped: skipped_of(self.skipped@),
            error: self.error,
            detail: self.detail@,
        }
    }
}

impl MergeJob {
    /// What holds of a job at every step: its images are well formed, while
    /// it has files to ask for it knows which one comes next, and the name of
    /// the composite, once it is made, is one that `is_merged_file`
    /// recognises.
    pub closed spec fn wf(&self) -> bool {
        &&& all_wf(self.images@)
        &&& self.files@.len() < 2 ==> self.stage == MergeStage::Failed
        &&& self.stage == MergeStage::Loading ==> self.next < self.files@.len()
        &&& (self.stage == MergeStage::AwaitingTimes || self.stage == MergeStage::AwaitingListing
            || self.stage == MergeStage::AwaitingRemoval) ==> self.next == 0
        &&& self.stage != MergeStage::AwaitingTimes && self.stage != MergeStage::Failed
            ==> is_merged_name(self.output_name@)
    }

    fn fail(&mut self, error: MergeError) -> (action: MergeAction)
        requires
            all_wf(old(self).images@),
        ensures
            final(self).wf(),
            (final(self)@, action@) == failed(old(self)@, error, error.message_text()),
    {
        self.fail_with(error, error.message())
    }

    fn fail_with(&mut self, error: MergeError, detail: String) -> (action: MergeAction)
        requires
            all_wf(old(self).images@),
        ensures
            final(self).wf(),
            (final(self)@, action@) == failed(old(self)@, error, detail@),
    {
        self.stage = MergeStage::Failed;
        self.error = Some(error);
        self.detail = detail.clone();
        MergeAction::Failed { error, detail }
    }

    fn compose(&mut self) -> (action: MergeAction)
        requires
            all_wf(old(self).images@),
            old(self).files@.len() >= 2,
            is_merged_name(old(self).output_name@),
        ensures
            final(self).wf(),
            (final(self)@, action@) == composed(old(self)@),
    {
        let canvas = match merge_images(&self.images) {
            Ok(canvas) => canvas,
            Err(e) => {
                return self.fail(e);
            },
        };
        match to_png(&canvas) {
            Ok(bytes) => {
                self.stage = MergeStage::AwaitingWrite;
                MergeAction::WriteFile { name: self.output_name.clone(), bytes }
            },
            Err(reason) => self.fail_with(MergeError::PersistFailed, reason),
        }
    }

    fn take_file(&mut self, content: Result<Vec<u8>, String>)
        requires
            old(self).wf(),
            old(self).stage == MergeStage::Loading,
        ensures
            all_wf(final(self).images@),
            final(self).stage == MergeStage::Loading,
            final(self).next <= final(self).files@.len(),
            final(self).files@.len() >= 2,
            is_merged_name(final(self).output_name@),
            final(self)@ == after_file(old(self)@, content),
    {
        let count: usize = self.files.len();
        assert(self.next < count);
        let outcome: Result<ImageInfo, String> = match &content {
            Ok(bytes) => match load_image_info(self.files[self.next].as_str(), bytes) {
                Ok(info) => Ok(info),
                Err(e) => Err(e.message()),
            },
            Err(reason) => Err(reason.clone()),
        };
        match outcome {
            Ok(info) => {
                let ghost before = images_of(self.images@);
                self.images.push(info);
                assert(images_of(self.images@) =~= before.push(info.image@));
            },
            Err(reason) => {
                let ghost before = skipped_of(self.skipped@);
                let file = SkippedFile { path: self.files[self.next].clone(), reason };
                self.skipped.push(file);
                assert(skipped_of(self.skipped@) =~= before.push(file@));
            },
        }
        self.next = self.next + 1;
    }

    /// Takes what came of the action that the job had asked for, and says what
    /// is to be done next. The name under which a composite is handed over for
    /// writing is one that `is_merged_file` recognises.
    pub fn step(&mut self, event: MergeEvent) -> (action: MergeAction)
        requires
            old(self).wf(),
        ensures
            final(self).wf(),
            (final(self)@, action@) == stepped(old(self)@, event),
            action matches MergeAction::WriteFile { name, .. } ==> is_merged_name(name@),
            action matches MergeAction::Done { name } ==> is_merged_name(name@),
    {
        match (self.stage, event) {
            (MergeStage::AwaitingTimes, MergeEvent::Times(times)) => {
                let time = match find_latest_creation_date(&times) {
                    Ok(time) => time,
                    Err(e) => {
                        return self.fail(e);
                    },
                };
                match derive_output_name(time) {
                    Ok(name) => {
                        self.output_name = name;
                        self.stage = MergeStage::AwaitingListing;
                        MergeAction::ListDirectory
                    },
                    Err(e) => self.fail(e),
                }
            },
            (MergeStage::AwaitingListing, MergeEvent::Listing(entries)) => {
                self.stage = MergeStage::AwaitingRemoval;
                MergeAction::RemoveFiles { names: stale_outputs(&entries) }
            },
            (MergeStage::AwaitingListing, MergeEvent::ListingFailed(detail)) => self.fail_with(
                MergeError::FilesystemError,
                detail,
            ),
            (MergeStage::AwaitingRemoval, MergeEvent::Removed) => {
                self.stage = MergeStage::Loading;
                MergeAction::ReadFile { path: self.files[0].clone() }
            },
            (MergeStage::AwaitingRemoval, MergeEvent::RemovalFailed(detail)) => self.fail_with(
                MergeError::FilesystemError,
                detail,
            ),
            (MergeStage::Loading, MergeEvent::FileRead(content)) => {
                self.take_file(content);
                if self.next < self.files.len() {
                    MergeAction::ReadFile { path: self.files[self.next].clone() }
                } else {
                    self.compose()
                }
            },
            (MergeStage::AwaitingWrite, MergeEvent::Written) => {
                self.stage = MergeStage::Done;
                MergeAction::Done { name: self.output_name.clone() }
            },
            (MergeStage::AwaitingWrite, MergeEvent::WriteFailed(detail)) => self.fail_with(
                MergeError::PersistFailed,
                detail,
            ),
            _ => MergeAction::Ignored,
        }
    }

    /// Where the job stands.
    pub fn stage(&self) -> (stage: MergeStage)
        ensures
            stage == self@.stage,
    {
        self.stage
    }

    /// The files that were read and gave no image, in the order of the files,
    /// each with the reason.
    pub fn skipped(&self) -> (skipped: &Vec<SkippedFile>)
        ensures
            skipped_of(skipped@) == self@.skipped,
    {
        &self.skipped
    }
}

/// Begins the merge of the image files of a directory, which are given in the
/// order in which they are to stand in the composite: counts them, and for two
/// or more asks for their times.
pub fn merge_images_in_directory(image_files: Vec<String>) -> (r: (MergeJob, MergeAction))
    ensures
        r.0.wf(),
        (r.0@, r.1@) == begun(names_of(image_files@)),
{
    let count: usize = image_files.len();
    let mut job = MergeJob {
        stage: MergeStage::AwaitingTimes,
        files: image_files,
        output_name: String::new(),
        next: 0,
        images: Vec::new(),
        skipped: Vec::new(),
        error: None,
        detail: String::new(),
    };
    assert(images_of(job.images@) =~= Seq::<RasterData>::empty());
    assert(skipped_of(job.skipped@) =~= Seq::<SkippedData>::empty());
    if count == 0 {
        let action = job.fail(MergeError::EmptyInput);
        (job, action)
    } else if count == 1 {
        let action = job.fail(MergeError::SingleImage);
        (job, action)
    } else {
        let paths = copy_names(&job.files);
        (job, MergeAction::StatFiles { paths })
    }
}

/// Whether an entry is an earlier composite: a regular file with the name of
/// one.
pub open spec fn is_stale(entry: DirEntry) -> bool {
    entry.kind == EntryKind::File && is_merged_name(entry.name@)
}

/// The entries of a directory once its earlier composites are removed.
pub open spec fn without_stale(entries: Seq<DirEntry>) -> Seq<DirEntry>
    decreases entries.len(),
{
    if entries.len() == 0 {
        Seq::empty()
    } else if is_stale(entries.last()) {
        without_stale(entries.drop_last())
    } else {
        without_stale(entries.drop_last()).push(entries.last())
    }
}

/// Removing the earlier composites takes no candidate away and leaves no
/// composite behind.
pub proof fn lemma_without_stale(entries: Seq<DirEntry>)
    ensures
        candidates(without_stale(entries)) == candidates(entries),
        stale_names(without_stale(entries)) == Seq::<Seq<char>>::empty(),
    decreases entries.len(),
{
    if entries.len() > 0 {
        lemma_without_stale(entries.drop_last());
        if !is_stale(entries.last()) {
            assert(without_stale(entries).drop_last() =~= without_stale(entries.drop_last()));
        }
    }
}

/// What a job asks to be removed has the name of a composite.
pub proof fn lemma_stale_names_are_composites(entries: Seq<DirEntry>, i: int)
    requires
        0 <= i < stale_names(entries).len(),
    ensures
        is_merged_name(stale_names(entries)[i]),
    decreases entries.len(),
{
    if entries.len() > 0 {
        if i < stale_names(entries.drop_last()).len() {
            lemma_stale_names_are_composites(entries.drop_last(), i);
        }
    }
}

/// A job removes none of the files that the scanner lists: the sources of a
/// composite stay where they are.
pub proof fn lemma_sources_are_not_removed(
    scanned: Seq<DirEntry>,
    listed: Seq<DirEntry>,
    i: int,
    j: int,
)
    requires
        0 <= i < image_files_of(scanned).len(),
        0 <= j < stale_names(listed).len(),
    ensures
        image_files_of(scanned)[i] != stale_names(listed)[j],
{
    lemma_image_files_are_images(scanned, i);
    lemma_stale_names_are_composites(listed, j);
}

/// Once the earlier composites are removed there is none left to remove.
pub proof fn lemma_without_stale_twice(entries: Seq<DirEntry>)
    ensures
        without_stale(without_stale(entries)) == without_stale(entries),
    decreases entries.len(),
{
    if entries.len() > 0 {
        lemma_without_stale_twice(entries.drop_last());
        if !is_stale(entries.last()) {
            assert(without_stale(entries).drop_last() =~= without_stale(entries.drop_last()));
        }
    }
}

/// A second merge leaves the directory as the first one left it: it removes
/// the composite that the first one wrote and writes one of the same name, so
/// that the directory holds the entries that it held after the first.
pub proof fn lemma_second_merge_changes_nothing(entries: Seq<DirEntry>, written: DirEntry)
    requires
        is_stale(written),
    ensures
        without_stale(without_stale(entries).push(written)).push(written) == without_stale(
            entries,
        ).push(written),
{
    let after = without_stale(entries).push(written);
    assert(after.drop_last() =~= without_stale(entries));
    lemma_without_stale_twice(entries);
}

/// A merge changes nothing for the next one: with the earlier composites
/// removed and the new one written, the directory holds the image files that
/// it held before.
pub proof fn lemma_merge_keeps_the_image_files(entries: Seq<DirEntry>, written: DirEntry)
    requires
        is_merged_name(written.name@),
    ensures
        candidates(without_stale(entries).push(written)) == candidates(entries),
        image_files_of(without_stale(entries).push(written)) == image_files_of(entries),
{
    lemma_without_stale(entries);
    assert(without_stale(entries).push(written).drop_last() =~= without_stale(entries));
}

/// After a merge the directory holds one composite, the one just written:
/// the next merge finds that one to remove and no other.
pub proof fn lemma_merge_leaves_one_composite(entries: Seq<DirEntry>, written: DirEntry)
    requires
        is_stale(written),
    ensures
        stale_names(without_stale(entries).push(written)) == seq![written.name@],
{
    lemma_without_stale(entries);
    assert(without_stale(entries).push(written).drop_last() =~= without_stale(entries));
    assert(Seq::<Seq<char>>::empty().push(written.name@) =~= seq![written.name@]);
}

/// The job after the contents of its files, in the order of the files, have
/// been told to it one after the other.
pub open spec fn told_contents(job: JobData, contents: Seq<Result<Vec<u8>, String>>) -> (
    JobData,
    ActionData,
)
    decreases contents.len(),
{
    if contents.len() == 0 {
        (job, ActionData::ReadFile { path: job.files[job.next as int] })
    } else {
        stepped(told_contents(job, contents.drop_last()).0, MergeEvent::FileRead(contents.last()))
    }
}

/// The images that the files with the given contents give, in the order of the
/// files; a file that gives none is passed over.
pub open spec fn images_from(
    files: Seq<Seq<char>>,
    contents: Seq<Result<Vec<u8>, String>>,
) -> Seq<RasterData>
    decreases contents.len(),
{
    if contents.len() == 0 {
        Seq::empty()
    } else {
        let before = images_from(files, contents.drop_last());
        match image_of(files[contents.len() - 1], contents.last()) {
            Ok(image) => before.push(image),
            Err(_) => before,
        }
    }
}

/// A whole run of a job in which the file system does all that is asked of it:
/// the job for the given files is told their times, the entries of the
/// directory, that the earlier composites are removed, and the content of each
/// file.
pub open spec fn run(
    files: Seq<Seq<char>>,
    times: Vec<FileTimes>,
    entries: Vec<DirEntry>,
    contents: Seq<Result<Vec<u8>, String>>,
) -> (JobData, ActionData) {
    let asked = begun(files).0;
    let named = stepped(asked, MergeEvent::Times(times)).0;
    let listed = stepped(named, MergeEvent::Listing(entries)).0;
    let cleared = stepped(listed, MergeEvent::Removed).0;
    told_contents(cleared, contents)
}

/// The name that a job makes from the times of its files.
pub open spec fn name_from(times: Seq<FileTimes>) -> Option<Seq<char>> {
    match latest(preferred_times(times)) {
        Some(time) => output_name_of(time),
        None => None,
    }
}

/// A job that is loading, told the contents of some but not all of its files,
/// has gathered the images that these give and asks for the next file.
pub proof fn lemma_told_contents(job: JobData, contents: Seq<Result<Vec<u8>, String>>)
    requires
        job.stage == MergeStage::Loading,
        job.next == 0,
        job.images == Seq::<RasterData>::empty(),
        contents.len() < job.files.len(),
    ensures
        told_contents(job, contents).0.stage == MergeStage::Loading,
        told_contents(job, contents).0.next == contents.len(),
        told_contents(job, contents).0.files == job.files,
        told_contents(job, contents).0.output_name == job.output_name,
        told_contents(job, contents).0.images == images_from(job.files, contents),
        told_contents(job, contents).1 == (ActionData::ReadFile {
            path: job.files[contents.len() as int],
        }),
    decreases contents.len(),
{
    if contents.len() > 0 {
        lemma_told_contents(job, contents.drop_last());
    }
}

/// What a whole run comes to, where the file system does all that is asked of
/// it. A job for two or more files asks for the earlier composites of the
/// directory to be removed, and for no other file. It ends by asking for the
/// composite to be written exactly where a name can be made from the times, a
/// composite of the images that decode can be had, and the encoder takes it;
/// the composite is that of those images in the order of the files, and its
/// name the dated one. Told that it is written, the job is done. The directory
/// then holds one composite, the one written, and the image files that it held
/// before: a second run finds the same files, and with the same times makes
/// the same name.
pub proof fn lemma_whole_run(
    files: Seq<Seq<char>>,
    times: Vec<FileTimes>,
    entries: Vec<DirEntry>,
    contents: Seq<Result<Vec<u8>, String>>,
    written: DirEntry,
)
    requires
        files.len() >= 2,
        contents.len() == files.len(),
    ensures
        name_from(times@) is Some ==> stepped(
            stepped(begun(files).0, MergeEvent::Times(times)).0,
            MergeEvent::Listing(entries),
        ).1 == (ActionData::RemoveFiles { names: stale_names(entries@) }),
        run(files, times, entries, contents).0.stage == MergeStage::AwaitingWrite <==> {
            &&& name_from(times@) is Some
            &&& composite_of(images_from(files, contents)) matches Ok(canvas)
            &&& png_encoding(canvas.pixels, canvas.width, canvas.height) is Ok
        },
        run(files, times, entries, contents).0.stage == MergeStage::AwaitingWrite ==> {
            let end = run(files, times, entries, contents);
            let canvas = composite_of(images_from(files, contents))->Ok_0;
            let name = name_from(times@)->Some_0;
            &&& end.1 == (ActionData::WriteFile {
                name: name,
                bytes: png_encoding(canvas.pixels, canvas.width, canvas.height)->Ok_0,
            })
            &&& is_merged_name(name)
            &&& stepped(end.0, MergeEvent::Written).0.stage == MergeStage::Done
            &&& stepped(end.0, MergeEvent::Written).1 == (ActionData::Done { name: name })
            &&& (written.kind == EntryKind::File && written.name@ == name ==> {
                &&& stale_names(without_stale(entries@).push(written)) == seq![name]
                &&& image_files_of(without_stale(entries@).push(written)) == image_files_of(
                    entries@,
                )
            })
        },
{
    let asked = begun(files).0;
    let named = stepped(asked, MergeEvent::Times(times)).0;
    let listed = stepped(named, MergeEvent::Listing(entries)).0;
    let cleared = stepped(listed, MergeEvent::Removed).0;
    if name_from(times@) is Some {
        lemma_output_name_is_merged(latest(preferred_times(times@))->Some_0);
        let most = contents.drop_last();
        lemma_told_contents(cleared, most);
        let before = told_contents(cleared, most).0;
        let read = after_file(before, contents.last());
        assert(read.images == images_from(files, contents));
        if run(files, times, entries, contents).0.stage == MergeStage::AwaitingWrite {
            if written.kind == EntryKind::File && written.name@ == name_from(times@)->Some_0 {
                lemma_merge_leaves_one_composite(entries@, written);
                lemma_merge_keeps_the_image_files(entries@, written);
            }
        }
    } else {
        lemma_failed_stays_failed(named, contents, entries);
    }
}

/// A job that has failed takes no event: it stands where it stood.
pub proof fn lemma_failed_stays_failed(
    job: JobData,
    contents: Seq<Result<Vec<u8>, String>>,
    entries: Vec<DirEntry>,
)
    requires
        job.stage == MergeStage::Failed,
    ensures
        stepped(job, MergeEvent::Listing(entries)).0 == job,
        stepped(job, MergeEvent::Removed).0 == job,
        told_contents(job, contents).0 == job,
    decreases contents.len(),
{
    if contents.len() > 0 {
        lemma_failed_stays_failed(job, contents.drop_last(), entries);
    }
}

/// The name of the composite follows from the times of the files alone: two
/// jobs that are told the same times make the same name, or both make none.
pub proof fn lemma_same_times_same_name(
    first: JobData,
    second: JobData,
    times: Vec<FileTimes>,
)
    requires
        first.stage == MergeStage::AwaitingTimes,
        second.stage == MergeStage::AwaitingTimes,
    ensures
        stepped(first, MergeEvent::Times(times)).1 == stepped(second, MergeEvent::Times(times)).1,
        stepped(first, MergeEvent::Times(times)).0.stage == stepped(
            second,
            MergeEvent::Times(times),
        ).0.stage,
        stepped(first, MergeEvent::Times(times)).0.stage == MergeStage::AwaitingListing ==> stepped(
            first,
            MergeEvent::Times(times),
        ).0.output_name == stepped(second, MergeEvent::Times(times)).0.output_name,
{
}

} // verus!
