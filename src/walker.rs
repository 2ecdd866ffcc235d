//! The chunk stream: a directory walk and the file chunker as one pull-driven state machine.
//!
//! The machine decides; its driver does the file system work. Each pull (`next_step`)
//! yields a buffered chunk, or asks the driver to read the next entry of the directory
//! being read, or to open the next pending directory, or reports that the walk is over.
//! The driver reports back what it found with `found_directory`, `found_file`,
//! `directory_opened` and `directory_finished`. A directory that cannot be opened, or an
//! entry that cannot be read, is simply not reported.
use vstd::prelude::*;

use crate::languages::CodeLanguage;
use crate::paths::{extension_of, file_name_of};
use crate::split::{
    are_records_of, file_spans, language_of, process_file, ChunkMetadata, FileSkip,
};
use crate::text::{is_blank, lines_of};

verus! {

/// The state of a walk over a source tree.
pub struct CodeFileSplitter {
    /// Directories found and not yet opened; the last is opened next.
    pub directories: Vec<String>,
    /// Whether the entries of a directory are being read.
    pub reading: bool,
    /// Chunks of the files read so far that are not yet handed out, in order.
    pub chunks: Vec<ChunkMetadata>,
}

/// What the driver of a walk is to do next.
pub enum WalkStep {
    /// Hand this chunk to the consumer.
    Chunk(ChunkMetadata),
    /// Read the next entry of the directory being read, and report it.
    ReadEntry,
    /// Open this directory's entries; report `directory_opened` if that succeeds, nothing
    /// if it fails.
    OpenDirectory(String),
    /// The walk is over.
    Done,
}

/// A chunk that carries text carries some that is not blank.
pub open spec fn text_not_blank(c: ChunkMetadata) -> bool {
    c.text is Some ==> !is_blank(c.text->Some_0@)
}

/// A directory that cannot be opened takes nothing from its siblings. When a walk with
/// nothing buffered hands out directory `d` (the state goes from `before` to `after`, as
/// `next_step` says) and the driver reports nothing back, the walk is in the very state
/// it would be in had `d` never been found (`never_found`). From there every step, and
/// so every chunk of every other directory, is the same.
pub proof fn lemma_unreadable_directory_as_if_absent(
    before: CodeFileSplitter,
    after: CodeFileSplitter,
    never_found: CodeFileSplitter,
    d: String,
)
    requires
        before.chunks@.len() == 0,
        !before.reading,
        before.directories@ == never_found.directories@.push(d),
        before.chunks@ == never_found.chunks@,
        before.reading == never_found.reading,
        after.chunks@ == before.chunks@,
        after.directories@ == before.directories@.drop_last(),
        after.reading == before.reading,
    ensures
        after.directories@ == never_found.directories@,
        after.chunks@ == never_found.chunks@,
        after.reading == never_found.reading,
{
    assert(never_found.directories@.push(d).drop_last() == never_found.directories@);
}

impl CodeFileSplitter {
    /// Every buffered chunk that carries text carries some that is not blank.
    pub open spec fn wf(&self) -> bool {
        forall|i: int| 0 <= i < self.chunks@.len() ==> text_not_blank(#[trigger] self.chunks@[i])
    }

    /// A walk of the tree rooted at `root`.
    pub fn new(root: String) -> (r: CodeFileSplitter)
        ensures
            r.directories@ == seq![root],
            !r.reading,
            r.chunks@.len() == 0,
            r.wf(),
    {
        let mut directories: Vec<String> = Vec::new();
        directories.push(root);
        CodeFileSplitter { directories, reading: false, chunks: Vec::new() }
    }

    /// The next thing to do: hand out the oldest buffered chunk; else read on in the
    /// directory being read; else open the directory found last; else stop.
    pub fn next_step(&mut self) -> (r: WalkStep)
        ensures
            old(self).wf() ==> final(self).wf(),
            old(self).wf() ==> (r matches WalkStep::Chunk(c) ==> text_not_blank(c)),
            old(self).chunks@.len() > 0 ==> {
                &&& r == WalkStep::Chunk(old(self).chunks@[0])
                &&& final(self).chunks@ == old(self).chunks@.drop_first()
                &&& final(self).directories@ == old(self).directories@
                &&& final(self).reading == old(self).reading
            },
            old(self).chunks@.len() == 0 && old(self).reading ==> {
                &&& r == WalkStep::ReadEntry
                &&& final(self).chunks@ == old(self).chunks@
                &&& final(self).directories@ == old(self).directories@
                &&& final(self).reading
            },
            old(self).chunks@.len() == 0 && !old(self).reading && old(self).directories@.len()
                > 0 ==> {
                &&& r == WalkStep::OpenDirectory(old(self).directories@.last())
                &&& final(self).chunks@ == old(self).chunks@
                &&& final(self).directories@ == old(self).directories@.drop_last()
                &&& !final(self).reading
            },
            old(self).chunks@.len() == 0 && !old(self).reading && old(self).directories@.len()
                == 0 ==> {
                &&& r == WalkStep::Done
                &&& final(self).chunks@ == old(self).chunks@
                &&& final(self).directories@ == old(self).directories@
                &&& !final(self).reading
            },
    {
        if self.chunks.len() > 0 {
            WalkStep::Chunk(self.chunks.remove(0))
        } else if self.reading {
            WalkStep::ReadEntry
        } else {
            match self.directories.pop() {
                Some(d) => WalkStep::OpenDirectory(d),
                None => WalkStep::Done,
            }
        }
    }

    /// The directory handed out last was opened: its entries are read next.
    pub fn directory_opened(&mut self)
        ensures
            old(self).wf() ==> final(self).wf(),
            final(self).reading,
            final(self).chunks@ == old(self).chunks@,
            final(self).directories@ == old(self).directories@,
    {
        self.reading = true;
    }

    /// The directory being read has no more entries.
    pub fn directory_finished(&mut self)
        ensures
            old(self).wf() ==> final(self).wf(),
            !final(self).reading,
            final(self).chunks@ == old(self).chunks@,
            final(self).directories@ == old(self).directories@,
    {
        self.reading = false;
    }

    /// An entry of the directory being read is itself a directory: it is visited later.
    pub fn found_directory(&mut self, path: String)
        ensures
            old(self).wf() ==> final(self).wf(),
            final(self).directories@ == old(self).directories@.push(path),
            final(self).chunks@ == old(self).chunks@,
            final(self).reading == old(self).reading,
    {
        self.directories.push(path);
    }

    /// An entry of the directory being read is a file at `path`, whose text is `content`
    /// (`None`: not read, or unreadable). Its records join the buffer, after those already
    /// there; the result is how many, or why there are none.
    ///
    /// The driver need only read the files for which `language_of_path` finds a language:
    /// the others are skipped, whatever their content.
    pub fn found_file(
        &mut self,
        languages: &[CodeLanguage],
        path: &str,
        content: Option<&str>,
    ) -> (r: Result<usize, FileSkip>)
        ensures
            old(self).wf() ==> final(self).wf(),
            final(self).directories@ == old(self).directories@,
            final(self).reading == old(self).reading,
            r is Err ==> final(self).chunks@ == old(self).chunks@,
            (r == Err::<usize, FileSkip>(FileSkip::NoExtension)) <==> extension_of(
                file_name_of(path@),
            ) is None,
            (r == Err::<usize, FileSkip>(FileSkip::UnknownExtension)) <==> (extension_of(
                file_name_of(path@),
            ) is Some && language_of(languages@, path@) is None),
            (r == Err::<usize, FileSkip>(FileSkip::Unreadable)) <==> (language_of(
                languages@,
                path@,
            ) is Some && content is None),
            (r is Err && r->Err_0 is SplitFailed) <==> (language_of(languages@, path@) is Some
                && content is Some && file_spans(languages@, path@, content->Some_0@) is None),
            r is Ok <==> (language_of(languages@, path@) is Some && content is Some && file_spans(
                languages@,
                path@,
                content->Some_0@,
            ) is Some),
            r is Ok ==> {
                &&& final(self).chunks@.len() == old(self).chunks@.len() + r->Ok_0
                &&& final(self).chunks@.take(old(self).chunks@.len() as int) == old(self).chunks@
                &&& are_records_of(
                    final(self).chunks@.skip(old(self).chunks@.len() as int),
                    path@,
                    lines_of(content->Some_0@),
                    file_spans(languages@, path@, content->Some_0@)->Some_0,
                )
            },
    {
        match process_file(languages, path, content) {
            Ok(mut v) => {
                let n = v.len();
                let ghost added = v@;
                let ghost before = self.chunks@;
                self.chunks.append(&mut v);
                assert(self.chunks@.take(before.len() as int) == before);
                assert(self.chunks@.skip(before.len() as int) == added);
                let ghost spans = file_spans(languages@, path@, content->Some_0@)->Some_0;
                assert forall|i: int| 0 <= i < added.len() implies text_not_blank(
                    #[trigger] added[i],
                ) by {
                    assert(crate::split::is_record_of(
                        added[i],
                        path@,
                        lines_of(content->Some_0@),
                        spans[i],
                    ));
                }
                assert forall|i: int|
                    0 <= i < self.chunks@.len() && old(self).wf() implies text_not_blank(
                    #[trigger] self.chunks@[i],
                ) by {
                    if i < before.len() {
                        assert(self.chunks@[i] == before[i]);
                    } else {
                        assert(self.chunks@[i] == added[i - before.len()]);
                    }
                }
                Ok(n)
            },
            Err(e) => Err(e),
        }
    }
}

} // verus!
