//! The file chunker: from a file's text and the splitter's row ranges to chunk records.
use vstd::prelude::*;

use crate::languages::{
    first_handler, find_language, lemma_first_handler, span_tuples, split_code,
    split_spans, CodeLanguage, SplitSpan,
};
use crate::text::lemma_line_feeds_within_lines;
use crate::paths::{extension, extension_of, file_name, file_name_of};
use crate::text::{blank, is_blank, join_lines, join_range, lines_of, split_lines, views};

verus! {

/// One chunk of a source file.
///
/// `start_line` and `end_line` are the splitter's rows, kept as it reports them; the text
/// is that of lines `start_line` up to, not including, `end_line`. A record whose text is
/// blank, or whose rows fall outside the file, has no text and never reaches a dataset.
#[derive(Debug, Clone)]
pub struct ChunkMetadata {
    pub file_path: String,
    pub file_name: String,
    pub start_line: u64,
    pub end_line: u64,
    pub text: Option<String>,
    pub size: u64,
}

/// A file's lines, and the chunks the splitter cut its bytes into.
pub struct FileContent {
    pub lines: Vec<String>,
    pub chunks: Vec<SplitSpan>,
}

/// Why a file gave no chunks.
#[derive(Debug, Clone, PartialEq, Eq)]
pub enum FileSkip {
    /// The file name has no extension: skipped without a word.
    NoExtension,
    /// No language has the extension: skipped without a word.
    UnknownExtension,
    /// The file could not be read as text.
    Unreadable,
    /// The splitter failed, with its message.
    SplitFailed(String),
}

/// The text of the chunk over rows `[span.0, span.1)` of `lines`: present when the rows
/// lie within the file and their joined lines are not blank.
pub open spec fn chunk_text(lines: Seq<Seq<char>>, span: (usize, usize, usize)) -> Option<
    Seq<char>,
> {
    if span.0 <= span.1 <= lines.len() {
        let t = join_lines(lines.subrange(span.0 as int, span.1 as int));
        if is_blank(t) {
            None
        } else {
            Some(t)
        }
    } else {
        None
    }
}

/// The characters of an optional string.
pub open spec fn opt_view(o: Option<String>) -> Option<Seq<char>> {
    match o {
        Some(s) => Some(s@),
        None => None,
    }
}

/// `c` is the record that the file at `path` with lines `lines` gives for the splitter's
/// chunk `span`: (start row, end row, size).
pub open spec fn is_record_of(
    c: ChunkMetadata,
    path: Seq<char>,
    lines: Seq<Seq<char>>,
    span: (usize, usize, usize),
) -> bool {
    &&& c.file_path@ == path
    &&& c.file_name@ == file_name_of(path)
    &&& c.start_line as int == span.0 as int
    &&& c.end_line as int == span.1 as int
    &&& c.size as int == span.2 as int
    &&& opt_view(c.text) == chunk_text(lines, span)
}

/// `v` holds, in order, one record for each span of `spans`.
pub open spec fn are_records_of(
    v: Seq<ChunkMetadata>,
    path: Seq<char>,
    lines: Seq<Seq<char>>,
    spans: Seq<(usize, usize, usize)>,
) -> bool {
    &&& v.len() == spans.len()
    &&& forall|i: int| 0 <= i < v.len() ==> is_record_of(#[trigger] v[i], path, lines, spans[i])
}

/// The language that the extension of the file at `path` selects, if any.
pub open spec fn language_of(langs: Seq<CodeLanguage>, path: Seq<char>) -> Option<int> {
    match extension_of(file_name_of(path)) {
        Some(ext) => first_handler(langs, ext),
        None => None,
    }
}

/// A record that carries text lies within its file: `start_line <= end_line <=` the
/// number of lines.
pub proof fn lemma_kept_record_within_file(
    c: ChunkMetadata,
    path: Seq<char>,
    lines: Seq<Seq<char>>,
    span: (usize, usize, usize),
)
    requires
        is_record_of(c, path, lines, span),
        c.text is Some,
    ensures
        c.start_line <= c.end_line <= lines.len(),
{
}

/// The text of a record is the file's lines `[start_line, end_line)` joined back with
/// line feeds, exactly.
pub proof fn lemma_kept_record_rejoins_lines(
    c: ChunkMetadata,
    path: Seq<char>,
    lines: Seq<Seq<char>>,
    span: (usize, usize, usize),
)
    requires
        is_record_of(c, path, lines, span),
        c.text is Some,
    ensures
        c.text->Some_0@ == join_lines(lines.subrange(c.start_line as int, c.end_line as int)),
{
}

/// A record that carries text carries some that is not blank, so not empty either.
pub proof fn lemma_kept_record_not_blank(
    c: ChunkMetadata,
    path: Seq<char>,
    lines: Seq<Seq<char>>,
    span: (usize, usize, usize),
)
    requires
        is_record_of(c, path, lines, span),
        c.text is Some,
    ensures
        !is_blank(c.text->Some_0@),
        c.text->Some_0@.len() > 0,
{
}

/// Two records agree in path, name, rows, text and size.
pub open spec fn same_record(a: ChunkMetadata, b: ChunkMetadata) -> bool {
    &&& a.file_path@ == b.file_path@
    &&& a.file_name@ == b.file_name@
    &&& a.start_line == b.start_line
    &&& a.end_line == b.end_line
    &&& opt_view(a.text) == opt_view(b.text)
    &&& a.size == b.size
}

/// Chunking the same file twice, with the same text and the same chunks from the
/// splitter, gives the same records in the same order.
pub proof fn lemma_records_determined(
    v: Seq<ChunkMetadata>,
    w: Seq<ChunkMetadata>,
    path: Seq<char>,
    lines: Seq<Seq<char>>,
    spans: Seq<(usize, usize, usize)>,
)
    requires
        are_records_of(v, path, lines, spans),
        are_records_of(w, path, lines, spans),
    ensures
        v.len() == w.len(),
        forall|i: int| 0 <= i < v.len() ==> same_record(#[trigger] v[i], w[i]),
{
    assert forall|i: int| 0 <= i < v.len() implies same_record(#[trigger] v[i], w[i]) by {
        assert(is_record_of(v[i], path, lines, spans[i]));
        assert(is_record_of(w[i], path, lines, spans[i]));
    }
}

/// The splitter's chunks for the file at `path` whose text is `t`, cut by the splitter of
/// the first language its extension selects; `None` when there is no such language or
/// the splitter fails.
pub open spec fn file_spans(langs: Seq<CodeLanguage>, path: Seq<char>, t: Seq<char>) -> Option<
    Seq<(usize, usize, usize)>,
> {
    match language_of(langs, path) {
        Some(i) => split_spans(langs[i].splitter.grammar(), t),
        None => None,
    }
}

/// The record for one span.
pub fn build_chunk(path: &str, name: &String, lines: &Vec<String>, span: &SplitSpan) -> (r:
    ChunkMetadata)
    requires
        name@ == file_name_of(path@),
    ensures
        is_record_of(r, path@, views(lines@), (span.start_row, span.end_row, span.size)),
{
    let text = if span.start_row <= span.end_row && span.end_row <= lines.len() {
        let t = join_range(lines, span.start_row, span.end_row);
        if blank(t.as_str()) {
            None
        } else {
            Some(t)
        }
    } else {
        None
    };
    ChunkMetadata {
        file_path: String::from_str(path),
        file_name: name.clone(),
        start_line: span.start_row as u64,
        end_line: span.end_row as u64,
        text,
        size: span.size as u64,
    }
}

/// The records of a file at `path` with lines `lines`, one for each span the splitter
/// reported, in the splitter's order.
pub fn build_chunks(path: &str, lines: &Vec<String>, spans: &Vec<SplitSpan>) -> (r: Vec<
    ChunkMetadata,
>)
    ensures
        are_records_of(r@, path@, views(lines@), span_tuples(spans@)),
{
    let name = file_name(path);
    let mut r: Vec<ChunkMetadata> = Vec::new();
    let n = spans.len();
    let mut i: usize = 0;
    while i < n
        invariant
            n == spans@.len(),
            i <= n,
            name@ == file_name_of(path@),
            r@.len() == i,
            forall|k: int|
                0 <= k < i ==> is_record_of(
                    #[trigger] r@[k],
                    path@,
                    views(lines@),
                    span_tuples(spans@)[k],
                ),
        decreases n - i,
    {
        let c = build_chunk(path, &name, lines, &spans[i]);
        r.push(c);
        i = i + 1;
    }
    r
}

/// The index of the language that the extension of the file at `path` selects.
pub fn language_of_path(languages: &[CodeLanguage], path: &str) -> (r: Option<usize>)
    ensures
        r matches Some(i) ==> language_of(languages@, path@) == Some(i as int),
        r is None ==> language_of(languages@, path@) is None,
{
    let name = file_name(path);
    match extension(name.as_str()) {
        Some(ext) => find_language(languages, &ext),
        None => None,
    }
}

/// Reads a file's text into lines and has the language's splitter cut its bytes. The
/// splitter's error comes back as its message.
pub fn split_file(language: &CodeLanguage, content: &str) -> (r: Result<FileContent, String>)
    ensures
        r is Ok <==> split_spans(language.splitter.grammar(), content@) is Some,
        r is Ok ==> views(r->Ok_0.lines@) == lines_of(content@),
        r is Ok ==> span_tuples(r->Ok_0.chunks@) == split_spans(
            language.splitter.grammar(),
            content@,
        )->Some_0,
        r is Ok ==> forall|i: int|
            0 <= i < r->Ok_0.chunks@.len() ==> {
                &&& (#[trigger] r->Ok_0.chunks@[i]).start_row <= r->Ok_0.chunks@[i].end_row
                &&& r->Ok_0.chunks@[i].end_row <= lines_of(content@).len()
            },
        content@.len() == 0 ==> r is Ok && r->Ok_0.chunks@.len() == 0,
{
    let lines = split_lines(content);
    let chunks = split_code(&language.splitter, content)?;
    proof {
        lemma_line_feeds_within_lines(content@);
    }
    Ok(FileContent { lines, chunks })
}

/// The records of the file at `path`, whose text is `content` (`None`: it could not be
/// read), or why it gave none.
///
/// A file without an extension, or whose extension no language has, is skipped, whatever
/// its content. The records are those of the splitter's chunks, in order; an empty file
/// has none.
pub fn process_file(languages: &[CodeLanguage], path: &str, content: Option<&str>) -> (r: Result<
    Vec<ChunkMetadata>,
    FileSkip,
>)
    ensures
        (r == Err::<Vec<ChunkMetadata>, FileSkip>(FileSkip::NoExtension)) <==> extension_of(
            file_name_of(path@),
        ) is None,
        (r == Err::<Vec<ChunkMetadata>, FileSkip>(FileSkip::UnknownExtension)) <==> (
        extension_of(file_name_of(path@)) is Some && language_of(languages@, path@) is None),
        (r == Err::<Vec<ChunkMetadata>, FileSkip>(FileSkip::Unreadable)) <==> (language_of(
            languages@,
            path@,
        ) is Some && content is None),
        (r is Err && r->Err_0 is SplitFailed) <==> (language_of(languages@, path@) is Some
            && content is Some && file_spans(languages@, path@, content->Some_0@) is None),
        r is Ok <==> (language_of(languages@, path@) is Some && content is Some && file_spans(
            languages@,
            path@,
            content->Some_0@,
        ) is Some),
        r is Ok ==> are_records_of(
            r->Ok_0@,
            path@,
            lines_of(content->Some_0@),
            file_spans(languages@, path@, content->Some_0@)->Some_0,
        ),
        r is Ok ==> forall|i: int|
            0 <= i < r->Ok_0@.len() ==> (#[trigger] r->Ok_0@[i]).start_line <= r->Ok_0@[i].end_line
                <= lines_of(content->Some_0@).len(),
        language_of(languages@, path@) is Some && content is Some && content->Some_0@.len() == 0
            ==> r is Ok && r->Ok_0@.len() == 0,
{
    let name = file_name(path);
    let ext = match extension(name.as_str()) {
        Some(e) => e,
        None => {
            return Err(FileSkip::NoExtension);
        },
    };
    let index = match find_language(languages, &ext) {
        Some(i) => i,
        None => {
            return Err(FileSkip::UnknownExtension);
        },
    };
    proof {
        lemma_first_handler(languages@, ext@);
    }
    let text = match content {
        Some(t) => t,
        None => {
            return Err(FileSkip::Unreadable);
        },
    };
    match split_file(&languages[index], text) {
        Ok(fc) => {
            let v = build_chunks(path, &fc.lines, &fc.chunks);
            assert forall|i: int| 0 <= i < v@.len() implies (#[trigger] v@[i]).start_line
                <= v@[i].end_line <= lines_of(text@).len() by {
                assert(is_record_of(v@[i], path@, views(fc.lines@), span_tuples(fc.chunks@)[i]));
                assert(fc.chunks@[i].start_row <= fc.chunks@[i].end_row);
            }
            Ok(v)
        },
        Err(msg) => Err(FileSkip::SplitFailed(msg)),
    }
}

} // verus!
