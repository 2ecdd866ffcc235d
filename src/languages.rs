//! The language registry: which grammar and splitter handle which file extension.
use vstd::prelude::*;

use code_splitter::{Splitter, WordCounter};

use crate::text::line_feeds;

verus! {

/// The grammar of JavaScript, as the splitters record it.
pub const JAVASCRIPT: u8 = 0;

/// The grammar of Rust.
pub const RUST: u8 = 1;

/// The grammar of Python.
pub const PYTHON: u8 = 2;

/// The grammar of TypeScript.
pub const TYPESCRIPT: u8 = 3;

/// The splitter of `code_splitter` itself. Verus takes no declaration of `Splitter`,
/// whose parameter is bound by a trait of its crate, so it is held here, out of Verus's
/// sight, and reached through wrappers.
#[verifier::external_body]
struct SplitterHolder {
    inner: Splitter<WordCounter>,
}

/// A syntax-aware splitter that weighs chunks by word count, with the grammar it was
/// built on. Only the constructors below make one, each for its own grammar.
pub struct SyntaxSplitter {
    grammar: u8,
    holder: SplitterHolder,
}

impl SyntaxSplitter {
    /// The grammar this splitter parses with.
    pub closed spec fn grammar(&self) -> u8 {
        self.grammar
    }
}

/// Relies on `code_splitter::Splitter::new` with `tree_sitter_javascript::language()` and
/// `WordCounter`: the grammar's ABI version is one that tree-sitter accepts, which is
/// the only check `new` makes, so a splitter comes back.
#[verifier::external_body]
fn javascript_splitter() -> (r: Option<SyntaxSplitter>)
    ensures
        r is Some && r->Some_0.grammar() == JAVASCRIPT,
{
    Splitter::new(tree_sitter_javascript::language(), WordCounter).ok().map(
        |inner| SyntaxSplitter { grammar: JAVASCRIPT, holder: SplitterHolder { inner } },
    )
}

/// Relies on `code_splitter::Splitter::new` with `tree_sitter_rust::language()` and
/// `WordCounter`: the grammar's ABI version is one that tree-sitter accepts, so a
/// splitter comes back.
#[verifier::external_body]
fn rust_splitter() -> (r: Option<SyntaxSplitter>)
    ensures
        r is Some && r->Some_0.grammar() == RUST,
{
    Splitter::new(tree_sitter_rust::language(), WordCounter).ok().map(
        |inner| SyntaxSplitter { grammar: RUST, holder: SplitterHolder { inner } },
    )
}

/// Relies on `code_splitter::Splitter::new` with `tree_sitter_python::language()` and
/// `WordCounter`: the grammar's ABI version is one that tree-sitter accepts, so a
/// splitter comes back.
#[verifier::external_body]
fn python_splitter() -> (r: Option<SyntaxSplitter>)
    ensures
        r is Some && r->Some_0.grammar() == PYTHON,
{
    Splitter::new(tree_sitter_python::language(), WordCounter).ok().map(
        |inner| SyntaxSplitter { grammar: PYTHON, holder: SplitterHolder { inner } },
    )
}

/// Relies on `code_splitter::Splitter::new` with
/// `tree_sitter_typescript::language_typescript()` and `WordCounter`: the grammar's ABI
/// version is one that tree-sitter accepts, so a splitter comes back.
#[verifier::external_body]
fn typescript_splitter() -> (r: Option<SyntaxSplitter>)
    ensures
        r is Some && r->Some_0.grammar() == TYPESCRIPT,
{
    Splitter::new(tree_sitter_typescript::language_typescript(), WordCounter).ok().map(
        |inner| SyntaxSplitter { grammar: TYPESCRIPT, holder: SplitterHolder { inner } },
    )
}

/// One chunk as the splitter reports it: the rows its range starts and ends on (from
/// zero), and its weight in words.
pub struct SplitSpan {
    pub start_row: usize,
    pub end_row: usize,
    pub size: usize,
}

/// The spans as (start row, end row, size) triples.
pub open spec fn span_tuples(v: Seq<SplitSpan>) -> Seq<(usize, usize, usize)> {
    v.map_values(|s: SplitSpan| (s.start_row, s.end_row, s.size))
}

/// The chunks, as (start row, end row, size), that the splitter of `grammar` cuts `code`
/// into, or `None` when it fails: they depend on the grammar and the code alone.
pub uninterp spec fn split_spans(grammar: u8, code: Seq<char>) -> Option<
    Seq<(usize, usize, usize)>,
>;

/// Relies on `code_splitter::Splitter::split` on the bytes of `code`: the chunks in
/// order, each with the rows of its range and its word count, or the error's message.
/// Each chunk weighs at least one word and its rows run forward, no further than the
/// number of line feeds (tree-sitter counts rows by line feed). Empty code gives none.
#[verifier::external_body]
pub(crate) fn split_code(splitter: &SyntaxSplitter, code: &str) -> (r: Result<
    Vec<SplitSpan>,
    String,
>)
    ensures
        r is Ok <==> split_spans(splitter.grammar(), code@) is Some,
        r is Ok ==> span_tuples(r->Ok_0@) == split_spans(splitter.grammar(), code@)->Some_0,
        r is Ok ==> forall|i: int|
            0 <= i < r->Ok_0@.len() ==> {
                &&& (#[trigger] r->Ok_0@[i]).size >= 1
                &&& r->Ok_0@[i].start_row <= r->Ok_0@[i].end_row
                &&& r->Ok_0@[i].end_row <= line_feeds(code@)
            },
        code@.len() == 0 ==> r is Ok && r->Ok_0@.len() == 0,
{
    match splitter.holder.inner.split(code.as_bytes()) {
        Ok(chunks) => Ok(chunks.into_iter().map(|c| SplitSpan {
            start_row: c.range.start_point.row,
            end_row: c.range.end_point.row,
            size: c.size,
        }).collect()),
        Err(e) => Err(e.to_string()),
    }
}

/// A language the chunker can split: its name, the file extensions that select it, and
/// the splitter built on its grammar.
pub struct CodeLanguage {
    pub name: String,
    pub extensions: Vec<String>,
    pub splitter: SyntaxSplitter,
}

/// `l` is named `name`, selected by the one extension `ext`, and split with `grammar`.
pub open spec fn is_entry(l: CodeLanguage, name: Seq<char>, ext: Seq<char>, grammar: u8) -> bool {
    &&& l.name@ == name
    &&& l.splitter.grammar() == grammar
    &&& l.extensions@.len() == 1
    &&& l.extensions@[0]@ == ext
}

/// The registry: JavaScript (`js`), Rust (`rs`), Python (`py`) and TypeScript (`ts`), in
/// that order.
pub open spec fn is_registry(langs: Seq<CodeLanguage>) -> bool {
    &&& langs.len() == 4
    &&& is_entry(langs[0], "javascript"@, "js"@, JAVASCRIPT)
    &&& is_entry(langs[1], "rust"@, "rs"@, RUST)
    &&& is_entry(langs[2], "python"@, "py"@, PYTHON)
    &&& is_entry(langs[3], "typescript"@, "ts"@, TYPESCRIPT)
}

/// Whether `l` is selected by the extension `ext`.
pub open spec fn handles(l: CodeLanguage, ext: Seq<char>) -> bool {
    exists|j: int| 0 <= j < l.extensions@.len() && #[trigger] l.extensions@[j]@ == ext
}

/// The first language of `langs` that the extension `ext` selects.
pub open spec fn first_handler(langs: Seq<CodeLanguage>, ext: Seq<char>) -> Option<int>
    decreases langs.len(),
{
    if langs.len() == 0 {
        None
    } else {
        match first_handler(langs.drop_last(), ext) {
            Some(i) => Some(i),
            None => if handles(langs.last(), ext) {
                Some(langs.len() - 1)
            } else {
                None
            },
        }
    }
}

/// The first match is the least index of a language that the extension selects.
pub proof fn lemma_first_handler(langs: Seq<CodeLanguage>, ext: Seq<char>)
    ensures
        first_handler(langs, ext) matches Some(i) ==> 0 <= i < langs.len() && handles(
            langs[i],
            ext,
        ) && forall|k: int| 0 <= k < i ==> !handles(#[trigger] langs[k], ext),
        first_handler(langs, ext) is None ==> forall|k: int|
            0 <= k < langs.len() ==> !handles(#[trigger] langs[k], ext),
    decreases langs.len(),
{
    if langs.len() > 0 {
        let prev = langs.drop_last();
        lemma_first_handler(prev, ext);
        assert forall|k: int| 0 <= k < prev.len() implies #[trigger] prev[k] == langs[k] by {}
        match first_handler(prev, ext) {
            Some(i) => {
                assert forall|k: int| 0 <= k < i implies !handles(#[trigger] langs[k], ext) by {
                    assert(prev[k] == langs[k]);
                }
            },
            None => {
                assert forall|k: int| 0 <= k < prev.len() implies !handles(
                    #[trigger] langs[k],
                    ext,
                ) by {
                    assert(prev[k] == langs[k]);
                }
            },
        }
    }
}

proof fn lemma_first_handler_prefix(langs: Seq<CodeLanguage>, ext: Seq<char>, m: int)
    requires
        0 <= m <= langs.len(),
        first_handler(langs.take(m), ext) is Some,
    ensures
        first_handler(langs, ext) == first_handler(langs.take(m), ext),
    decreases langs.len(),
{
    if m == langs.len() {
        assert(langs.take(m) == langs);
    } else {
        assert(langs.drop_last().take(m) == langs.take(m));
        lemma_first_handler_prefix(langs.drop_last(), ext, m);
    }
}

fn make_language(name: &str, extension: &str, splitter: SyntaxSplitter) -> (r: CodeLanguage)
    ensures
        is_entry(r, name@, extension@, splitter.grammar()),
{
    let mut extensions: Vec<String> = Vec::new();
    extensions.push(String::from_str(extension));
    CodeLanguage { name: String::from_str(name), extensions, splitter }
}

/// Builds the registry: JavaScript, Rust, Python and TypeScript, each with the splitter
/// of its own grammar.
pub fn init_languages() -> (r: Vec<CodeLanguage>)
    ensures
        is_registry(r@),
{
    let mut v: Vec<CodeLanguage> = Vec::new();
    if let (Some(js), Some(rs), Some(py), Some(ts)) = (
        javascript_splitter(),
        rust_splitter(),
        python_splitter(),
        typescript_splitter(),
    ) {
        v.push(make_language("javascript", "js", js));
        v.push(make_language("rust", "rs", rs));
        v.push(make_language("python", "py", py));
        v.push(make_language("typescript", "ts", ts));
    }
    v
}

/// Whether the extension `ext` selects `l`.
pub fn language_handles(l: &CodeLanguage, ext: &String) -> (r: bool)
    ensures
        r == handles(*l, ext@),
{
    let n = l.extensions.len();
    let mut j: usize = 0;
    while j < n
        invariant
            n == l.extensions@.len(),
            j <= n,
            forall|k: int| 0 <= k < j ==> #[trigger] l.extensions@[k]@ != ext@,
        decreases n - j,
    {
        if l.extensions[j].eq(ext) {
            return true;
        }
        j = j + 1;
    }
    false
}

/// The index of the first language that the extension `ext` selects; first match wins.
pub fn find_language(languages: &[CodeLanguage], ext: &String) -> (r: Option<usize>)
    ensures
        r matches Some(i) ==> first_handler(languages@, ext@) == Some(i as int),
        r is None ==> first_handler(languages@, ext@) is None,
{
    let n = languages.len();
    let mut k: usize = 0;
    while k < n
        invariant
            n == languages@.len(),
            k <= n,
            first_handler(languages@.take(k as int), ext@) is None,
        decreases n - k,
    {
        assert(languages@.take(k + 1).drop_last() == languages@.take(k as int));
        if language_handles(&languages[k], ext) {
            proof {
                lemma_first_handler_prefix(languages@, ext@, k + 1);
            }
            return Some(k);
        }
        k = k + 1;
    }
    assert(languages@.take(n as int) == languages@);
    None
}

} // verus!
