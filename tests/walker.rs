use code_chunks::dataset::{assemble, ChunkColumns};
use code_chunks::languages::{init_languages, CodeLanguage};
use code_chunks::split::{language_of_path, ChunkMetadata, FileSkip};
use code_chunks::walker::{CodeFileSplitter, WalkStep};

/// An entry of a directory in a tree held in memory.
enum Node {
    Dir,
    File(String),
    Unreadable,
}

/// A directory's path and its entries, in the order a listing gives them.
type Listing = (String, Vec<(String, Node)>);

fn dir(path: &str, entries: Vec<(&str, Node)>) -> Listing {
    (path.to_string(), entries.into_iter().map(|(n, e)| (n.to_string(), e)).collect())
}

fn file(content: &str) -> Node {
    Node::File(format!("{content}\n"))
}

/// Drives a walk over a tree held in memory; a directory without a listing cannot be
/// opened. Returns the chunks handed out, in order.
fn walk(languages: &[CodeLanguage], root: &str, tree: &[Listing]) -> Vec<ChunkMetadata> {
    let listing = |d: &str| tree.iter().find(|(p, _)| p == d).map(|(_, e)| e);
    let mut walker = CodeFileSplitter::new(root.to_string());
    let mut out = Vec::new();
    let mut cursor: Option<(String, usize)> = None;
    loop {
        match walker.next_step() {
            WalkStep::Chunk(c) => out.push(c),
            WalkStep::Done => break,
            WalkStep::OpenDirectory(d) => {
                if listing(&d).is_some() {
                    cursor = Some((d, 0));
                    walker.directory_opened();
                }
            }
            WalkStep::ReadEntry => {
                let (d, i) = cursor.clone().unwrap();
                let entries = listing(&d).unwrap();
                if i == entries.len() {
                    cursor = None;
                    walker.directory_finished();
                    continue;
                }
                cursor = Some((d.clone(), i + 1));
                let (name, node) = &entries[i];
                let path = format!("{d}/{name}");
                match node {
                    Node::Dir => walker.found_directory(path),
                    Node::File(text) => {
                        let content = language_of_path(languages, &path).map(|_| text.as_str());
                        let _ = walker.found_file(languages, &path, content);
                    }
                    Node::Unreadable => {
                        let r = walker.found_file(languages, &path, None);
                        assert!(matches!(r, Err(FileSkip::Unreadable)));
                    }
                }
            }
        }
    }
    out
}

fn registry() -> Vec<CodeLanguage> {
    init_languages()
}

const FOO: &str = r#"
            fn foo() {
                println!("File 1");
            }
            "#;

const BAR: &str = r#"
            fn bar() {
                println!("File 2");
            }
            "#;

#[test]
fn test_code_file_splitter_iterator() {
    let languages = registry();
    let tree = vec![
        dir("/r", vec![("first", Node::Dir)]),
        dir(
            "/r/first",
            vec![("test_file_first.rs", file(FOO)), ("second", Node::Dir)],
        ),
        dir("/r/first/second", vec![("test_file_second.rs", file(BAR))]),
    ];
    let processed_chunks = walk(&languages, "/r", &tree);
    assert_eq!(processed_chunks.len(), 2);
    assert_eq!(processed_chunks[0].file_path, "/r/first/test_file_first.rs");
    assert_eq!(processed_chunks[1].file_path, "/r/first/second/test_file_second.rs");
}

#[test]
fn test_find_and_split() {
    let languages = registry();
    let temp_file_content_first = FOO;
    let temp_file_content_second = format!(
        "{}\n{}\n{}",
        r#"
            fn bar() {
                println!("File 2");
            "#,
        r#"
                let mut file_paths: Vec<String> = Vec::new();
                let mut file_names: Vec<String> = Vec::new();
                let mut start_lines: Vec<u64> = Vec::new();
                let mut end_lines: Vec<u64> = Vec::new();
                let mut texts: Vec<Option<String>> = Vec::new();
                let mut sizes: Vec<u64> = Vec::new();
            "#
        .repeat(40),
        r#" 
            }
            "#
    );
    let tree = vec![
        dir("/root_dir", vec![("first", Node::Dir)]),
        dir(
            "/root_dir/first",
            vec![("second", Node::Dir), ("test_file_first.rs", file(temp_file_content_first))],
        ),
        dir(
            "/root_dir/first/second",
            vec![("test_file_second.rs", file(&temp_file_content_second))],
        ),
    ];
    let temp_file_paths = [
        "/root_dir/first/test_file_first.rs",
        "/root_dir/first/second/test_file_second.rs",
    ];
    let temp_file_names = ["test_file_first.rs", "test_file_second.rs"];
    let columns = assemble(walk(&languages, "/root_dir", &tree));
    assert!(columns.len() > 0);
    assert_eq!(columns.len(), 4);
    assert!(columns.file_paths.iter().all(|x| temp_file_paths.contains(&x.as_str())));
    assert!(columns.file_names.iter().all(|x| temp_file_names.contains(&x.as_str())));
    assert!(columns.texts.iter().all(|x| temp_file_content_first.contains(x.as_str())
        || temp_file_content_second.contains(x.as_str())));
}

#[test]
fn one_function_gives_one_row() {
    let languages = registry();
    let tree = vec![dir("/a", vec![("lib.rs", file("fn answer() -> u32 {\n    42\n}"))])];
    let columns = assemble(walk(&languages, "/a", &tree));
    assert_eq!(columns.len(), 1);
    assert!(columns.texts[0].contains("fn answer() -> u32"));
    assert_eq!(columns.file_names, vec!["lib.rs"]);
}

#[test]
fn nested_directories_give_one_row_per_file() {
    let languages = registry();
    let tree = vec![
        dir("/n", vec![("outer", Node::Dir)]),
        dir("/n/outer", vec![("inner", Node::Dir), ("one.py", file("def one():\n    return 1"))]),
        dir("/n/outer/inner", vec![("two.js", file("function two() {\n  return 2;\n}"))]),
    ];
    let columns = assemble(walk(&languages, "/n", &tree));
    assert_eq!(columns.len(), 2);
    let mut names = columns.file_names.clone();
    names.sort();
    assert_eq!(names, vec!["one.py", "two.js"]);
}

#[test]
fn unsupported_extension_gives_no_rows() {
    let languages = registry();
    let tree = vec![dir("/c", vec![("notes.txt", file("fn looks_like_code() {}"))])];
    let columns = assemble(walk(&languages, "/c", &tree));
    assert_eq!(columns.len(), 0);
}

#[test]
fn empty_recognized_file_gives_no_rows() {
    let languages = registry();
    let tree = vec![dir("/d", vec![("empty.ts", Node::File(String::new()))])];
    let columns = assemble(walk(&languages, "/d", &tree));
    assert_eq!(columns.len(), 0);
}

#[test]
fn unreadable_directory_spares_its_siblings() {
    let languages = registry();
    let with_locked = vec![
        dir("/s", vec![("left", Node::Dir), ("locked", Node::Dir), ("right", Node::Dir)]),
        dir("/s/left", vec![("l.rs", file("fn left() {}"))]),
        dir("/s/right", vec![("r.rs", file("fn right() {}"))]),
    ];
    let without_locked = vec![
        dir("/s", vec![("left", Node::Dir), ("right", Node::Dir)]),
        dir("/s/left", vec![("l.rs", file("fn left() {}"))]),
        dir("/s/right", vec![("r.rs", file("fn right() {}"))]),
    ];
    let a = assemble(walk(&languages, "/s", &with_locked));
    let b = assemble(walk(&languages, "/s", &without_locked));
    assert_eq!(a.len(), 2);
    assert_eq!(a.len(), b.len());
}

#[test]
fn unreadable_and_extensionless_files_are_skipped() {
    let languages = registry();
    let tree = vec![dir(
        "/u",
        vec![
            ("broken.rs", Node::Unreadable),
            ("Makefile", file("all:\n\techo hi")),
            ("ok.rs", file("fn ok() {}")),
        ],
    )];
    let columns = assemble(walk(&languages, "/u", &tree));
    assert_eq!(columns.file_names, vec!["ok.rs"]);
}

#[test]
fn two_runs_give_the_same_rows() {
    let languages = registry();
    let tree = vec![
        dir("/t", vec![("a.rs", file(FOO)), ("sub", Node::Dir)]),
        dir("/t/sub", vec![("b.rs", file(BAR))]),
    ];
    let rows = |c: ChunkColumns| {
        let mut v: Vec<_> = (0..c.len())
            .map(|i| {
                (
                    c.file_paths[i].clone(),
                    c.start_lines[i],
                    c.end_lines[i],
                    c.texts[i].clone(),
                    c.sizes[i],
                )
            })
            .collect();
        v.sort();
        v
    };
    let first = rows(assemble(walk(&languages, "/t", &tree)));
    let second = rows(assemble(walk(&languages, "/t", &tree)));
    assert_eq!(first.len(), 2);
    assert_eq!(first, second);
}

#[test]
fn missing_root_ends_at_once() {
    let mut walker = CodeFileSplitter::new("/nowhere".to_string());
    assert!(matches!(walker.next_step(), WalkStep::OpenDirectory(d) if d == "/nowhere"));
    assert!(matches!(walker.next_step(), WalkStep::Done));
}

#[test]
fn buffered_chunks_come_before_reading_on() {
    let languages = registry();
    let mut walker = CodeFileSplitter::new("/w".to_string());
    assert!(matches!(walker.next_step(), WalkStep::OpenDirectory(_)));
    walker.directory_opened();
    assert!(matches!(walker.next_step(), WalkStep::ReadEntry));
    let r = walker.found_file(&languages, "/w/x.rs", Some("fn x() {}\n"));
    assert!(matches!(r, Ok(1)));
    assert!(matches!(walker.next_step(), WalkStep::Chunk(c) if c.file_name == "x.rs"));
    assert!(matches!(walker.next_step(), WalkStep::ReadEntry));
    walker.directory_finished();
    assert!(matches!(walker.next_step(), WalkStep::Done));
}
