use code_chunks::languages::{init_languages, SplitSpan};
use code_chunks::split::{build_chunks, language_of_path, process_file, split_file, FileSkip};

fn written(content: &str) -> String {
    format!("{content}\n")
}

fn span(start_row: usize, end_row: usize, size: usize) -> SplitSpan {
    SplitSpan { start_row, end_row, size }
}

#[test]
fn test_split_file() {
    let languages = init_languages();
    let language = languages.iter().find(|x| x.name.eq("rust")).unwrap();
    let content = written(
        r#"
            fn main() {
                println!("Hello, world!");
            }
            "#,
    );
    let result = split_file(language, &content);
    assert!(result.is_ok());
    let file_content = result.unwrap();
    assert!(!file_content.lines.is_empty(), "File lines should not be empty");
    assert!(!file_content.chunks.is_empty(), "Chunks should not be empty");
}

#[test]
fn test_process_file() {
    let languages = init_languages();
    let path = "/tmp/chunks/test_file.rs";
    let content = written(
        r#"
            fn main() {
                println!("Processing file test");
            }
            "#,
    );
    let result = process_file(&languages, path, Some(&content));
    assert!(result.is_ok(), "Processing result should not be None");
    let chunks = result.unwrap();
    assert!(!chunks.is_empty(), "Chunks should not be empty");
    let chunk = &chunks[0];
    assert_eq!(chunk.file_path, path);
    assert!(
        chunk.text.clone().unwrap().contains("fn main()"),
        "First chunk should contain the main function"
    );
    assert!(chunk.size > 0, "Chunk size should be greater than 0");
}

#[test]
fn records_follow_spans_exactly() {
    let lines: Vec<String> = ["a", "  ", "b"].iter().map(|s| s.to_string()).collect();
    let spans = vec![span(0, 2, 3), span(1, 2, 1), span(2, 5, 1), span(3, 1, 2), span(2, 3, 1)];
    let records = build_chunks("src/lib.rs", &lines, &spans);
    assert_eq!(records.len(), 5);
    assert_eq!(records[0].text.as_deref(), Some("a\n  "));
    assert_eq!(records[0].start_line, 0);
    assert_eq!(records[0].end_line, 2);
    assert_eq!(records[0].size, 3);
    assert_eq!(records[0].file_name, "lib.rs");
    assert_eq!(records[0].file_path, "src/lib.rs");
    assert_eq!(records[1].text, None);
    assert_eq!(records[2].text, None);
    assert_eq!(records[2].end_line, 5);
    assert_eq!(records[3].text, None);
    assert_eq!(records[3].start_line, 3);
    assert_eq!(records[4].text.as_deref(), Some("b"));
}

#[test]
fn empty_row_range_has_no_text() {
    let lines: Vec<String> = vec!["x".to_string()];
    let records = build_chunks("a.rs", &lines, &vec![span(0, 0, 1)]);
    assert_eq!(records[0].text, None);
}

#[test]
fn unknown_extension_is_skipped() {
    let languages = init_languages();
    let r = process_file(&languages, "notes/readme.txt", Some("fn main() {}\n"));
    assert!(matches!(r, Err(FileSkip::UnknownExtension)));
    assert_eq!(language_of_path(&languages, "notes/readme.txt"), None);
}

#[test]
fn missing_extension_is_skipped() {
    let languages = init_languages();
    let r = process_file(&languages, "bin/Makefile", Some("all:\n"));
    assert!(matches!(r, Err(FileSkip::NoExtension)));
    let r = process_file(&languages, "home/.bashrc", Some("x=1\n"));
    assert!(matches!(r, Err(FileSkip::NoExtension)));
}

#[test]
fn unreadable_file_is_reported() {
    let languages = init_languages();
    let r = process_file(&languages, "src/main.py", None);
    assert!(matches!(r, Err(FileSkip::Unreadable)));
}

#[test]
fn empty_file_has_no_records() {
    let languages = init_languages();
    let r = process_file(&languages, "src/empty.js", Some(""));
    assert!(matches!(r, Ok(v) if v.is_empty()));
}

#[test]
fn language_of_each_extension() {
    let languages = init_languages();
    assert_eq!(language_of_path(&languages, "a/b/c.js"), Some(0));
    assert_eq!(language_of_path(&languages, "a/b/c.rs"), Some(1));
    assert_eq!(language_of_path(&languages, "a/b/c.py"), Some(2));
    assert_eq!(language_of_path(&languages, "a/b/c.ts"), Some(3));
}

#[test]
fn python_file_is_chunked() {
    let languages = init_languages();
    let content = "def greet(name):\n    return 'hi ' + name\n";
    let chunks = process_file(&languages, "pkg/greet.py", Some(content)).unwrap();
    assert_eq!(chunks.len(), 1);
    let text = chunks[0].text.clone().unwrap();
    assert!(text.contains("def greet(name):"));
    assert_eq!(chunks[0].file_name, "greet.py");
}

#[test]
fn records_lie_within_the_file() {
    let languages = init_languages();
    let content = "fn a() {\n    1\n}\n\nfn b() {\n    2\n}\n";
    let chunks = process_file(&languages, "src/ab.rs", Some(content)).unwrap();
    assert!(!chunks.is_empty());
    let n = content.lines().count() as u64;
    for c in &chunks {
        assert!(c.start_line <= c.end_line && c.end_line <= n);
        assert!(c.size >= 1);
    }
}
