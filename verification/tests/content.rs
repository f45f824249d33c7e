use file_search::content::{
    scan_file, scan_text, SearchResult, MAX_LINE_BYTES, MAX_MATCHES_PER_FILE, MAX_TEXT_BYTES,
};
use file_search::filter::{
    extension_start, fold_byte, is_binary_extension, is_name, should_scan, MAX_FILE_BYTES,
};
use file_search::lines::{find_line_break, slice_text};
use file_search::matching::find_match;

fn check(r: &SearchResult, path: &str, line: usize, content: &str, start: usize, end: usize) {
    assert_eq!(r.file_path, path);
    assert_eq!(r.line_number, line);
    assert_eq!(r.line_content, content);
    assert_eq!(r.match_start, start);
    assert_eq!(r.match_end, end);
}

#[test]
fn limits_are_as_documented() {
    assert_eq!(MAX_FILE_BYTES, 10_000_000);
    assert_eq!(MAX_TEXT_BYTES, 5_000_000);
    assert_eq!(MAX_LINE_BYTES, 1000);
    assert_eq!(MAX_MATCHES_PER_FILE, 100);
}

#[test]
fn hello_is_found_on_lines_one_and_three() {
    let results = scan_text("a.txt", "Hello\nWORLD\nhello world\n", "hello");
    assert_eq!(results.len(), 2);
    check(&results[0], "a.txt", 1, "Hello", 0, 5);
    check(&results[1], "a.txt", 3, "hello world", 0, 5);
}

#[test]
fn query_case_is_ignored_too() {
    let results = scan_text("a.txt", "Hello\nWORLD\nhello world\n", "WoRlD");
    assert_eq!(results.len(), 2);
    check(&results[0], "a.txt", 2, "WORLD", 0, 5);
    check(&results[1], "a.txt", 3, "hello world", 6, 11);
}

#[test]
fn only_the_first_match_of_a_line_is_recorded() {
    let results = scan_text("f", "xx abab ABAB", "ab");
    assert_eq!(results.len(), 1);
    check(&results[0], "f", 1, "xx abab ABAB", 3, 5);
}

#[test]
fn empty_query_finds_nothing() {
    assert!(scan_text("f", "a\nb\n", "").is_empty());
    assert!(scan_text("f", "", "").is_empty());
}

#[test]
fn empty_text_has_no_lines() {
    assert!(scan_text("f", "", "a").is_empty());
}

#[test]
fn line_ends_are_not_part_of_the_line() {
    let results = scan_text("f", "one\r\ntwo\rx\nthree", "t");
    assert_eq!(results.len(), 2);
    check(&results[0], "f", 2, "two\rx", 0, 1);
    check(&results[1], "f", 3, "three", 0, 1);
    let results = scan_text("f", "a\r\n\r\n\nb a\r", "a");
    assert_eq!(results.len(), 2);
    check(&results[0], "f", 1, "a", 0, 1);
    check(&results[1], "f", 4, "b a\r", 2, 3);
}

#[test]
fn query_does_not_match_across_lines() {
    assert!(scan_text("f", "ab\ncd", "bc").is_empty());
    assert!(scan_text("f", "ab\ncd", "b\nc").is_empty());
}

#[test]
fn offsets_are_bytes_of_the_line() {
    let results = scan_text("f", "héllo wörld\nnaïve Wörld", "wörld");
    assert_eq!(results.len(), 2);
    check(&results[0], "f", 1, "héllo wörld", 7, 13);
    check(&results[1], "f", 2, "naïve Wörld", 7, 13);
    assert_eq!(&results[0].line_content[7..13], "wörld");
    assert_eq!(&results[1].line_content[7..13], "Wörld");
}

#[test]
fn lines_over_the_length_limit_are_skipped() {
    let long = "x".repeat(1001);
    let edge = "y".repeat(999) + "x";
    let content = format!("{}\n{}\nx", long, edge);
    let results = scan_text("f", &content, "x");
    assert_eq!(results.len(), 2);
    assert_eq!(results[0].line_number, 2);
    assert_eq!(results[0].match_start, 999);
    assert_eq!(results[0].match_end, 1000);
    assert_eq!(results[1].line_number, 3);
}

#[test]
fn at_most_100_matches_per_file() {
    let content = "match\n".repeat(250);
    let results = scan_text("f", &content, "match");
    assert_eq!(results.len(), 100);
    for (i, r) in results.iter().enumerate() {
        assert_eq!(r.line_number, i + 1);
    }
    let content = "match\n".repeat(100);
    assert_eq!(scan_text("f", &content, "match").len(), 100);
    let content = "match\n".repeat(99);
    assert_eq!(scan_text("f", &content, "match").len(), 99);
}

#[test]
fn text_over_the_size_limit_is_not_searched() {
    let mut content = String::from("needle\n");
    content.push_str(&"a".repeat(MAX_TEXT_BYTES));
    assert!(content.len() > MAX_TEXT_BYTES);
    assert!(scan_text("f", &content, "needle").is_empty());
    let mut content = String::from("needle\n");
    content.push_str(&"a".repeat(MAX_TEXT_BYTES - 7));
    assert_eq!(content.len(), MAX_TEXT_BYTES);
    assert_eq!(scan_text("f", &content, "needle").len(), 1);
}

#[test]
fn binary_and_large_files_give_no_result() {
    assert!(scan_file("image.png", 10, b"hello", "hello").is_empty());
    assert!(scan_file("dir/IMAGE.PNG", 10, b"hello", "hello").is_empty());
    assert!(scan_file("a.txt", MAX_FILE_BYTES + 1, b"hello", "hello").is_empty());
    assert_eq!(scan_file("a.txt", MAX_FILE_BYTES, b"hello", "hello").len(), 1);
    assert_eq!(scan_file("png", 10, b"hello", "hello").len(), 1);
}

#[test]
fn content_that_is_no_text_gives_no_result() {
    assert!(scan_file("a.txt", 7, b"hello\n\xff", "hello").is_empty());
    assert!(scan_file("a.txt", 7, b"hello \xc3", "hello").is_empty());
    assert!(scan_file("a.txt", 8, b"hello\xed\xa0\x80", "hello").is_empty());
    let results = scan_file("a.txt", 8, "hello \u{e9}".as_bytes(), "HELLO");
    assert_eq!(results.len(), 1);
    check(&results[0], "a.txt", 1, "hello \u{e9}", 0, 5);
}

#[test]
fn should_scan_goes_by_size_and_extension() {
    assert!(should_scan("src/main.rs", 1234));
    assert!(should_scan("README", 0));
    assert!(should_scan(".gitignore", 10));
    assert!(should_scan("dir.zip/notes.txt", 10));
    assert!(should_scan("archive.zip/", 10));
    assert!(should_scan(".png", 10));
    assert!(should_scan("dir/.png", 10));
    assert!(!should_scan("a.png", 10));
    assert!(!should_scan("a.tar.gz", 10));
    assert!(!should_scan("lib/libfoo.SO", 10));
    assert!(!should_scan("x.7z", 10));
    assert!(!should_scan(".hidden.pdf", 10));
    assert!(!should_scan("main.rs", 10_000_001));
    assert!(should_scan("main.rs", 10_000_000));
}

#[test]
fn every_listed_extension_is_binary() {
    let listed = [
        "exe", "dll", "so", "dylib", "bin", "o", "a", "lib", "obj", "jpg", "jpeg", "png", "gif",
        "bmp", "ico", "svg", "webp", "mp3", "mp4", "avi", "mkv", "wav", "flac", "ogg", "zip",
        "tar", "gz", "7z", "rar", "pdf", "class", "jar",
    ];
    assert_eq!(listed.len(), 32);
    for ext in listed {
        assert!(is_binary_extension(ext.as_bytes()), "{}", ext);
        assert!(is_binary_extension(ext.to_uppercase().as_bytes()), "{}", ext);
    }
    for ext in ["rs", "txt", "", "md", "c", "h", "pngx", "xpng", "ex", "tar.gz"] {
        assert!(!is_binary_extension(ext.as_bytes()), "{}", ext);
    }
}

#[test]
fn extension_starts_after_the_last_dot_of_the_name() {
    assert_eq!(extension_start(b"a.txt"), Some(2));
    assert_eq!(extension_start(b"a.tar.gz"), Some(6));
    assert_eq!(extension_start(b"dir.d/file"), None);
    assert_eq!(extension_start(b".gitignore"), None);
    assert_eq!(extension_start(b"dir/.gitignore"), None);
    assert_eq!(extension_start(b"dir/.a.b"), Some(7));
    assert_eq!(extension_start(b"name."), Some(5));
    assert_eq!(extension_start(b""), None);
    assert_eq!(extension_start(b"noext"), None);
}

#[test]
fn is_name_folds_the_text_only() {
    assert!(is_name(b"PNG", "png"));
    assert!(is_name(b"png", "png"));
    assert!(!is_name(b"png", "PNG"));
    assert!(!is_name(b"pn", "png"));
}

#[test]
fn find_match_gives_the_first_range() {
    assert_eq!(find_match("Hello World", "world"), Some((6, 11)));
    assert_eq!(find_match("aaa", "aa"), Some((0, 2)));
    assert_eq!(find_match("AAA", "aa"), Some((0, 2)));
    assert_eq!(find_match("abc", "abcd"), None);
    assert_eq!(find_match("abc", "x"), None);
    assert_eq!(find_match("abc", ""), None);
    assert_eq!(find_match("", ""), None);
    assert_eq!(find_match("", "a"), None);
    assert_eq!(find_match("xxABC", "abc"), Some((2, 5)));
    // the target is compared as it is: it is the lower-case form already
    assert_eq!(find_match("xxabc", "ABC"), None);
    assert_eq!(find_match("[x]", "{x}"), None);
}

#[test]
fn letters_beyond_ascii_match_whatever_their_case() {
    let results = scan_text("f", "\u{c4}", "\u{e4}");
    assert_eq!(results.len(), 1);
    check(&results[0], "f", 1, "\u{c4}", 0, 2);
    let results = scan_text("f", "\u{c4} \u{e4}", "\u{e4}");
    assert_eq!(results.len(), 1);
    check(&results[0], "f", 1, "\u{c4} \u{e4}", 0, 2);
    let results = scan_text("f", "\u{dc}BER uns", "\u{fc}ber");
    assert_eq!(results.len(), 1);
    check(&results[0], "f", 1, "\u{dc}BER uns", 0, 5);
    let results = scan_text("f", "uns \u{fc}ber", "\u{dc}BER");
    assert_eq!(results.len(), 1);
    check(&results[0], "f", 1, "uns \u{fc}ber", 4, 9);
}

#[test]
fn offsets_are_those_of_the_line_where_lowering_changes_lengths() {
    // the capital I with a dot has two bytes, its lower-case form three
    let line = "\u{130}stanbul hello";
    let results = scan_text("f", line, "HELLO");
    assert_eq!(results.len(), 1);
    check(&results[0], "f", 1, line, 10, 15);
    assert_eq!(&line[10..15], "hello");
    let results = scan_text("f", line, "\u{130}");
    assert_eq!(results.len(), 1);
    check(&results[0], "f", 1, line, 0, 2);
}

#[test]
fn a_word_final_sigma_matches_as_the_standard_library_lowers_it() {
    let line = "\u{39f}\u{394}\u{39f}\u{3a3}";
    let query = "\u{3bf}\u{3b4}\u{3bf}\u{3c2}";
    assert_eq!(line.to_lowercase(), query);
    let results = scan_text("f", line, query);
    assert_eq!(results.len(), 1);
    check(&results[0], "f", 1, line, 0, 8);
}

#[test]
fn fold_byte_lowers_ascii_letters_only() {
    assert_eq!(fold_byte(b'A'), b'a');
    assert_eq!(fold_byte(b'Z'), b'z');
    assert_eq!(fold_byte(b'a'), b'a');
    assert_eq!(fold_byte(b'@'), b'@');
    assert_eq!(fold_byte(b'['), b'[');
    assert_eq!(fold_byte(0xC9), 0xC9);
}

#[test]
fn line_breaks_and_slices() {
    assert_eq!(find_line_break(b"ab\ncd", 0), 2);
    assert_eq!(find_line_break(b"ab\ncd", 2), 2);
    assert_eq!(find_line_break(b"ab\ncd", 3), 5);
    assert_eq!(find_line_break(b"", 0), 0);
    assert_eq!(slice_text("héllo", 0, 3), "hé");
    assert_eq!(slice_text("héllo", 3, 6), "llo");
    assert_eq!(slice_text("héllo", 6, 6), "");
}

fn first_range(line: &str, target: &str) -> Option<(usize, usize)> {
    for from in 0..line.len() {
        for to in from + 1..=line.len() {
            if line.is_char_boundary(from)
                && line.is_char_boundary(to)
                && line[from..to].to_lowercase() == target
            {
                return Some((from, to));
            }
        }
    }
    None
}

fn by_std(content: &str, query: &str) -> Vec<(usize, String, usize, usize)> {
    let target = query.to_lowercase();
    let mut expected = Vec::new();
    for (i, line) in content.lines().enumerate() {
        if line.len() > MAX_LINE_BYTES {
            continue;
        }
        if let Some((from, to)) = first_range(line, &target) {
            // where lowering keeps every length, this is where the lowered line holds the query
            assert_eq!(line.to_lowercase().find(&target), Some(from));
            assert_eq!(to, from + query.len());
            expected.push((i + 1, line.to_string(), from, to));
            if expected.len() == MAX_MATCHES_PER_FILE {
                break;
            }
        }
    }
    expected
}

#[test]
fn lines_are_those_of_the_standard_library() {
    let texts = [
        "",
        "\n",
        "\r\n",
        "\r",
        "a",
        "a\n",
        "a\r\n",
        "a\r",
        "a\n\nb",
        "a\r\n\r\nb\r\n",
        "\n\na\n\n",
        "a\rb\nc\r\r\nd",
        "xA\nXa\r\nxa\rxa\n\nxa",
        "é a\nü A\r\n界 a",
        "É\nÉ A\r\nx É",
        "no match here\nnor here",
    ];
    for text in texts {
        for query in ["a", "A", "xa", "\r", "é", "É", " a"] {
            let results = scan_text("p", text, query);
            let got: Vec<(usize, String, usize, usize)> = results
                .iter()
                .map(|r| (r.line_number, r.line_content.clone(), r.match_start, r.match_end))
                .collect();
            assert_eq!(got, by_std(text, query), "{:?} {:?}", text, query);
        }
    }
}

#[test]
fn extensions_are_those_of_the_standard_library() {
    let paths = [
        "a.txt", "a", ".a", ".a.b", "a.", "a.b.c", "d/a.txt", "d.e/a", "d/.a", "d/.a.b", "d.e/f.g",
        "a/b/c.tar.gz", "x/y/z", "..a", "a..b", "dir/file.PNG",
    ];
    for path in paths {
        let expected = std::path::Path::new(path).extension().map(|e| e.to_str().unwrap());
        let got = extension_start(path.as_bytes()).map(|s| &path[s..]);
        assert_eq!(got, expected, "{}", path);
    }
}
