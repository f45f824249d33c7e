use file_search::fuzzy::{candidate_score, rank_files, rank_scored, score_files, Scored, MAX_SCORED_BYTES};

fn list(items: &[&str]) -> Vec<String> {
    items.iter().map(|s| s.to_string()).collect()
}

fn scored(path: &str, score: i64) -> Scored {
    Scored { path: path.to_string(), score }
}

#[test]
fn main_ranks_main_rs_first() {
    let files = list(&["src/main.rs", "src/app.rs", "README.md"]);
    let ranked = rank_files(&files, "main");
    assert!(!ranked.is_empty());
    assert_eq!(ranked[0], "src/main.rs");
    let main_at = ranked.iter().position(|p| p == "src/main.rs").unwrap();
    if let Some(app_at) = ranked.iter().position(|p| p == "src/app.rs") {
        assert!(main_at <= app_at);
    }
    if let Some(readme_at) = ranked.iter().position(|p| p == "README.md") {
        assert_eq!(readme_at, ranked.len() - 1);
    }
}

#[test]
fn paths_that_do_not_match_are_left_out() {
    let files = list(&["src/main.rs", "src/app.rs", "README.md"]);
    assert_eq!(rank_files(&files, "zzz"), Vec::<String>::new());
    assert_eq!(rank_files(&files, "README"), list(&["README.md"]));
    assert_eq!(rank_files(&Vec::new(), "a"), Vec::<String>::new());
}

#[test]
fn candidate_score_is_the_matchers() {
    assert_eq!(candidate_score("abc", "abx"), None);
    assert_eq!(candidate_score("", "a"), None);
    assert_eq!(candidate_score("abcdefaghi", ""), Some(0));
    let exact = candidate_score("src/main.rs", "main").unwrap();
    let spread = candidate_score("src/mxaxixn.rs", "main").unwrap();
    assert!(exact > spread);
    assert!(exact > 0);
}

#[test]
fn texts_over_the_bound_do_not_match() {
    let long = "a".repeat(MAX_SCORED_BYTES + 1);
    assert_eq!(candidate_score(&long, "a"), None);
    assert_eq!(candidate_score("a", &long), None);
    let edge = "a".repeat(MAX_SCORED_BYTES);
    assert!(candidate_score(&edge, "a").is_some());
}

#[test]
fn score_files_keeps_matches_in_list_order() {
    let files = list(&["src/main.rs", "README.md", "main.c"]);
    let found = score_files(&files, "main");
    let paths: Vec<&str> = found.iter().map(|s| s.path.as_str()).collect();
    assert_eq!(paths, vec!["src/main.rs", "main.c"]);
    assert_eq!(Some(found[0].score), candidate_score("src/main.rs", "main"));
    assert_eq!(Some(found[1].score), candidate_score("main.c", "main"));
}

#[test]
fn rank_scored_sorts_by_descending_score() {
    let ranked = rank_scored(&vec![scored("low", 1), scored("high", 90), scored("mid", 40)]);
    assert_eq!(ranked, list(&["high", "mid", "low"]));
}

#[test]
fn rank_scored_keeps_ties_in_list_order() {
    let ranked = rank_scored(&vec![
        scored("a", 5),
        scored("b", 7),
        scored("c", 5),
        scored("d", 7),
        scored("e", 5),
        scored("f", -3),
    ]);
    assert_eq!(ranked, list(&["b", "d", "a", "c", "e", "f"]));
    assert_eq!(rank_scored(&Vec::new()), Vec::<String>::new());
}

#[test]
fn rank_scored_handles_many_entries() {
    let mut items = Vec::new();
    for i in 0..2000i64 {
        items.push(scored(&format!("p{}", i), (i * 7919) % 13));
    }
    let ranked = rank_scored(&items);
    assert_eq!(ranked.len(), 2000);
    let score_of = |p: &String| -> i64 {
        let i: i64 = p[1..].parse().unwrap();
        (i * 7919) % 13
    };
    let index_of = |p: &String| -> i64 { p[1..].parse().unwrap() };
    for w in ranked.windows(2) {
        let (a, b) = (score_of(&w[0]), score_of(&w[1]));
        assert!(a > b || (a == b && index_of(&w[0]) < index_of(&w[1])));
    }
}
