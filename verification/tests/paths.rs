use organizer::file_name::{candidate_name, next_attempt};
use organizer::path::{components, file_name, is_same_path};

fn comps(p: &str) -> Vec<String> {
    components(p).into_iter().map(|c| c.into_iter().collect()).collect()
}

#[test]
fn components_follow_path_rules() {
    assert_eq!(comps("/dl/a.pdf"), vec!["/", "dl", "a.pdf"]);
    assert_eq!(comps("/dl//./a.pdf/"), vec!["/", "dl", "a.pdf"]);
    assert_eq!(comps("./a"), vec![".", "a"]);
    assert_eq!(comps("a/./b/.."), vec!["a", "b", ".."]);
    assert_eq!(comps("//"), vec!["/"]);
    assert_eq!(comps(""), Vec::<String>::new());
    assert_eq!(comps("."), vec!["."]);
}

#[test]
fn same_path_compares_components() {
    assert!(is_same_path("/dl/a", "/dl//a/"));
    assert!(is_same_path("/dl/./a", "/dl/a"));
    assert!(!is_same_path("/dl/a", "dl/a"));
    assert!(!is_same_path("./a", "a"));
    assert!(!is_same_path("/dl/../a", "/a"));
}

#[test]
fn file_names() {
    assert_eq!(file_name("/dl/report.pdf"), Some("report.pdf".to_string()));
    assert_eq!(file_name("/dl/report.pdf/"), Some("report.pdf".to_string()));
    assert_eq!(file_name("/dl/report.pdf/."), Some("report.pdf".to_string()));
    assert_eq!(file_name("/dl/.."), None);
    assert_eq!(file_name("/"), None);
    assert_eq!(file_name("."), None);
    assert_eq!(file_name(""), None);
    assert_eq!(file_name("a"), Some("a".to_string()));
}

#[test]
fn free_name_search() {
    assert_eq!(candidate_name("a.txt", 0), "a.txt");
    assert_eq!(candidate_name("a.txt", 1), "a (1).txt");
    assert_eq!(candidate_name("a.txt", 2), "a (2).txt");
    assert_eq!(next_attempt(1, true), Some(2));
    assert_eq!(next_attempt(1, false), None);
    let names: Vec<String> = (0..25u64).map(|k| candidate_name("x", k)).collect();
    for i in 0..names.len() {
        for j in 0..i {
            assert_ne!(names[i], names[j]);
        }
    }
}
