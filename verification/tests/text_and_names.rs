use organizer::file_name::{
    is_partial_download_name, numbered_file_name, rename_target, stem_and_extension,
};
use organizer::settings::{clean_folder_path, Settings};
use organizer::text::{
    chars_of, contains_chars, ends_with_chars, replace_chars, split_chars, starts_with_chars,
    string_of, trim_chars,
};

fn cs(s: &str) -> Vec<char> {
    s.chars().collect()
}

fn parts(name: &str) -> (String, Option<String>) {
    let (stem, ext) = stem_and_extension(&cs(name));
    (
        stem.into_iter().collect(),
        ext.map(|e| e.into_iter().collect()),
    )
}

#[test]
fn stem_and_extension_follow_path_rules() {
    assert_eq!(parts("report.pdf"), ("report".to_string(), Some("pdf".to_string())));
    assert_eq!(parts("archive.tar.gz"), ("archive.tar".to_string(), Some("gz".to_string())));
    assert_eq!(parts(".bashrc"), (".bashrc".to_string(), None));
    assert_eq!(parts("Makefile"), ("Makefile".to_string(), None));
    assert_eq!(parts("trailing."), ("trailing".to_string(), Some(String::new())));
    assert_eq!(parts(".."), ("..".to_string(), None));
    assert_eq!(parts(""), (String::new(), None));
    assert_eq!(parts("..hidden.txt"), ("..hidden".to_string(), Some("txt".to_string())));
}

#[test]
fn numbered_names_keep_the_extension() {
    assert_eq!(numbered_file_name("report.pdf", 1), "report (1).pdf");
    assert_eq!(numbered_file_name("report.pdf", 12), "report (12).pdf");
    assert_eq!(numbered_file_name("Makefile", 2), "Makefile (2)");
    assert_eq!(numbered_file_name("trailing.", 1), "trailing (1)");
    assert_eq!(numbered_file_name("photo.tar.gz", 3), "photo.tar (3).gz");
    assert_eq!(numbered_file_name("x.txt", 0), "x (0).txt");
}

#[test]
fn numbered_names_differ_per_counter() {
    let a = numbered_file_name("doc.txt", 1);
    let b = numbered_file_name("doc.txt", 11);
    let c = numbered_file_name("doc.txt", 10);
    assert_ne!(a, b);
    assert_ne!(b, c);
    assert_ne!(a, c);
}

#[test]
fn rename_replaces_placeholders() {
    assert_eq!(
        rename_target("{filename}_copy.{ext}", "notes.txt"),
        Some("notes_copy.txt".to_string())
    );
    assert_eq!(
        rename_target("2024-{filename}-{filename}.{ext}", "a.b.c"),
        Some("2024-a.b-a.b.c".to_string())
    );
    assert_eq!(rename_target("fixed-name.{ext}", "x.png"), Some("fixed-name.png".to_string()));
    assert_eq!(rename_target("{filename}.{ext}", "README"), None);
    assert_eq!(rename_target("{filename}.{ext}", ".bashrc"), None);
    assert_eq!(rename_target("{ext}{ext}", "a.md"), Some("mdmd".to_string()));
}

#[test]
fn a_pattern_without_placeholders_is_the_new_name() {
    assert_eq!(rename_target("inbox.dat", "a.txt"), Some("inbox.dat".to_string()));
    assert_eq!(rename_target("inbox.dat", "b.tar.gz"), Some("inbox.dat".to_string()));
}

#[test]
fn rename_replaces_stem_before_extension() {
    // A stem that itself holds the extension placeholder is replaced in turn.
    assert_eq!(rename_target("[{filename}]", "{ext}.zip"), Some("[zip]".to_string()));
}

#[test]
fn partial_downloads_are_recognised() {
    assert!(is_partial_download_name("movie.mp4.crdownload"));
    assert!(is_partial_download_name("file.part"));
    assert!(!is_partial_download_name("file.PART"));
    assert!(!is_partial_download_name("part"));
    assert!(!is_partial_download_name("file.partial"));
    assert!(!is_partial_download_name(".part"));
}

#[test]
fn trimming_uses_unicode_whitespace() {
    let t: String = trim_chars(&cs("  \t pdf \n")).into_iter().collect();
    assert_eq!(t, "pdf");
    let t: String = trim_chars(&cs("\u{3000}doc\u{a0}")).into_iter().collect();
    assert_eq!(t, "doc");
    let t: String = trim_chars(&cs("   ")).into_iter().collect();
    assert_eq!(t, "");
    let t: String = trim_chars(&cs("a b")).into_iter().collect();
    assert_eq!(t, "a b");
}

#[test]
fn splitting_keeps_empty_pieces() {
    let pieces: Vec<String> = split_chars(&cs("a,,b,"), ',')
        .into_iter()
        .map(|p| p.into_iter().collect())
        .collect();
    assert_eq!(pieces, vec!["a", "", "b", ""]);
    assert_eq!(split_chars(&cs(""), ',').len(), 1);
}

#[test]
fn searching() {
    assert!(contains_chars(&cs("my_invoice_2024"), &cs("invoice")));
    assert!(!contains_chars(&cs("inv"), &cs("invoice")));
    assert!(contains_chars(&cs("abc"), &cs("")));
    assert!(starts_with_chars(&cs("IMG_0001"), &cs("IMG_")));
    assert!(!starts_with_chars(&cs("xIMG"), &cs("IMG")));
    assert!(ends_with_chars(&cs("scan_final"), &cs("final")));
    assert!(!ends_with_chars(&cs("final_scan"), &cs("final")));
}

#[test]
fn replacing_is_left_to_right_and_non_overlapping() {
    let r: String = replace_chars(&cs("aaaa"), &cs("aa"), &cs("b")).into_iter().collect();
    assert_eq!(r, "bb");
    let r: String = replace_chars(&cs("aaa"), &cs("aa"), &cs("b")).into_iter().collect();
    assert_eq!(r, "ba");
    let r: String = replace_chars(&cs("xyz"), &cs("q"), &cs("b")).into_iter().collect();
    assert_eq!(r, "xyz");
}

#[test]
fn conversions_round_trip() {
    assert_eq!(chars_of("héllo"), cs("héllo"));
    assert_eq!(string_of(&cs("héllo")), "héllo");
}

#[test]
fn folder_paths_lose_doubled_backslashes() {
    assert_eq!(clean_folder_path("C:\\\\Users\\\\me"), "C:\\Users\\me");
    assert_eq!(clean_folder_path("\\\\\\"), "\\\\");
    assert_eq!(clean_folder_path("/home/me"), "/home/me");
}

#[test]
fn default_settings_watch_downloads() {
    let s = Settings::with_defaults("/home/me/Downloads".to_string());
    assert_eq!(s.watch_folder, "/home/me/Downloads");
    assert!(s.autostart);
}
