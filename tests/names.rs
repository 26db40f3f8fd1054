use media_serve::names::{
    breadcrumbs, content_disposition, format_size, is_hidden, next_available_name,
    sanitize_filename, url_encode_path,
};

#[test]
fn hidden_names_start_with_dot() {
    assert!(is_hidden(".git"));
    assert!(!is_hidden("git"));
    assert!(!is_hidden(""));
}

#[test]
fn sanitize_removes_separators() {
    assert_eq!(sanitize_filename("a/b\\c\0d.txt"), "abcd.txt");
    assert_eq!(sanitize_filename("///"), "");
}

#[test]
fn sanitize_cuts_long_names_and_keeps_extension() {
    let long = format!("{}.jpeg", "x".repeat(300));
    let s = sanitize_filename(&long);
    assert_eq!(s, format!("{}.jpeg", "x".repeat(200)));
    let long_ext = format!("{}.{}", "y".repeat(300), "e".repeat(20));
    assert_eq!(sanitize_filename(&long_ext), "y".repeat(200));
    // 255 bytes of two-byte characters is over the limit only past 127 characters
    assert_eq!(sanitize_filename(&"é".repeat(127)), "é".repeat(127));
    assert_eq!(sanitize_filename(&"é".repeat(128)), "é".repeat(128));
    assert_eq!(sanitize_filename(&"é".repeat(250)), "é".repeat(200));
}

#[test]
fn free_name_skips_taken_ones() {
    let taken = vec!["a.txt".to_string(), "a(1).txt".to_string()];
    assert_eq!(next_available_name("/up", "a.txt", &taken), "/up/a(2).txt");
    assert_eq!(next_available_name("/up", "b.txt", &taken), "/up/b.txt");
    let taken = vec!["notes".to_string()];
    assert_eq!(next_available_name("/up", "notes", &taken), "/up/notes(1)");
    let taken = vec![".bashrc".to_string()];
    assert_eq!(next_available_name("/up", ".bashrc", &taken), "/up/.bashrc(1)");
    let taken = vec!["x.tar.gz".to_string()];
    assert_eq!(next_available_name("/up", "x.tar.gz", &taken), "/up/x.tar(1).gz");
    let taken = vec!["..".to_string()];
    assert_eq!(next_available_name("/up", "..", &taken), "/up/(1)");
    let taken: Vec<String> = (0..5).map(|n| if n == 0 { "f".to_string() } else { format!("f({})", n) }).collect();
    assert_eq!(next_available_name("/up", "f", &taken), "/up/f(5)");
}

#[test]
fn breadcrumbs_accumulate() {
    let c = breadcrumbs("a/b/c");
    let pairs: Vec<(String, String)> = c.into_iter().map(|b| (b.name, b.rel_url)).collect();
    assert_eq!(
        pairs,
        vec![
            ("Home".to_string(), "".to_string()),
            ("a".to_string(), "a".to_string()),
            ("b".to_string(), "a/b".to_string()),
            ("c".to_string(), "a/b/c".to_string()),
        ]
    );
    assert_eq!(breadcrumbs("").len(), 1);
    assert_eq!(breadcrumbs("/").len(), 1);
}

#[test]
fn url_paths_keep_separators() {
    assert_eq!(url_encode_path("my photos/a b.jpg"), "my%20photos/a%20b%2Ejpg");
    assert_eq!(url_encode_path("abc"), "abc");
    assert_eq!(url_encode_path("a//b"), "a//b");
    assert_eq!(url_encode_path("ção"), "%C3%A7%C3%A3o");
}

#[test]
fn download_header_uses_file_name() {
    assert_eq!(content_disposition("/r/my file.txt"), "attachment; filename*=UTF-8''my%20file%2Etxt");
    assert_eq!(content_disposition("/"), "attachment; filename*=UTF-8''download");
}

#[test]
fn sizes_are_shown_in_units() {
    assert_eq!(format_size(0), "0 B");
    assert_eq!(format_size(1023), "1023 B");
    assert_eq!(format_size(1024), "1.00 KB");
    assert_eq!(format_size(1536), "1.50 KB");
    assert_eq!(format_size(1048576), "1.00 MB");
    assert_eq!(format_size(5 * 1024 * 1024 * 1024), "5.00 GB");
    assert_eq!(format_size(2048 * 1024 * 1024 * 1024 * 1024), "2048.00 TB");
}

#[test]
fn sizes_round_ties_to_even() {
    // 1.125 KB and 1.375 KB are exact ties at two decimals
    assert_eq!(format_size(1152), "1.12 KB");
    assert_eq!(format_size(1408), "1.38 KB");
}

#[test]
fn listing_puts_directories_first_ignoring_case() {
    let entries = vec![
        (false, "beta.txt".to_string()),
        (true, "Zeta".to_string()),
        (false, "Alpha.txt".to_string()),
        (true, "alpha".to_string()),
    ];
    assert_eq!(media_serve::names::listing_order(&entries), vec![3, 1, 2, 0]);
    assert!(media_serve::names::listing_order(&Vec::new()).is_empty());
}
