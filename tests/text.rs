use lumenote::text::{fts_query, sanitize_filename};

#[test]
fn fts_query_escapes_quotes_and_adds_prefix_star() {
    assert_eq!(fts_query("hello"), "hello*");
    assert_eq!(fts_query("say \"hi\""), "say \"\"hi\"\"*");
    assert_eq!(fts_query(""), "*");
}

#[test]
fn sanitize_filename_replaces_and_trims() {
    assert_eq!(sanitize_filename("My Note"), "My Note");
    assert_eq!(sanitize_filename("a/b:c?"), "a_b_c_");
    assert_eq!(sanitize_filename("  spaced  "), "spaced");
    assert_eq!(sanitize_filename("   "), "");
    assert_eq!(sanitize_filename(""), "");
    assert_eq!(sanitize_filename("tab\there"), "tab_here");
    assert_eq!(sanitize_filename("Café-2_x"), "Café-2_x");
    assert_eq!(sanitize_filename(" .hidden"), "_hidden");
}
