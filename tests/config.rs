use book_pictures::cli::{
    RemoveMatchingLinesConfig, ReplaceEntersConfig, StripWhitespacesConfig, ToBlackAndWhiteConfig,
};

#[test]
fn default_target_paths() {
    let c = ToBlackAndWhiteConfig { source_path: "a.png".to_string(), target_path: None };
    assert_eq!(c.resolved_target_path(), "black_and_white_img.png");
    let c = ReplaceEntersConfig { source_path: "a.txt".to_string(), target_path: None };
    assert_eq!(c.resolved_target_path(), "text_without_whitespaces.txt");
    let c = StripWhitespacesConfig { source_path: "a.txt".to_string(), target_path: None };
    assert_eq!(c.resolved_target_path(), "text_without_whitespaces.txt");
    let c = RemoveMatchingLinesConfig {
        source_path: "a.txt".to_string(),
        regex: "x".to_string(),
        target_path: None,
    };
    assert_eq!(c.resolved_target_path(), "text_with_lines_removed.txt");
}

#[test]
fn given_target_paths_win() {
    let c = ToBlackAndWhiteConfig {
        source_path: "a.png".to_string(),
        target_path: Some("out.png".to_string()),
    };
    assert_eq!(c.resolved_target_path(), "out.png");
    let c = RemoveMatchingLinesConfig {
        source_path: "a.txt".to_string(),
        regex: "x".to_string(),
        target_path: Some("b.txt".to_string()),
    };
    assert_eq!(c.resolved_target_path(), "b.txt");
}
