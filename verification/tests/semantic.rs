use claude_history::error::AppError;
use claude_history::semantic::fastembed::{
    embed_error, init_error, prefixed_passages, prefixed_query,
};

#[test]
fn queries_and_passages_are_told_apart() {
    assert_eq!(prefixed_query("test query"), "query: test query");
    assert_eq!(
        prefixed_passages(&["test passage".to_string(), String::new()]),
        vec!["passage: test passage".to_string(), "passage: ".to_string()]
    );
    assert!(prefixed_passages(&[]).is_empty());
}

#[test]
fn model_errors_say_what_failed() {
    let init = init_error("no file");
    assert!(matches!(init, AppError::ConfigError(_)));
    assert_eq!(init.message(), "fastembed init failed: no file");
    assert_eq!(embed_error("no").message(), "fastembed embed failed: no");
}
