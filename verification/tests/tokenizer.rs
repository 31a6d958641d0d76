use echo_agent::hash::fnv1a_64;
use echo_agent::tokenizer::{
    HeuristicTokenizer, SimpleTokenizer, TokenUsageTracker, Tokenizer, Usage,
};

#[test]
fn test_heuristic_ascii() {
    let t = HeuristicTokenizer;
    // 16 ASCII chars → weight 16 → 16/4 = 4 tokens
    assert_eq!(t.count_tokens("hello world 1234"), 4);
}

#[test]
fn test_heuristic_cjk() {
    let t = HeuristicTokenizer;
    // 4 non-ASCII chars → weight 8 → 8/4 = 2 tokens
    assert_eq!(t.count_tokens("éñôà"), 2);
}

#[test]
fn test_heuristic_mixed() {
    let t = HeuristicTokenizer;
    // "hello éñ" → 6 ASCII(6) + 2 non-ASCII(4) = weight 10 → 10/4 = 2
    assert_eq!(t.count_tokens("hello éñ"), 2);
}

#[test]
fn test_heuristic_empty() {
    let t = HeuristicTokenizer;
    assert_eq!(t.count_tokens(""), 0); // empty string returns 0
}

#[test]
fn test_simple_tokenizer() {
    let t = SimpleTokenizer;
    assert_eq!(t.count_tokens("hello"), 2); // 5/4+1 = 2
}

#[test]
fn test_fnv1a_deterministic() {
    let a = fnv1a_64(b"hello world");
    let b = fnv1a_64(b"hello world");
    assert_eq!(a, b);
}

#[test]
fn test_fnv1a_different_inputs() {
    assert_ne!(fnv1a_64(b"hello"), fnv1a_64(b"world"));
}

#[test]
fn fnv1a_known_values() {
    assert_eq!(fnv1a_64(b""), 0xcbf29ce484222325);
    assert_eq!(fnv1a_64(b"a"), 0xaf63dc4c8601ec8c);
    assert_eq!(fnv1a_64(b"foobar"), 0x85944171f73967e8);
}

#[test]
fn longer_texts_never_cost_less() {
    let t = HeuristicTokenizer;
    assert_eq!(t.count_tokens("a"), 1);
    assert_eq!(t.count_tokens("abcdefgh"), 2);
    assert!(t.count_tokens("abcdefgh!") >= t.count_tokens("abcdefgh"));
    assert_eq!(SimpleTokenizer.count_tokens(""), 0);
}

#[test]
fn usage_adds_up() {
    let mut tracker = TokenUsageTracker::new("m");
    tracker.record(10, 5, None);
    tracker.record_usage(&Usage {
        prompt_tokens: Some(1),
        completion_tokens: Some(2),
        total_tokens: Some(30),
    });
    let s = tracker.summary();
    assert_eq!(
        (s.total_prompt_tokens, s.total_completion_tokens, s.total_tokens, s.request_count),
        (11, 7, 45, 2)
    );
    assert!(s.text().contains("Input tokens:  11"));
    assert!(s.text().contains("Total tokens:  45"));
    tracker.reset();
    assert_eq!(tracker.summary().total_tokens, 0);
    assert_eq!(tracker.summary().model_name, "m");
}
