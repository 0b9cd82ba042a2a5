use cinder_core::reducer::summaries::summarize_actor_names;

#[test]
fn actor_summary_collapses_duplicate_names() {
    assert_eq!(
        summarize_actor_names(&[
            "dark golem".to_string(),
            "pale golem".to_string(),
            "dark golem".to_string(),
        ]),
        Some("dark golem (x2) and pale golem".to_string())
    );
}
