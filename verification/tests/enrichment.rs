use work_logr::ai::{first_choice_content, usable_api_key, AiEnrichment, CompletionProblem, EnrichmentStats};

fn enrichment(description: &str) -> AiEnrichment {
    AiEnrichment {
        description: description.to_string(),
        category: "Bug Fix".to_string(),
        technical_area: "Backend".to_string(),
    }
}

#[test]
fn a_blank_description_counts_as_an_empty_completion() {
    assert!(matches!(enrichment(" \n\t").usable(), Err(CompletionProblem::EmptyContent)));
    let kept = enrichment("Corrected Funding Status filtering.").usable().expect("usable rewrite");
    assert_eq!(kept.description, "Corrected Funding Status filtering.");
    assert_eq!(kept.category, "Bug Fix");
    assert_eq!(kept.technical_area, "Backend");
}

#[test]
fn the_first_choice_gives_the_content() {
    assert_eq!(first_choice_content(vec![]), Err(CompletionProblem::EmptyChoices));
    assert_eq!(first_choice_content(vec![None, Some("later".to_string())]), Err(CompletionProblem::EmptyContent));
    assert_eq!(first_choice_content(vec![Some("{}".to_string()), None]), Ok("{}".to_string()));
}

#[test]
fn stats_count_rewrites_and_failures() {
    let mut stats = EnrichmentStats::default();
    stats.record(true);
    stats.record(false);
    stats.record(true);
    assert_eq!(stats, EnrichmentStats { enriched: 2, failed: 1 });
}

#[test]
fn a_blank_api_key_counts_as_missing() {
    assert_eq!(usable_api_key(None), None);
    assert_eq!(usable_api_key(Some("  \t".to_string())), None);
    assert_eq!(usable_api_key(Some(String::new())), None);
    assert_eq!(usable_api_key(Some(" gsk_key ".to_string())), Some(" gsk_key ".to_string()));
}
