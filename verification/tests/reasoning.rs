use eak::domain::{Priority, RequirementCategory};
use eak::reasoning::{category_from_lowered, map_category, map_priority, priority_from_lowered, AnthropicEngine, RawCandidate};
use eak::units::Magnitude;

#[test]
fn provider_labels_map_case_insensitively() {
    assert_eq!(map_category("ELECTRICAL"), RequirementCategory::Electrical);
    assert_eq!(map_category("Mechanical"), RequirementCategory::Mechanical);
    assert_eq!(map_category("schedule"), RequirementCategory::Schedule);
    assert_eq!(map_category("whatever"), RequirementCategory::Functional);
    assert_eq!(map_priority("HIGH"), Priority::High);
    assert_eq!(map_priority("low"), Priority::Low);
    assert_eq!(map_priority(""), Priority::Medium);
}

#[test]
fn provider_output_becomes_candidates_in_order() {
    let raw = vec![
        RawCandidate {
            statement: "Power shall not exceed 5 W".into(),
            category: "Electrical".into(),
            priority: "HIGH".into(),
            acceptance_criterion: "measured < 5 W".into(),
            source_hint: "intent".into(),
            confidence: Magnitude(0.8f64.to_bits()),
            rationale: "budget".into(),
        },
        RawCandidate {
            statement: "Fits 50 mm".into(),
            category: "odd".into(),
            priority: "".into(),
            acceptance_criterion: "outline <= 50 mm".into(),
            source_hint: String::new(),
            confidence: Magnitude(0.5f64.to_bits()),
            rationale: String::new(),
        },
    ];
    let r = AnthropicEngine::response_from(raw, vec!["which USB?".into()], "{}".into());
    assert_eq!(r.candidates.len(), 2);
    assert_eq!(r.candidates[0].category, RequirementCategory::Electrical);
    assert_eq!(r.candidates[0].priority, Priority::High);
    assert_eq!(r.candidates[0].confidence, Magnitude(0.8f64.to_bits()));
    assert_eq!(r.candidates[1].category, RequirementCategory::Functional);
    assert_eq!(r.candidates[1].priority, Priority::Medium);
    assert!(r.candidates.iter().all(|c| c.targets.is_empty()));
    assert_eq!(r.clarifying_questions, vec!["which USB?".to_string()]);
    assert_eq!(r.raw, "{}");
}

#[test]
fn provider_engine_names_its_model() {
    let e = AnthropicEngine::new("SECRET-REDACTED".into(), "opus".into());
    assert_eq!(e.model_id(), "anthropic:opus");
    assert_eq!(e.model(), "opus");
}

#[test]
fn lowered_labels_map_exactly() {
    assert_eq!(category_from_lowered("thermal"), RequirementCategory::Thermal);
    assert_eq!(category_from_lowered("Thermal"), RequirementCategory::Functional);
    assert_eq!(category_from_lowered("bogus"), RequirementCategory::Functional);
    assert_eq!(priority_from_lowered("low"), Priority::Low);
    assert_eq!(priority_from_lowered("LOW"), Priority::Medium);
}
