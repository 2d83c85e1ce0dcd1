use std::collections::HashSet;

use ncc::crew::{
    example_manifest, AssignModelError, CrewId, CrewManifest, ManifestError, ModelAssignment,
    TeamLeader,
};

fn leader(id: &str, provider: &str, model: &str) -> TeamLeader {
    TeamLeader {
        id: CrewId::new(id),
        display_name: "Name".to_string(),
        professional_role: "Role".to_string(),
        department: "Department".to_string(),
        model: ModelAssignment::new(provider, model),
    }
}

#[test]
fn leaders_can_use_different_models() {
    let manifest = example_manifest();
    let models: HashSet<_> = manifest
        .leaders
        .iter()
        .map(|leader| leader.model.label())
        .collect();

    assert!(models.len() > 1);
    assert_eq!(manifest.validate(), Ok(()));
}

#[test]
fn model_assignment_changes_only_the_selected_leader() {
    let mut manifest = example_manifest();
    let data_before = manifest.leader(&CrewId::new("data")).unwrap().model.clone();

    manifest
        .assign_model(
            &CrewId::new("la-forge"),
            ModelAssignment::new("local", "engineering-specialist"),
        )
        .unwrap();

    assert_eq!(
        manifest.leader(&CrewId::new("data")).unwrap().model,
        data_before
    );
    assert_eq!(
        manifest
            .leader(&CrewId::new("la-forge"))
            .unwrap()
            .model
            .label(),
        "local / engineering-specialist"
    );
}

#[test]
fn example_crew_has_six_leaders_in_order() {
    let manifest = example_manifest();
    let ids: Vec<&str> = manifest.leaders.iter().map(|l| l.id.0.as_str()).collect();
    assert_eq!(ids, vec!["riker", "data", "la-forge", "worf", "troi", "crusher"]);
    let worf = manifest.leader(&CrewId::new("worf")).unwrap();
    assert_eq!(worf.display_name, "Worf");
    assert_eq!(worf.department, "Security");
    assert_eq!(worf.model.label(), "provider-b / security-model");
    assert_eq!(worf.model.endpoint, None);
}

#[test]
fn label_joins_provider_and_model() {
    assert_eq!(ModelAssignment::new("openai", "gpt").label(), "openai / gpt");
    assert_eq!(ModelAssignment::new("", "").label(), " / ");
}

#[test]
fn a_blank_id_is_reported_without_a_crew_id() {
    let manifest = CrewManifest { leaders: vec![leader(" \t", "p", "m")] };
    let error = manifest.validate().unwrap_err();
    assert_eq!(
        error,
        ManifestError::EmptyField { crew_id: "<unknown>".to_string(), field: "id" }
    );
    assert_eq!(error.message(), "<unknown> has an empty id");
}

#[test]
fn trimmed_ids_must_be_unique() {
    let manifest = CrewManifest {
        leaders: vec![leader("data", "p", "m"), leader("  data ", "p", "m")],
    };
    let error = manifest.validate().unwrap_err();
    assert_eq!(error, ManifestError::DuplicateCrewId("data".to_string()));
    assert_eq!(error.message(), "duplicate crew id: data");
}

#[test]
fn the_first_blank_field_is_reported_with_the_trimmed_id() {
    let mut blank_role = leader(" worf ", "p", "m");
    blank_role.professional_role = "   ".to_string();
    blank_role.department = String::new();
    let manifest = CrewManifest { leaders: vec![leader("data", "p", "m"), blank_role] };
    let error = manifest.validate().unwrap_err();
    assert_eq!(
        error,
        ManifestError::EmptyField { crew_id: "worf".to_string(), field: "professional_role" }
    );
    assert_eq!(error.message(), "worf has an empty professional_role");

    let manifest = CrewManifest { leaders: vec![leader("troi", "p", "\u{3000}")] };
    assert_eq!(
        manifest.validate(),
        Err(ManifestError::EmptyField { crew_id: "troi".to_string(), field: "model.model" })
    );
}

#[test]
fn an_empty_manifest_is_valid() {
    assert_eq!(CrewManifest::default().validate(), Ok(()));
}

#[test]
fn blank_assignments_are_refused_and_change_nothing() {
    let mut manifest = example_manifest();
    let before = manifest.clone();
    let error = manifest
        .assign_model(&CrewId::new("data"), ModelAssignment::new(" ", "model"))
        .unwrap_err();
    assert_eq!(error, AssignModelError::InvalidModel);
    assert_eq!(error.message(), "provider and model must not be empty");
    assert_eq!(manifest, before);
}

#[test]
fn unknown_leaders_are_refused_and_change_nothing() {
    let mut manifest = example_manifest();
    let before = manifest.clone();
    let error = manifest
        .assign_model(&CrewId::new("q"), ModelAssignment::new("local", "model"))
        .unwrap_err();
    assert_eq!(error, AssignModelError::UnknownLeader("q".to_string()));
    assert_eq!(error.message(), "unknown team leader: q");
    assert_eq!(manifest, before);
    assert!(manifest.leader(&CrewId::new("q")).is_none());
}

#[test]
fn assignment_keeps_the_manifest_valid() {
    let mut manifest = example_manifest();
    let mut model = ModelAssignment::new("gateway", "research-model");
    model.endpoint = Some("http://localhost:8080".to_string());
    manifest.assign_model(&CrewId::new("data"), model.clone()).unwrap();
    assert_eq!(manifest.validate(), Ok(()));
    assert_eq!(manifest.leader(&CrewId::new("data")).unwrap().model, model);
    assert_eq!(manifest.leaders[1].model, model);
    assert_eq!(manifest.leaders.len(), 6);
}

#[test]
fn only_the_first_leader_with_an_id_is_assigned() {
    let mut manifest = CrewManifest {
        leaders: vec![leader("x", "a", "1"), leader("x", "b", "2")],
    };
    manifest.assign_model(&CrewId::new("x"), ModelAssignment::new("c", "3")).unwrap();
    assert_eq!(manifest.leaders[0].model.label(), "c / 3");
    assert_eq!(manifest.leaders[1].model.label(), "b / 2");
}
