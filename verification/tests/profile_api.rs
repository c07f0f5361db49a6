use memorai::models::OllamaGenerateResponse;
use memorai::profile::{finish_profile, plan_profile, ProfilePlan};

#[test]
fn empty_store_yields_placeholder_without_generation() {
    let plan = plan_profile(&Vec::new());
    match plan {
        ProfilePlan::Ready { profile, count } => {
            assert_eq!(
                profile,
                "No memories stored yet. Add some memories to generate a profile."
            );
            assert_eq!(count, 0);
        }
        ProfilePlan::Generate { .. } => panic!("an empty store must not reach generation"),
    }
}

#[test]
fn prompt_embeds_numbered_texts() {
    let texts = vec!["likes rust".to_string(), "plays go".to_string()];
    let plan = plan_profile(&texts);
    match plan {
        ProfilePlan::Generate { prompt, count } => {
            assert_eq!(count, 2);
            let expected = format!(
                "Based on the following collection of memories/notes from a person, \
                 create a concise user profile summary. Include their interests, \
                 expertise, personality traits, and any patterns you notice. \
                 Be insightful but respectful of privacy. Write in third person.\
                 \n\nMemories:\n{}\n\nProfile summary:",
                "1. likes rust\n2. plays go"
            );
            assert_eq!(prompt, expected);
        }
        ProfilePlan::Ready { .. } => panic!("texts must lead to a generation prompt"),
    }
}

#[test]
fn prompt_numbers_run_past_nine() {
    let texts: Vec<String> = (1..=12).map(|k| format!("note {}", k)).collect();
    match plan_profile(&texts) {
        ProfilePlan::Generate { prompt, count } => {
            assert_eq!(count, 12);
            assert!(prompt.contains("\n10. note 10\n"));
            assert!(prompt.contains("\n12. note 12\n\nProfile summary:"));
        }
        ProfilePlan::Ready { .. } => panic!("texts must lead to a generation prompt"),
    }
}

#[test]
fn finish_profile_trims_the_reply() {
    let resp = OllamaGenerateResponse { response: "  a thoughtful person.\n\n".to_string() };
    let out = finish_profile(&resp, 7);
    assert_eq!(out.profile, "a thoughtful person.");
    assert_eq!(out.memory_count, 7);
}
