use chat_prompts::PromptTemplateType;
use rag_api_server::config::{
    check_model_pairs, collection_specs, effective_policy, resolve_policy, AppState, ConfigError,
    MergePolicy, ModelSetting, SCORE_SCALE,
};

fn names(n: usize) -> Vec<String> {
    (0..n).map(|i| format!("col{}", i)).collect()
}

fn url() -> String {
    "http://127.0.0.1:6333".to_string()
}

#[test]
fn shared_limit_and_threshold_are_broadcast() {
    let specs = collection_specs(&url(), &names(3), &vec![5], &vec![400_000]).unwrap();
    assert_eq!(specs.len(), 3);
    for (i, s) in specs.iter().enumerate() {
        assert_eq!(s.collection_name, format!("col{}", i));
        assert_eq!(s.store_url, url());
        assert_eq!(s.limit, 5);
        assert_eq!(s.score_threshold, 400_000);
    }
}

#[test]
fn per_collection_values_are_kept() {
    let specs = collection_specs(&url(), &names(2), &vec![3, 7], &vec![100_000, 900_000]).unwrap();
    assert_eq!(specs[0].limit, 3);
    assert_eq!(specs[1].limit, 7);
    assert_eq!(specs[0].score_threshold, 100_000);
    assert_eq!(specs[1].score_threshold, 900_000);
}

#[test]
fn mixed_shared_and_per_collection_values() {
    let specs = collection_specs(&url(), &names(2), &vec![4], &vec![100_000, 200_000]).unwrap();
    assert_eq!(specs[1].limit, 4);
    assert_eq!(specs[1].score_threshold, 200_000);
}

#[test]
fn startup_succeeds_iff_counts_fit() {
    for c in 1..5usize {
        for l in 0..6usize {
            for t in 0..6usize {
                let r = collection_specs(&url(), &names(c), &vec![1; l], &vec![0; t]);
                let fits = (l == 1 || l == c) && (t == 1 || t == c);
                assert_eq!(r.is_ok(), fits, "c={} l={} t={}", c, l, t);
            }
        }
    }
}

#[test]
fn limit_count_mismatch_is_reported() {
    let r = collection_specs(&url(), &names(3), &vec![1, 2], &vec![0]);
    assert_eq!(r.unwrap_err(), ConfigError::LimitCount);
}

#[test]
fn threshold_count_mismatch_is_reported() {
    let r = collection_specs(&url(), &names(3), &vec![1], &vec![0, 1]);
    assert_eq!(r.unwrap_err(), ConfigError::ThresholdCount);
}

#[test]
fn zero_limit_is_rejected() {
    let r = collection_specs(&url(), &names(2), &vec![0], &vec![0]);
    assert_eq!(r.unwrap_err(), ConfigError::ZeroLimit);
}

#[test]
fn threshold_above_scale_is_rejected() {
    let r = collection_specs(&url(), &names(1), &vec![1], &vec![SCORE_SCALE + 1]);
    assert_eq!(r.unwrap_err(), ConfigError::ThresholdRange);
    assert!(collection_specs(&url(), &names(1), &vec![1], &vec![SCORE_SCALE]).is_ok());
}

#[test]
fn model_pairs_must_come_in_twos() {
    assert_eq!(check_model_pairs(2, 2, 2, 2, 2, 2), Ok(()));
    assert_eq!(check_model_pairs(1, 2, 2, 2, 2, 2), Err(ConfigError::ModelPair(ModelSetting::Name)));
    assert_eq!(check_model_pairs(2, 3, 2, 2, 2, 2), Err(ConfigError::ModelPair(ModelSetting::Alias)));
    assert_eq!(check_model_pairs(2, 2, 1, 2, 2, 2), Err(ConfigError::ModelPair(ModelSetting::ContextSize)));
    assert_eq!(check_model_pairs(2, 2, 2, 0, 2, 2), Err(ConfigError::ModelPair(ModelSetting::BatchSize)));
    assert_eq!(check_model_pairs(2, 2, 2, 2, 1, 2), Err(ConfigError::ModelPair(ModelSetting::UbatchSize)));
    assert_eq!(check_model_pairs(2, 2, 2, 2, 2, 1), Err(ConfigError::ModelPair(ModelSetting::PromptTemplate)));
}

#[test]
fn system_policy_downgrades_without_system_role() {
    assert_eq!(effective_policy(MergePolicy::SystemMessage, false), MergePolicy::LastUserMessage);
    assert_eq!(effective_policy(MergePolicy::SystemMessage, true), MergePolicy::SystemMessage);
    assert_eq!(effective_policy(MergePolicy::LastUserMessage, true), MergePolicy::LastUserMessage);
    assert_eq!(effective_policy(MergePolicy::LastUserMessage, false), MergePolicy::LastUserMessage);
}

#[test]
fn policy_resolved_from_chat_template() {
    assert_eq!(
        resolve_policy(MergePolicy::SystemMessage, &PromptTemplateType::MistralInstruct),
        MergePolicy::LastUserMessage
    );
    assert_eq!(
        resolve_policy(MergePolicy::SystemMessage, &PromptTemplateType::ChatML),
        MergePolicy::SystemMessage
    );
    assert_eq!(
        resolve_policy(MergePolicy::LastUserMessage, &PromptTemplateType::ChatML),
        MergePolicy::LastUserMessage
    );
}

#[test]
fn app_state_holds_its_value() {
    let s = AppState { state_thing: "x".to_string() };
    assert_eq!(s.clone().state_thing, "x");
}
