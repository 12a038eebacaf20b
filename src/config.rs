//! Startup configuration: collection specs, model settings and the merge policy.

use chat_prompts::PromptTemplateType;
use vstd::prelude::*;

verus! {

/// One in a million: scores and thresholds are fixed-point values of this scale,
/// so a threshold of `0.4` is stored as `400_000`.
pub const SCORE_SCALE: u64 = 1_000_000;

/// Shared state handed to request handlers.
#[derive(Clone, Debug)]
pub struct AppState {
    pub state_thing: String,
}

/// Where retrieved context is woven into a conversation.
#[derive(Clone, Copy, Debug, PartialEq, Eq, Structural)]
pub enum MergePolicy {
    /// Into the leading system message (replacing or inserting it).
    SystemMessage,
    /// Appended to the most recent user message.
    LastUserMessage,
}

/// One configured vector collection.
#[derive(Debug)]
pub struct CollectionSpec {
    pub store_url: String,
    pub collection_name: String,
    /// Largest number of hits asked of this collection.
    pub limit: u64,
    /// Least score (in `SCORE_SCALE` units) a hit needs to be kept.
    pub score_threshold: u64,
}

impl CollectionSpec {
    /// A usable spec: at least one hit asked for, a threshold within scale.
    pub open spec fn wf(&self) -> bool {
        self.limit >= 1 && self.score_threshold <= SCORE_SCALE
    }
}

/// A per-model setting that must be given exactly twice (chat, then embedding).
#[derive(Clone, Copy, Debug, PartialEq, Eq, Structural)]
pub enum ModelSetting {
    Name,
    Alias,
    ContextSize,
    BatchSize,
    UbatchSize,
    PromptTemplate,
}

/// Startup configuration errors; the server does not start on any of them.
#[derive(Clone, Copy, Debug, PartialEq, Eq, Structural)]
pub enum ConfigError {
    /// The setting was not given exactly twice.
    ModelPair(ModelSetting),
    /// The limit list has neither one entry nor one per collection.
    LimitCount,
    /// The threshold list has neither one entry nor one per collection.
    ThresholdCount,
    /// A limit is zero.
    ZeroLimit,
    /// A threshold is above `SCORE_SCALE`.
    ThresholdRange,
}

/// A list of per-collection values fits `count` collections when it holds one
/// shared value or one value per collection.
pub open spec fn fits_collections(list_len: nat, count: nat) -> bool {
    list_len == 1 || list_len == count
}

/// The value that collection `i` receives from a list: the single shared value,
/// or its own.
pub open spec fn value_for(vals: Seq<u64>, i: int) -> u64 {
    if vals.len() == 1 {
        vals[0]
    } else {
        vals[i]
    }
}

pub open spec fn limits_valid(limits: Seq<u64>) -> bool {
    forall|i: int| 0 <= i < limits.len() ==> limits[i] >= 1
}

pub open spec fn thresholds_valid(thresholds: Seq<u64>) -> bool {
    forall|i: int| 0 <= i < thresholds.len() ==> thresholds[i] <= SCORE_SCALE
}

/// What `collection_specs` decides for `count` collections.
pub open spec fn collection_check(count: nat, limits: Seq<u64>, thresholds: Seq<u64>) -> Result<
    (),
    ConfigError,
> {
    if !fits_collections(limits.len(), count) {
        Err(ConfigError::LimitCount)
    } else if !fits_collections(thresholds.len(), count) {
        Err(ConfigError::ThresholdCount)
    } else if !limits_valid(limits) {
        Err(ConfigError::ZeroLimit)
    } else if !thresholds_valid(thresholds) {
        Err(ConfigError::ThresholdRange)
    } else {
        Ok(())
    }
}

/// The spec built for collection `i`.
pub open spec fn spec_matches(
    c: CollectionSpec,
    url: Seq<char>,
    name: Seq<char>,
    limits: Seq<u64>,
    thresholds: Seq<u64>,
    i: int,
) -> bool {
    &&& c.wf()
    &&& c.store_url@ == url
    &&& c.collection_name@ == name
    &&& c.limit == value_for(limits, i)
    &&& c.score_threshold == value_for(thresholds, i)
}

fn all_at_least_one(vals: &Vec<u64>) -> (r: bool)
    ensures
        r == limits_valid(vals@),
{
    let mut i: usize = 0;
    while i < vals.len()
        invariant
            i <= vals.len(),
            forall|j: int| 0 <= j < i ==> vals@[j] >= 1,
        decreases vals.len() - i,
    {
        if vals[i] < 1 {
            return false;
        }
        i += 1;
    }
    true
}

fn all_within_scale(vals: &Vec<u64>) -> (r: bool)
    ensures
        r == thresholds_valid(vals@),
{
    let mut i: usize = 0;
    while i < vals.len()
        invariant
            i <= vals.len(),
            forall|j: int| 0 <= j < i ==> vals@[j] <= SCORE_SCALE,
        decreases vals.len() - i,
    {
        if vals[i] > SCORE_SCALE {
            return false;
        }
        i += 1;
    }
    true
}

/// Builds one spec per collection name, giving each the shared limit and
/// threshold or its own.
pub fn collection_specs(
    store_url: &String,
    names: &Vec<String>,
    limits: &Vec<u64>,
    thresholds: &Vec<u64>,
) -> (r: Result<Vec<CollectionSpec>, ConfigError>)
    ensures
        r is Err ==> r->Err_0 == collection_check(names.len() as nat, limits@, thresholds@)->Err_0,
        r is Ok <==> collection_check(names.len() as nat, limits@, thresholds@) is Ok,
        r is Ok ==> r->Ok_0.len() == names.len() && forall|i: int|
            0 <= i < names.len() ==> #[trigger] spec_matches(
                r->Ok_0[i],
                store_url@,
                names@[i]@,
                limits@,
                thresholds@,
                i,
            ),
{
    if limits.len() != 1 && limits.len() != names.len() {
        return Err(ConfigError::LimitCount);
    }
    if thresholds.len() != 1 && thresholds.len() != names.len() {
        return Err(ConfigError::ThresholdCount);
    }
    if !all_at_least_one(limits) {
        return Err(ConfigError::ZeroLimit);
    }
    if !all_within_scale(thresholds) {
        return Err(ConfigError::ThresholdRange);
    }
    let mut specs: Vec<CollectionSpec> = Vec::new();
    let mut i: usize = 0;
    while i < names.len()
        invariant
            i <= names.len(),
            specs.len() == i,
            limits.len() == 1 || limits.len() == names.len(),
            thresholds.len() == 1 || thresholds.len() == names.len(),
            limits_valid(limits@),
            thresholds_valid(thresholds@),
            forall|j: int|
                0 <= j < i ==> #[trigger] spec_matches(
                    specs@[j],
                    store_url@,
                    names@[j]@,
                    limits@,
                    thresholds@,
                    j,
                ),
        decreases names.len() - i,
    {
        let limit = if limits.len() == 1 {
            limits[0]
        } else {
            limits[i]
        };
        let score_threshold = if thresholds.len() == 1 {
            thresholds[0]
        } else {
            thresholds[i]
        };
        let spec = CollectionSpec {
            store_url: store_url.clone(),
            collection_name: names[i].clone(),
            limit,
            score_threshold,
        };
        specs.push(spec);
        i += 1;
    }
    Ok(specs)
}

/// What `check_model_pairs` decides: the first setting not given exactly twice.
pub open spec fn model_pairs_check(
    names: nat,
    aliases: nat,
    ctx_sizes: nat,
    batch_sizes: nat,
    ubatch_sizes: nat,
    templates: nat,
) -> Result<(), ConfigError> {
    if names != 2 {
        Err(ConfigError::ModelPair(ModelSetting::Name))
    } else if aliases != 2 {
        Err(ConfigError::ModelPair(ModelSetting::Alias))
    } else if ctx_sizes != 2 {
        Err(ConfigError::ModelPair(ModelSetting::ContextSize))
    } else if batch_sizes != 2 {
        Err(ConfigError::ModelPair(ModelSetting::BatchSize))
    } else if ubatch_sizes != 2 {
        Err(ConfigError::ModelPair(ModelSetting::UbatchSize))
    } else if templates != 2 {
        Err(ConfigError::ModelPair(ModelSetting::PromptTemplate))
    } else {
        Ok(())
    }
}

/// Checks that each per-model setting was given once for the chat model and
/// once for the embedding model; reports the first one that was not.
pub fn check_model_pairs(
    names: usize,
    aliases: usize,
    ctx_sizes: usize,
    batch_sizes: usize,
    ubatch_sizes: usize,
    templates: usize,
) -> (r: Result<(), ConfigError>)
    ensures
        r == model_pairs_check(
            names as nat,
            aliases as nat,
            ctx_sizes as nat,
            batch_sizes as nat,
            ubatch_sizes as nat,
            templates as nat,
        ),
{
    if names != 2 {
        Err(ConfigError::ModelPair(ModelSetting::Name))
    } else if aliases != 2 {
        Err(ConfigError::ModelPair(ModelSetting::Alias))
    } else if ctx_sizes != 2 {
        Err(ConfigError::ModelPair(ModelSetting::ContextSize))
    } else if batch_sizes != 2 {
        Err(ConfigError::ModelPair(ModelSetting::BatchSize))
    } else if ubatch_sizes != 2 {
        Err(ConfigError::ModelPair(ModelSetting::UbatchSize))
    } else if templates != 2 {
        Err(ConfigError::ModelPair(ModelSetting::PromptTemplate))
    } else {
        Ok(())
    }
}

/// The policy in force: `SystemMessage` falls back to `LastUserMessage` on a
/// chat model whose template has no system role.
pub open spec fn effective_policy_spec(configured: MergePolicy, supports_system: bool) -> MergePolicy {
    if configured == MergePolicy::SystemMessage && !supports_system {
        MergePolicy::LastUserMessage
    } else {
        configured
    }
}

pub fn effective_policy(configured: MergePolicy, supports_system: bool) -> (r: MergePolicy)
    ensures
        r == effective_policy_spec(configured, supports_system),
{
    match configured {
        MergePolicy::SystemMessage => {
            if supports_system {
                MergePolicy::SystemMessage
            } else {
                MergePolicy::LastUserMessage
            }
        },
        MergePolicy::LastUserMessage => MergePolicy::LastUserMessage,
    }
}

#[verifier::external_type_specification]
#[verifier::external_body]
pub struct ExPromptTemplateType(PromptTemplateType);

/// Whether a prompt template has a system role, as chat-prompts decides it.
pub uninterp spec fn template_has_system_prompt(t: PromptTemplateType) -> bool;

/// Relies on chat_prompts' `PromptTemplateType::has_system_prompt`, a fixed
/// table of the templates that carry a system role.
#[verifier::external_body]
fn has_system_prompt(t: &PromptTemplateType) -> (r: bool)
    ensures
        r == template_has_system_prompt(*t),
{
    t.has_system_prompt()
}

/// The policy in force for a chat model with the given template; decided once
/// at startup.
pub fn resolve_policy(configured: MergePolicy, chat_template: &PromptTemplateType) -> (r: MergePolicy)
    ensures
        r == effective_policy_spec(configured, template_has_system_prompt(*chat_template)),
{
    let supports = has_system_prompt(chat_template);
    effective_policy(configured, supports)
}

/// Downgrading happens only for `SystemMessage` on a model without a system
/// role, and then both configured values give the same policy.
pub proof fn lemma_policy_without_system_role(supports_system: bool)
    requires
        !supports_system,
    ensures
        effective_policy_spec(MergePolicy::SystemMessage, supports_system) == effective_policy_spec(
            MergePolicy::LastUserMessage,
            supports_system,
        ),
        effective_policy_spec(MergePolicy::SystemMessage, supports_system)
            == MergePolicy::LastUserMessage,
{
}

/// A startup configuration is accepted exactly when the limit and threshold
/// lists each hold one shared value or one value per collection (given limits
/// of at least one and thresholds within scale).
pub proof fn lemma_collection_counts(count: nat, limits: Seq<u64>, thresholds: Seq<u64>)
    requires
        limits_valid(limits),
        thresholds_valid(thresholds),
    ensures
        collection_check(count, limits, thresholds) is Ok <==> (fits_collections(limits.len(), count)
            && fits_collections(thresholds.len(), count)),
{
}

} // verus!
