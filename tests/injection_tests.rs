use rag_api_server::config::{effective_policy, MergePolicy};
use rag_api_server::injection::{
    build_context_block, inject_context, ChatMessage, Role, DEFAULT_RAG_PROMPT,
};
use rag_api_server::retrieval::RetrievedChunk;

fn msg(role: Role, content: &str) -> ChatMessage {
    ChatMessage { role, content: content.to_string() }
}

fn chunks(texts: &[&str]) -> Vec<RetrievedChunk> {
    texts
        .iter()
        .map(|t| RetrievedChunk { text: t.to_string(), score: 1, source_id: 0, rank: 0 })
        .collect()
}

fn shape(m: &[ChatMessage]) -> Vec<(Role, String)> {
    m.iter().map(|x| (x.role, x.content.clone())).collect()
}

#[test]
fn block_uses_custom_prompt() {
    let b = build_context_block(&chunks(&["one", "two"]), &Some("Context:".to_string()));
    assert_eq!(b, "Context:\none\n\ntwo");
}

#[test]
fn block_falls_back_to_default_prompt() {
    let b = build_context_block(&chunks(&["one"]), &None);
    assert_eq!(b, format!("{}\none", DEFAULT_RAG_PROMPT));
    let e = build_context_block(&chunks(&["one"]), &Some(String::new()));
    assert_eq!(e, b);
}

#[test]
fn system_policy_extends_existing_system_message() {
    let mut m = vec![msg(Role::System, "Be brief."), msg(Role::User, "Hi")];
    inject_context(&mut m, &chunks(&["fact"]), MergePolicy::SystemMessage, &Some("P".to_string()));
    assert_eq!(
        shape(&m),
        vec![(Role::System, "Be brief.\nP\nfact".to_string()), (Role::User, "Hi".to_string())]
    );
}

#[test]
fn system_policy_inserts_system_message() {
    let mut m = vec![msg(Role::User, "Hi")];
    inject_context(&mut m, &chunks(&["fact"]), MergePolicy::SystemMessage, &Some("P".to_string()));
    assert_eq!(
        shape(&m),
        vec![(Role::System, "P\nfact".to_string()), (Role::User, "Hi".to_string())]
    );
}

#[test]
fn last_user_policy_appends_to_latest_user_turn() {
    let mut m = vec![
        msg(Role::User, "first"),
        msg(Role::Assistant, "reply"),
        msg(Role::User, "second"),
        msg(Role::Assistant, "partial"),
    ];
    inject_context(&mut m, &chunks(&["a", "b"]), MergePolicy::LastUserMessage, &Some("P".to_string()));
    assert_eq!(
        shape(&m),
        vec![
            (Role::User, "first".to_string()),
            (Role::Assistant, "reply".to_string()),
            (Role::User, "second\n\nP\na\n\nb".to_string()),
            (Role::Assistant, "partial".to_string()),
        ]
    );
}

#[test]
fn last_user_policy_without_user_turn_is_a_no_op() {
    let mut m = vec![msg(Role::System, "s")];
    inject_context(&mut m, &chunks(&["a"]), MergePolicy::LastUserMessage, &None);
    assert_eq!(shape(&m), vec![(Role::System, "s".to_string())]);
}

#[test]
fn no_chunks_leaves_messages_unchanged() {
    for policy in [MergePolicy::SystemMessage, MergePolicy::LastUserMessage] {
        let mut m = vec![msg(Role::System, "s"), msg(Role::User, "u")];
        inject_context(&mut m, &chunks(&[]), policy, &None);
        assert_eq!(shape(&m), vec![(Role::System, "s".to_string()), (Role::User, "u".to_string())]);
    }
}

#[test]
fn downgraded_system_policy_matches_last_user_policy() {
    let base = || vec![msg(Role::System, "s"), msg(Role::User, "q")];
    let mut a = base();
    let mut b = base();
    let c = chunks(&["ctx"]);
    inject_context(&mut a, &c, effective_policy(MergePolicy::SystemMessage, false), &None);
    inject_context(&mut b, &c, effective_policy(MergePolicy::LastUserMessage, false), &None);
    assert_eq!(shape(&a), shape(&b));
    assert_eq!(a[0].content, "s");
}
