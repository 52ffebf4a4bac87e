use rusty_docs::models::{CodeElement, CodeElementID, ItemKind};
use rusty_docs::openai::{
    check_completion_budget, context_keys, count_tokens, expand_context, plan_chat_request,
    plan_documentation_request, plan_embedding_request, LlmError, OPENAI_API_SEED, SYSTEM_MSG_DOC_GENERATION,
};
use rusty_docs::text::fits_tokenizer;
use rusty_docs::store::{embedding_text, payload_code, EmbedGate};

fn id(ident: &str) -> CodeElementID {
    CodeElementID::new(ident.to_string(), ItemKind::Fn, "crate :: m".to_string())
}

fn element(kind: ItemKind, code: &str) -> CodeElement {
    CodeElement {
        code_element_id: CodeElementID::new("e".to_string(), kind, "crate :: m".to_string()),
        code: code.to_string(),
        line_start: vec![1],
        imports: Vec::new(),
        children: Vec::new(),
        dependencies: Vec::new(),
        implementors: Vec::new(),
    }
}

#[test]
fn budget_floor_is_two_thousand() {
    assert_eq!(check_completion_budget(Some(1999)), Err(LlmError::NoRoomForResponse));
    assert_eq!(check_completion_budget(Some(2000)), Ok(2000));
    assert_eq!(check_completion_budget(None), Err(LlmError::UnknownModel));
}

#[test]
fn long_prompts_are_refused_before_any_request_exists() {
    let long = "word ".repeat(7000);
    let r = plan_chat_request("gpt-4", "system".to_string(), long);
    assert!(matches!(r, Err(LlmError::NoRoomForResponse)));
    let r = plan_chat_request("no-such-model", "s".to_string(), "u".to_string());
    assert!(matches!(r, Err(LlmError::UnknownModel)));
    let ok = plan_chat_request("gpt-4", "system".to_string(), "question".to_string()).expect("room left");
    assert_eq!(ok.model, "gpt-4");
    assert_eq!(ok.system, "system");
    assert_eq!(ok.user, "question");
    assert_eq!(ok.seed, OPENAI_API_SEED);
}

#[test]
fn documentation_requests_name_the_element() {
    let r = plan_documentation_request("gpt-4", "go", &ItemKind::Fn, "crate :: a", "fn go() {}").expect("room left");
    assert_eq!(
        r.user,
        "Provide the documentation to insert directly in the code of go, a Rust fn whose location is crate :: a:\n        \n        fn go() {}"
    );
    assert_eq!(r.system, SYSTEM_MSG_DOC_GENERATION);
}

#[test]
fn tokens_are_counted_and_embedding_input_is_bounded() {
    let n = count_tokens("gpt-4", "hello world").expect("known model");
    assert!(n >= 2 && n < 11);
    assert_eq!(count_tokens("no-such-model", "x"), None);
    let r = plan_embedding_request("text-embedding-ada-002", "fn a() {}").expect("short");
    assert_eq!(r.input, "fn a() {}");
    let long = "word ".repeat(9000);
    assert!(matches!(plan_embedding_request("text-embedding-ada-002", &long), Err(LlmError::TooLongToEmbed)));
}

#[test]
fn context_expands_one_level() {
    let mut e = element(ItemKind::Fn, "fn e() {}");
    e.dependencies = vec![id("d")];
    e.children = vec![id("c")];
    let keys = context_keys(&e);
    assert_eq!(keys, vec![id("d").get_hash(), id("c").get_hash()]);
    let mut msg = "Q".to_string();
    expand_context(&mut msg, &e.code, &vec![None, Some("fn c() {}".to_string())]);
    assert_eq!(msg, "Q\nfn e() {}\n\nfn c() {}\n");
}

#[test]
fn stored_text_drops_doc_markers() {
    let m = element(ItemKind::Mod, "//! About.\nfn a() {}\n//! More.");
    assert_eq!(embedding_text(&m), "//! About.\n//! More.\n");
    assert_eq!(payload_code(&m), " About.\n More.\n");
    let f = element(ItemKind::Fn, "/// Doc.\nfn a() {}");
    assert_eq!(embedding_text(&f), "/// Doc.\nfn a() {}");
    assert_eq!(payload_code(&f), " Doc.\nfn a() {}");
}

#[test]
fn bounded_upload_makes_every_attempt_and_reports_one_failure() {
    let mut gate = EmbedGate::new(5, Some(2));
    let mut running: Vec<usize> = Vec::new();
    let mut attempts = 0;
    while !gate.is_settled() {
        while gate.can_start() {
            running.push(gate.start());
            attempts += 1;
            assert!(running.len() <= 2);
        }
        let index = running.remove(0);
        gate.finish(index, index != 2);
    }
    assert_eq!(attempts, 5);
    assert_eq!(gate.failures, 1);
    assert_eq!(gate.outcome(), Err(2));
}

#[test]
fn unbounded_upload_stops_at_the_first_failure() {
    let mut gate = EmbedGate::new(5, None);
    let mut attempts = 0;
    while !gate.is_settled() {
        assert!(gate.can_start());
        let index = gate.start();
        attempts += 1;
        assert!(!gate.can_start());
        gate.finish(index, index != 2);
    }
    assert_eq!(attempts, 3);
    assert_eq!(gate.outcome(), Err(2));
    let mut clean = EmbedGate::new(2, None);
    while clean.can_start() {
        let i = clean.start();
        clean.finish(i, true);
    }
    assert_eq!(clean.outcome(), Ok(2));
}

#[test]
fn long_whitespace_runs_never_reach_the_tokenizer() {
    let run = " ".repeat(100000);
    assert!(!fits_tokenizer(&run));
    assert!(fits_tokenizer(&" ".repeat(99999)));
    assert!(fits_tokenizer(&"a ".repeat(100000)));
    assert!(matches!(plan_embedding_request("text-embedding-ada-002", &run), Err(LlmError::WhitespaceRunTooLong)));
    assert!(matches!(
        plan_chat_request("gpt-4", "s".to_string(), format!("q{run}")),
        Err(LlmError::WhitespaceRunTooLong)
    ));
    assert_eq!(
        LlmError::NoRoomForResponse.message(),
        "The code snippet provided is too long: no room for model response"
    );
}
