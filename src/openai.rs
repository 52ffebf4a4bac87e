//! What is decided before a language-model request leaves: token budgets, the
//! requests themselves, the context that retrieval adds, and the clean-up of
//! generated documentation records.

use vstd::prelude::*;

use crate::models::{id_hash, id_views, kind_name, CodeElement, DocumentedCodeElement, ItemKind};
use crate::text::{
    chars_of, fits_tokenizer, lower_of, no_long_space_run, replace_all, replace_chars, string_of, to_lowercase,
};

verus! {

/// The fewest completion tokens that a request must leave room for.
pub const MIN_COMPLETION_TOKENS: usize = 2000;

/// The most tokens that the embedding model accepts.
pub const EMBEDDING_MODEL_MAX_TOKENS: usize = 8191;

/// The seed that makes completions repeatable.
pub const OPENAI_API_SEED: u8 = 42;

/// The system message of a documentation request.
pub const SYSTEM_MSG_DOC_GENERATION: &'static str = "
    You are a technical writer and rockstar Rust developer responsible for documenting the codebase 
    in the Engineering department of a blockchain software company.

    Document the code element provided by the user following Rust's documentation conventions.

    Follow exactly format instructions to produce the final output:
    
    json {
	    'ident': string  // This is the ident from the user
	    'kind': string  // This is the kind from the user
			'location': string // This is the location from the user
	    'general_description': string  // This is a general description of the usage of the code provided by the user. Insert references to other parts of code between backticks ``. If kind == Trait or kind == Mod provide only a single object with the general description of the trait
	    'panic_possible': string  // True if the code can generate panics, false otherwise
	    'panic_section': string  // If panic_possible == true then a description of how panics can happen. Insert references to other parts of code between backticks ``
	    'error_possible': string  // True if kind == Fn && the code can return an error, false otherwise
	    'error_section': string  // If error_possible == true then a description of all errors possible. Insert references to other parts of code between backticks ``
	    'example_section': string  // If kind == Fn then include code examples using the function provided in the simplest way possible. The example provided should be a working one, therefore doctest must always succed
	    'has_fields_or_variants': string  // True if kind == Struct || kind == Enum, false otherwise
	    'fields_or_variants_descriptions': string  // A list containing a description for each field or variant or an empty list. Insert references to other parts of code between backticks ``
    }
    
    Wrap your final output with closed and open brackets (a list of json objects).
";

/// The system message of a question about a repository; the retrieved code follows it.
pub const SYSTEM_MSG_USER_QUESTION: &'static str = "
		You are a seasoned Rust developer and expert who has extensively contributed to various Rust projects. As an ambassador of the Rust programming language, 
		you have a deep understanding of its ecosystem, best practices, and community standards.

		You have recently performed a comprehensive Rust Analysis using RAG (Repository Analysis with Qdrant). The analysis included exploring code elements, 
		identifying dependencies, and assessing the overall structure of a Rust repository.

		Now, you are ready to answer questions related to the analyzed repository. Use the insights gathered from the RAG to provide informative and knowledgeable 
		responses. Feel free to share your expertise on Rust conventions, code organization, potential improvements, and any other relevant insights.

		Keep your answers clear, concise, and tailored to the specific context of the repository in question. Your goal is to assist and guide users based on your 
		in-depth knowledge of Rust and the findings from the recent analysis.

    Follow exactly format instructions to produce the final output:
    
    json {
	    'response': string  // This is your response to the question
	    'suggested_questions': [string]  // These are three suggested questions so that the user can explore further the repository
    }
    
    Wrap your final output with closed and open brackets (a list of json objects).

		Here is the data coming from the RAG:
";

/// A name for the number of tokens of `text` under the tokenizer of `model`,
/// or `None` where the model has no known tokenizer.
pub uninterp spec fn token_count_of(model: Seq<char>, text: Seq<char>) -> Option<usize>;

/// A name for the completion tokens that `model` has left after `prompt`, or
/// `None` where the model has no known tokenizer.
pub uninterp spec fn completion_headroom_of(model: Seq<char>, prompt: Seq<char>) -> Option<usize>;

/// Relies on `tiktoken_rs::get_bpe_from_model` and
/// `CoreBPE::encode_with_special_tokens`: the tokens of `text` for `model`,
/// counted; `None` where the model is unknown. The encoder panics on a run of
/// about a million whitespace characters, which `requires` leaves out.
#[verifier::external_body]
fn token_count(model: &str, text: &str) -> (r: Option<usize>)
    requires
        no_long_space_run(text@),
    ensures
        r == token_count_of(model@, text@),
{
    match tiktoken_rs::get_bpe_from_model(model) {
        Ok(bpe) => Some(bpe.encode_with_special_tokens(text).len()),
        Err(_) => None,
    }
}

/// Relies on `tiktoken_rs::get_completion_max_tokens`: the model's context size
/// less the tokens of `prompt`; `None` where the model is unknown. It encodes
/// the prompt as `token_count` does, so the same runs of whitespace are left out.
#[verifier::external_body]
fn completion_headroom(model: &str, prompt: &str) -> (r: Option<usize>)
    requires
        no_long_space_run(prompt@),
    ensures
        r == completion_headroom_of(model@, prompt@),
{
    tiktoken_rs::get_completion_max_tokens(model, prompt).ok()
}

/// Why a request was not made.
#[derive(Debug, Clone, Copy, PartialEq, Eq, Structural)]
pub enum LlmError {
    /// The model has no known tokenizer.
    UnknownModel,
    /// The text has more tokens than the embedding model accepts.
    TooLongToEmbed,
    /// The prompt leaves fewer completion tokens than the floor.
    NoRoomForResponse,
    /// The text holds a run of whitespace longer than the tokenizer handles.
    WhitespaceRunTooLong,
}

/// The message that reports an error.
pub open spec fn error_message(e: LlmError) -> Seq<char> {
    match e {
        LlmError::UnknownModel => "No tokenizer found for the model"@,
        LlmError::TooLongToEmbed => "The code snippet provided is too long to be embedded"@,
        LlmError::NoRoomForResponse => "The code snippet provided is too long: no room for model response"@,
        LlmError::WhitespaceRunTooLong => "The code snippet provided holds too long a run of whitespace"@,
    }
}

impl LlmError {
    pub fn message(&self) -> (r: String)
        ensures
            r@ == error_message(*self),
    {
        match self {
            LlmError::UnknownModel => "No tokenizer found for the model".to_string(),
            LlmError::TooLongToEmbed => "The code snippet provided is too long to be embedded".to_string(),
            LlmError::NoRoomForResponse => "The code snippet provided is too long: no room for model response".to_string(),
            LlmError::WhitespaceRunTooLong => "The code snippet provided holds too long a run of whitespace".to_string(),
        }
    }
}

/// The number of tokens of `text` for `model`; `None` where the model is unknown.
pub fn count_tokens(model: &str, text: &str) -> (r: Option<u64>)
    requires
        no_long_space_run(text@),
    ensures
        r == match token_count_of(model@, text@) {
            Some(n) => Some(n as u64),
            None => None,
        },
{
    match token_count(model, text) {
        Some(n) => Some(n as u64),
        None => None,
    }
}

/// The outcome of the budget guard for a prompt with `headroom` completion
/// tokens left (`None`: the model is unknown).
pub open spec fn budget_outcome(headroom: Option<usize>) -> Result<usize, LlmError> {
    match headroom {
        None => Err(LlmError::UnknownModel),
        Some(v) => if v < MIN_COMPLETION_TOKENS {
            Err(LlmError::NoRoomForResponse)
        } else {
            Ok(v)
        },
    }
}

/// The budget guard on a computed headroom.
pub fn check_completion_budget(headroom: Option<usize>) -> (r: Result<usize, LlmError>)
    ensures
        r == budget_outcome(headroom),
{
    match headroom {
        None => Err(LlmError::UnknownModel),
        Some(v) => if v < MIN_COMPLETION_TOKENS {
            Err(LlmError::NoRoomForResponse)
        } else {
            Ok(v)
        },
    }
}

/// A chat-completion request, ready to send: the model, the system message,
/// the user message and the seed.
#[derive(Debug)]
pub struct ChatRequest {
    pub model: String,
    pub system: String,
    pub user: String,
    pub seed: u8,
}

/// An embedding request, ready to send.
#[derive(Debug)]
pub struct EmbeddingRequest {
    pub model: String,
    pub input: String,
}

/// A chat request whose prompt is `system` followed by `user`: made only when
/// the prompt leaves at least the floor of completion tokens, so a request
/// that would be cut short never reaches the network.
pub fn plan_chat_request(chat_model: &str, system: String, user: String) -> (r: Result<ChatRequest, LlmError>)
    ensures
        !no_long_space_run(system@ + user@) ==> r == Err::<ChatRequest, LlmError>(LlmError::WhitespaceRunTooLong),
        no_long_space_run(system@ + user@) ==> match budget_outcome(completion_headroom_of(chat_model@, system@ + user@)) {
            Ok(_) => r matches Ok(req) && req.model@ == chat_model@ && req.system@ == system@ && req.user@
                == user@ && req.seed == OPENAI_API_SEED,
            Err(e) => r == Err::<ChatRequest, LlmError>(e),
        },
{
    let mut prompt = system.clone();
    prompt.append(user.as_str());
    if !fits_tokenizer(prompt.as_str()) {
        return Err(LlmError::WhitespaceRunTooLong);
    }
    match check_completion_budget(completion_headroom(chat_model, prompt.as_str())) {
        Ok(_) => Ok(ChatRequest { model: chat_model.to_string(), system, user, seed: OPENAI_API_SEED }),
        Err(e) => Err(e),
    }
}

/// The user message that asks for the documentation of one element.
pub open spec fn documentation_request_text(ident: Seq<char>, kind: ItemKind, location: Seq<char>, code: Seq<char>) -> Seq<char> {
    "Provide the documentation to insert directly in the code of "@ + ident + ", a Rust "@ + kind_name(kind)
        + " whose location is "@ + location + ":\n        \n        "@ + code
}

/// The request for the documentation of one element, guarded by the budget.
pub fn plan_documentation_request(
    chat_model: &str,
    ident: &str,
    kind: &ItemKind,
    location: &str,
    code: &str,
) -> (r: Result<ChatRequest, LlmError>)
    ensures
        !no_long_space_run(SYSTEM_MSG_DOC_GENERATION@ + documentation_request_text(ident@, *kind, location@, code@))
            ==> r == Err::<ChatRequest, LlmError>(LlmError::WhitespaceRunTooLong),
        no_long_space_run(SYSTEM_MSG_DOC_GENERATION@ + documentation_request_text(ident@, *kind, location@, code@))
            ==> match budget_outcome(completion_headroom_of(chat_model@, SYSTEM_MSG_DOC_GENERATION@ + documentation_request_text(ident@, *kind, location@, code@))) {
            Ok(_) => r matches Ok(req) && req.model@ == chat_model@ && req.system@ == SYSTEM_MSG_DOC_GENERATION@
                && req.user@ == documentation_request_text(ident@, *kind, location@, code@) && req.seed == OPENAI_API_SEED,
            Err(e) => r == Err::<ChatRequest, LlmError>(e),
        },
{
    let mut user = "Provide the documentation to insert directly in the code of ".to_string();
    user.append(ident);
    user.append(", a Rust ");
    user.append(kind.to_string().as_str());
    user.append(" whose location is ");
    user.append(location);
    user.append(":\n        \n        ");
    user.append(code);
    plan_chat_request(chat_model, SYSTEM_MSG_DOC_GENERATION.to_string(), user)
}

/// The request that embeds `text`: refused where the model is unknown or the
/// text has more tokens than the embedding model accepts.
pub fn plan_embedding_request(embedding_model: &str, text: &str) -> (r: Result<EmbeddingRequest, LlmError>)
    ensures
        !no_long_space_run(text@) ==> r == Err::<EmbeddingRequest, LlmError>(LlmError::WhitespaceRunTooLong),
        no_long_space_run(text@) ==> match token_count_of(embedding_model@, text@) {
            None => r == Err::<EmbeddingRequest, LlmError>(LlmError::UnknownModel),
            Some(n) => if n > EMBEDDING_MODEL_MAX_TOKENS {
                r == Err::<EmbeddingRequest, LlmError>(LlmError::TooLongToEmbed)
            } else {
                r matches Ok(req) && req.model@ == embedding_model@ && req.input@ == text@
            },
        },
{
    if !fits_tokenizer(text) {
        return Err(LlmError::WhitespaceRunTooLong);
    }
    match token_count(embedding_model, text) {
        None => Err(LlmError::UnknownModel),
        Some(n) => if n > EMBEDDING_MODEL_MAX_TOKENS {
            Err(LlmError::TooLongToEmbed)
        } else {
            Ok(EmbeddingRequest { model: embedding_model.to_string(), input: text.to_string() })
        },
    }
}


/// `text` as one block of a prompt: on lines of its own.
pub open spec fn wrap_block(text: Seq<char>) -> Seq<char> {
    seq!['\n'] + text + seq!['\n']
}

/// The blocks of the texts that were found, in order; those not found are skipped.
pub open spec fn fetched_text(found: Seq<Option<String>>) -> Seq<char>
    decreases found.len(),
{
    if found.len() == 0 {
        Seq::empty()
    } else {
        fetched_text(found.drop_last()) + match found.last() {
            Some(c) => wrap_block(c@),
            None => Seq::empty(),
        }
    }
}

fn append_block(msg: &mut String, text: &str)
    ensures
        final(msg)@ == old(msg)@ + wrap_block(text@),
{
    proof {
        reveal_strlit("\n");
    }
    msg.append("\n");
    msg.append(text);
    msg.append("\n");
}

/// The storage keys of the elements that expanding the context of `code_element`
/// looks up: its dependencies, then its children, one level deep.
pub fn context_keys(code_element: &CodeElement) -> (r: Vec<u64>)
    ensures
        r@ == (id_views(code_element.dependencies@) + id_views(code_element.children@)).map_values(
            |id: crate::models::IdView| id_hash(id),
        ),
{
    let ghost ids = id_views(code_element.dependencies@) + id_views(code_element.children@);
    let mut r: Vec<u64> = Vec::new();
    for i in 0..code_element.dependencies.len()
        invariant
            ids == id_views(code_element.dependencies@) + id_views(code_element.children@),
            r.len() == i,
            forall|j: int| 0 <= j < i ==> r@[j] == id_hash(#[trigger] ids[j]),
    {
        r.push(code_element.dependencies[i].get_hash());
    }
    let n = code_element.dependencies.len();
    for i in 0..code_element.children.len()
        invariant
            ids == id_views(code_element.dependencies@) + id_views(code_element.children@),
            n == code_element.dependencies.len(),
            r.len() == n + i,
            forall|j: int| 0 <= j < n + i ==> r@[j] == id_hash(#[trigger] ids[j]),
    {
        r.push(code_element.children[i].get_hash());
    }
    assert(r@ =~= ids.map_values(|id: crate::models::IdView| id_hash(id)));
    r
}

/// Appends to the prompt `system_msg` the code of a retrieved element and the
/// code of each element that its keys led to (`fetched`, in the order of
/// `context_keys`), skipping those that were not found.
pub fn expand_context(system_msg: &mut String, code: &str, fetched: &Vec<Option<String>>)
    ensures
        final(system_msg)@ == old(system_msg)@ + wrap_block(code@) + fetched_text(fetched@),
{
    append_block(system_msg, code);
    let ghost base = system_msg@;
    assert(fetched@.take(0) =~= Seq::<Option<String>>::empty());
    assert(base + fetched_text(fetched@.take(0)) =~= base);
    for i in 0..fetched.len()
        invariant
            system_msg@ == base + fetched_text(fetched@.take(i as int)),
    {
        proof {
            assert(fetched@.take(i + 1).drop_last() =~= fetched@.take(i as int));
            assert(fetched@.take(i + 1).last() == fetched@[i as int]);
        }
        match &fetched[i] {
            Some(c) => {
                append_block(system_msg, c.as_str());
                assert(system_msg@ =~= base + fetched_text(fetched@.take(i + 1)));
            },
            None => {
                assert(fetched_text(fetched@.take(i + 1)) =~= fetched_text(fetched@.take(i as int)));
            },
        }
    }
    assert(fetched@.take(fetched.len() as int) =~= fetched@);
}

/// The location of a generated record written the way locations are: without
/// spaces, then with ` :: ` between segments.
pub open spec fn normal_location(location: Seq<char>) -> Seq<char> {
    replace_all(replace_all(location, " "@, Seq::empty()), "::"@, " :: "@)
}

/// A generated record made comparable with extracted elements: its kind in
/// lower case, its location in the form of locations.
pub fn normalize_documented(raw: DocumentedCodeElement) -> (r: DocumentedCodeElement)
    ensures
        r.kind@ == lower_of(raw.kind@),
        r.location@ == normal_location(raw.location@),
        r.ident == raw.ident,
        r.general_description == raw.general_description,
        r.panic_possible == raw.panic_possible,
        r.panic_section == raw.panic_section,
        r.error_possible == raw.error_possible,
        r.error_section == raw.error_section,
        r.example_section == raw.example_section,
        r.has_fields_or_variants == raw.has_fields_or_variants,
        r.fields_or_variants_descriptions == raw.fields_or_variants_descriptions,
{
    proof {
        reveal_strlit(" ");
        reveal_strlit("");
        reveal_strlit("::");
        reveal_strlit(" :: ");
        assert(""@ =~= Seq::<char>::empty());
    }
    let kind = to_lowercase(raw.kind.as_str());
    let loc = chars_of(raw.location.as_str());
    let no_spaces = replace_chars(loc.as_slice(), chars_of(" ").as_slice(), chars_of("").as_slice());
    let spaced = replace_chars(no_spaces.as_slice(), chars_of("::").as_slice(), chars_of(" :: ").as_slice());
    DocumentedCodeElement { kind, location: string_of(spaced.as_slice()), ..raw }
}

} // verus!
