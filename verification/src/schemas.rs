//! The JSON schemas of the answers that the model is asked for.
use vstd::prelude::*;
use crate::json::{
    json_array, json_bool, json_object, json_text, json_tree, json_trees, member, members_of,
    JsonTree,
};
use crate::text::{lemma_take_push, texts};

verus! {

/// What the likely understanding is said to be.
pub const UNDERSTANDING_DESCRIPTION: &'static str = "How Codex would likely interpret the original prompt if submitted unchanged. Use the same primary language as the original prompt.";

/// What the enhanced prompt is said to be.
pub const ENHANCED_PROMPT_DESCRIPTION: &'static str = "The refined prompt, written as the user. Use the same primary language as the original prompt unless the user explicitly asks for translation or a different language.";

// ---------------------------------------------------------------------------
// Parts of schemas
// ---------------------------------------------------------------------------

/// The array of these texts.
pub open spec fn text_array(items: Seq<Seq<char>>) -> JsonTree {
    JsonTree::Array(Seq::new(items.len(), |i: int| JsonTree::Text(items[i])))
}

/// The schema of a value of a simple type.
pub open spec fn type_tree(name: Seq<char>) -> JsonTree {
    JsonTree::Object(map!["type"@ => JsonTree::Text(name)])
}

/// The schema of a text that is described.
pub open spec fn described_tree(description: Seq<char>) -> JsonTree {
    JsonTree::Object(
        map![
            "type"@ => JsonTree::Text("string"@),
            "description"@ => JsonTree::Text(description),
        ],
    )
}

/// The schema of one of some texts.
pub open spec fn choice_tree(choices: Seq<Seq<char>>) -> JsonTree {
    JsonTree::Object(
        map!["type"@ => JsonTree::Text("string"@), "enum"@ => text_array(choices)],
    )
}

/// The schema of a list of texts.
pub open spec fn list_tree() -> JsonTree {
    JsonTree::Object(
        map!["type"@ => JsonTree::Text("array"@), "items"@ => type_tree("string"@)],
    )
}

/// The schema of an object with these properties and no others.
pub open spec fn object_tree(
    properties: Map<Seq<char>, JsonTree>,
    required: Seq<Seq<char>>,
) -> JsonTree {
    JsonTree::Object(
        map![
            "type"@ => JsonTree::Text("object"@),
            "additionalProperties"@ => JsonTree::Bool(false),
            "properties"@ => JsonTree::Object(properties),
            "required"@ => text_array(required),
        ],
    )
}

fn put(entries: &mut Vec<(String, serde_json::Value)>, key: &str, value: serde_json::Value)
    ensures
        members_of(final(entries)@) == members_of(old(entries)@).insert(key@, json_tree(value)),
{
    let ghost before = entries@;
    entries.push((key.to_owned(), value));
    proof {
        assert(entries@.drop_last() =~= before);
    }
}

fn text_list(items: &Vec<String>) -> (r: serde_json::Value)
    ensures
        json_tree(r) == text_array(texts(items@)),
{
    let ghost all = Seq::new(items@.len(), |i: int| JsonTree::Text(texts(items@)[i]));
    let mut values: Vec<serde_json::Value> = Vec::new();
    let mut i: usize = 0;
    proof {
        assert(json_trees(values@) =~= all.take(0));
    }
    while i < items.len()
        invariant
            i <= items@.len(),
            all.len() == items@.len(),
            forall|k: int| 0 <= k < all.len() ==> #[trigger] all[k] == JsonTree::Text(items@[k]@),
            json_trees(values@) == all.take(i as int),
        decreases items@.len() - i,
    {
        let ghost before = values@;
        let value = json_text(items[i].as_str());
        values.push(value);
        proof {
            assert(json_trees(values@) =~= json_trees(before).push(json_tree(value)));
            lemma_take_push(all, i as int);
        }
        i += 1;
    }
    proof {
        assert(all.take(items@.len() as int) =~= all);
        assert(texts(items@).len() == items@.len());
        assert(text_array(texts(items@)) == JsonTree::Array(all));
    }
    json_array(values)
}

fn type_schema(name: &str) -> (r: serde_json::Value)
    ensures
        json_tree(r) == type_tree(name@),
{
    let mut entries: Vec<(String, serde_json::Value)> = Vec::new();
    put(&mut entries, "type", json_text(name));
    json_object(entries)
}

fn described_schema(description: &str) -> (r: serde_json::Value)
    ensures
        json_tree(r) == described_tree(description@),
{
    let mut entries: Vec<(String, serde_json::Value)> = Vec::new();
    put(&mut entries, "type", json_text("string"));
    put(&mut entries, "description", json_text(description));
    json_object(entries)
}

fn choice_schema(choices: &Vec<String>) -> (r: serde_json::Value)
    ensures
        json_tree(r) == choice_tree(texts(choices@)),
{
    let mut entries: Vec<(String, serde_json::Value)> = Vec::new();
    put(&mut entries, "type", json_text("string"));
    put(&mut entries, "enum", text_list(choices));
    json_object(entries)
}

fn list_schema() -> (r: serde_json::Value)
    ensures
        json_tree(r) == list_tree(),
{
    let mut entries: Vec<(String, serde_json::Value)> = Vec::new();
    put(&mut entries, "type", json_text("array"));
    put(&mut entries, "items", type_schema("string"));
    json_object(entries)
}

fn object_schema(
    properties: Vec<(String, serde_json::Value)>,
    required: &Vec<String>,
) -> (r: serde_json::Value)
    ensures
        json_tree(r) == object_tree(members_of(properties@), texts(required@)),
{
    let mut entries: Vec<(String, serde_json::Value)> = Vec::new();
    put(&mut entries, "type", json_text("object"));
    put(&mut entries, "additionalProperties", json_bool(false));
    put(&mut entries, "properties", json_object(properties));
    put(&mut entries, "required", text_list(required));
    json_object(entries)
}

// ---------------------------------------------------------------------------
// The schemas
// ---------------------------------------------------------------------------

/// The properties of an enhancement.
pub open spec fn enhancement_properties() -> Map<Seq<char>, JsonTree> {
    map![
        "likely_understanding"@ => described_tree(UNDERSTANDING_DESCRIPTION@),
        "enhanced_prompt"@ => described_tree(ENHANCED_PROMPT_DESCRIPTION@),
        "changed"@ => type_tree("boolean"@),
    ]
}

/// The names of the properties of an enhancement.
pub open spec fn enhancement_names() -> Seq<Seq<char>> {
    seq!["likely_understanding"@, "enhanced_prompt"@, "changed"@]
}

/// The schema of an enhancement.
pub fn prompt_enhancement_schema() -> (r: serde_json::Value)
    ensures
        json_tree(r) == object_tree(enhancement_properties(), enhancement_names()),
{
    let mut properties: Vec<(String, serde_json::Value)> = Vec::new();
    put(
        &mut properties,
        "likely_understanding",
        described_schema(UNDERSTANDING_DESCRIPTION),
    );
    put(&mut properties, "enhanced_prompt", described_schema(ENHANCED_PROMPT_DESCRIPTION));
    put(&mut properties, "changed", type_schema("boolean"));
    let required: Vec<String> = vec![
        "likely_understanding".to_owned(),
        "enhanced_prompt".to_owned(),
        "changed".to_owned(),
    ];
    proof {
        assert(texts(required@) =~= enhancement_names());
    }
    object_schema(properties, &required)
}

/// The properties of a distilled conversation.
pub open spec fn distillation_properties() -> Map<Seq<char>, JsonTree> {
    map![
        "likely_understanding"@ => type_tree("string"@),
        "concise_summary"@ => type_tree("string"@),
        "hard_constraints"@ => list_tree(),
        "prior_decisions"@ => list_tree(),
        "mentioned_paths"@ => list_tree(),
        "search_hints"@ => list_tree(),
        "uncertainties"@ => list_tree(),
    ]
}

/// The names of the properties of a distilled conversation.
pub open spec fn distillation_names() -> Seq<Seq<char>> {
    seq![
        "likely_understanding"@,
        "concise_summary"@,
        "hard_constraints"@,
        "prior_decisions"@,
        "mentioned_paths"@,
        "search_hints"@,
        "uncertainties"@,
    ]
}

/// The schema of a distilled conversation.
pub fn ace_conversation_distillation_schema() -> (r: serde_json::Value)
    ensures
        json_tree(r) == object_tree(distillation_properties(), distillation_names()),
{
    let mut properties: Vec<(String, serde_json::Value)> = Vec::new();
    put(&mut properties, "likely_understanding", type_schema("string"));
    put(&mut properties, "concise_summary", type_schema("string"));
    put(&mut properties, "hard_constraints", list_schema());
    put(&mut properties, "prior_decisions", list_schema());
    put(&mut properties, "mentioned_paths", list_schema());
    put(&mut properties, "search_hints", list_schema());
    put(&mut properties, "uncertainties", list_schema());
    let required: Vec<String> = vec![
        "likely_understanding".to_owned(),
        "concise_summary".to_owned(),
        "hard_constraints".to_owned(),
        "prior_decisions".to_owned(),
        "mentioned_paths".to_owned(),
        "search_hints".to_owned(),
        "uncertainties".to_owned(),
    ];
    proof {
        assert(texts(required@) =~= distillation_names());
    }
    object_schema(properties, &required)
}

/// The properties of a step.
pub open spec fn step_properties() -> Map<Seq<char>, JsonTree> {
    map![
        "likely_understanding"@ => type_tree("string"@),
        "action"@ => choice_tree(seq!["search_files"@, "read_small_snippets"@, "finish"@]),
        "reason"@ => type_tree("string"@),
        "queries"@ => list_tree(),
        "paths"@ => list_tree(),
        "enhanced_prompt"@ => type_tree("string"@),
        "changed"@ => type_tree("boolean"@),
        "context_used"@ => list_tree(),
        "unresolved_questions"@ => list_tree(),
    ]
}

/// The names of the properties of a step.
pub open spec fn step_names() -> Seq<Seq<char>> {
    seq![
        "likely_understanding"@,
        "action"@,
        "reason"@,
        "queries"@,
        "paths"@,
        "enhanced_prompt"@,
        "changed"@,
        "context_used"@,
        "unresolved_questions"@,
    ]
}

/// The schema of a step.
pub fn ace_agent_step_schema() -> (r: serde_json::Value)
    ensures
        json_tree(r) == object_tree(step_properties(), step_names()),
{
    let actions: Vec<String> = vec![
        "search_files".to_owned(),
        "read_small_snippets".to_owned(),
        "finish".to_owned(),
    ];
    proof {
        assert(texts(actions@) =~= seq!["search_files"@, "read_small_snippets"@, "finish"@]);
    }
    let mut properties: Vec<(String, serde_json::Value)> = Vec::new();
    put(&mut properties, "likely_understanding", type_schema("string"));
    put(&mut properties, "action", choice_schema(&actions));
    put(&mut properties, "reason", type_schema("string"));
    put(&mut properties, "queries", list_schema());
    put(&mut properties, "paths", list_schema());
    put(&mut properties, "enhanced_prompt", type_schema("string"));
    put(&mut properties, "changed", type_schema("boolean"));
    put(&mut properties, "context_used", list_schema());
    put(&mut properties, "unresolved_questions", list_schema());
    let required: Vec<String> = vec![
        "likely_understanding".to_owned(),
        "action".to_owned(),
        "reason".to_owned(),
        "queries".to_owned(),
        "paths".to_owned(),
        "enhanced_prompt".to_owned(),
        "changed".to_owned(),
        "context_used".to_owned(),
        "unresolved_questions".to_owned(),
    ];
    proof {
        assert(texts(required@) =~= step_names());
    }
    object_schema(properties, &required)
}

/// The properties of a review.
pub open spec fn review_properties() -> Map<Seq<char>, JsonTree> {
    map![
        "status"@ => choice_tree(seq!["pass"@, "repair"@, "fail"@]),
        "reason"@ => type_tree("string"@),
        "likely_understanding"@ => type_tree("string"@),
        "enhanced_prompt"@ => type_tree("string"@),
    ]
}

/// The names of the properties of a review.
pub open spec fn review_names() -> Seq<Seq<char>> {
    seq!["status"@, "reason"@, "likely_understanding"@, "enhanced_prompt"@]
}

/// The schema of a review.
pub fn ace_guardrail_review_schema() -> (r: serde_json::Value)
    ensures
        json_tree(r) == object_tree(review_properties(), review_names()),
{
    let statuses: Vec<String> = vec!["pass".to_owned(), "repair".to_owned(), "fail".to_owned()];
    proof {
        assert(texts(statuses@) =~= seq!["pass"@, "repair"@, "fail"@]);
    }
    let mut properties: Vec<(String, serde_json::Value)> = Vec::new();
    put(&mut properties, "status", choice_schema(&statuses));
    put(&mut properties, "reason", type_schema("string"));
    put(&mut properties, "likely_understanding", type_schema("string"));
    put(&mut properties, "enhanced_prompt", type_schema("string"));
    let required: Vec<String> = vec![
        "status".to_owned(),
        "reason".to_owned(),
        "likely_understanding".to_owned(),
        "enhanced_prompt".to_owned(),
    ];
    proof {
        assert(texts(required@) =~= review_names());
    }
    object_schema(properties, &required)
}

/// Every schema asks for all of its properties and knows no others.
pub proof fn law_schemas_are_closed(name: Seq<char>)
    ensures
        enhancement_properties().dom().contains(name) <==> enhancement_names().contains(name),
        distillation_properties().dom().contains(name) <==> distillation_names().contains(name),
        step_properties().dom().contains(name) <==> step_names().contains(name),
        review_properties().dom().contains(name) <==> review_names().contains(name),
{
    let a = enhancement_names();
    assert(a.contains(name) <==> a[0] == name || a[1] == name || a[2] == name);
    let b = distillation_names();
    assert(b.contains(name) <==> b[0] == name || b[1] == name || b[2] == name || b[3] == name
        || b[4] == name || b[5] == name || b[6] == name);
    let c = step_names();
    assert(c.contains(name) <==> c[0] == name || c[1] == name || c[2] == name || c[3] == name
        || c[4] == name || c[5] == name || c[6] == name || c[7] == name || c[8] == name);
    let d = review_names();
    assert(d.contains(name) <==> d[0] == name || d[1] == name || d[2] == name || d[3] == name);
}

/// Whether a schema asks for a value of this type.
pub open spec fn asks_for(schema: JsonTree, name: Seq<char>) -> bool {
    member(schema, "type"@) == Some(JsonTree::Text(name))
}

/// Whether a schema asks for a list of texts.
pub open spec fn asks_for_texts(schema: JsonTree) -> bool {
    &&& asks_for(schema, "array"@)
    &&& member(schema, "items"@) matches Some(items) && asks_for(items, "string"@)
}

/// Whether a schema asks for one of three texts.
pub open spec fn asks_for_one_of(
    schema: JsonTree,
    a: Seq<char>,
    b: Seq<char>,
    c: Seq<char>,
) -> bool {
    &&& asks_for(schema, "string"@)
    &&& member(schema, "enum"@) matches Some(JsonTree::Array(items)) && items.len() == 3 && items[0]
        == JsonTree::Text(a) && items[1] == JsonTree::Text(b) && items[2] == JsonTree::Text(c)
}

/// An enhancement tells two texts, and whether the prompt was changed.
pub proof fn law_enhancement_types()
    ensures
        asks_for(enhancement_properties()["likely_understanding"@], "string"@),
        asks_for(enhancement_properties()["enhanced_prompt"@], "string"@),
        asks_for(enhancement_properties()["changed"@], "boolean"@),
{
    reveal_strlit("type");
    assert("type"@.len() == 4);
    reveal_strlit("enum");
    assert("enum"@.len() == 4);
    reveal_strlit("items");
    assert("items"@.len() == 5);
    reveal_strlit("description");
    assert("description"@.len() == 11);
    reveal_strlit("likely_understanding");
    assert("likely_understanding"@.len() == 20);
    reveal_strlit("enhanced_prompt");
    assert("enhanced_prompt"@.len() == 15);
    reveal_strlit("changed");
    assert("changed"@.len() == 7);
    assert("type"@[0] == 't' && "enum"@[0] == 'e');
}

/// What is drawn from a conversation: two texts, and lists of texts.
pub proof fn law_distillation_types()
    ensures
        asks_for(distillation_properties()["likely_understanding"@], "string"@),
        asks_for(distillation_properties()["concise_summary"@], "string"@),
        asks_for_texts(distillation_properties()["hard_constraints"@]),
        asks_for_texts(distillation_properties()["prior_decisions"@]),
        asks_for_texts(distillation_properties()["mentioned_paths"@]),
        asks_for_texts(distillation_properties()["search_hints"@]),
        asks_for_texts(distillation_properties()["uncertainties"@]),
{
    reveal_strlit("type");
    assert("type"@.len() == 4);
    reveal_strlit("enum");
    assert("enum"@.len() == 4);
    reveal_strlit("items");
    assert("items"@.len() == 5);
    reveal_strlit("description");
    assert("description"@.len() == 11);
    reveal_strlit("likely_understanding");
    assert("likely_understanding"@.len() == 20);
    reveal_strlit("concise_summary");
    assert("concise_summary"@.len() == 15);
    reveal_strlit("hard_constraints");
    assert("hard_constraints"@.len() == 16);
    reveal_strlit("prior_decisions");
    assert("prior_decisions"@.len() == 15);
    reveal_strlit("mentioned_paths");
    assert("mentioned_paths"@.len() == 15);
    reveal_strlit("search_hints");
    assert("search_hints"@.len() == 12);
    reveal_strlit("uncertainties");
    assert("uncertainties"@.len() == 13);
    assert("type"@[0] == 't' && "enum"@[0] == 'e');
    assert("concise_summary"@[0] == 'c');
    assert("prior_decisions"@[0] == 'p');
    assert("mentioned_paths"@[0] == 'm');
}

/// A step of the agent: one of three actions, lists of texts to search for and to read, whether the
/// prompt was changed, and texts.
pub proof fn law_step_types()
    ensures
        asks_for_one_of(
            step_properties()["action"@],
            "search_files"@,
            "read_small_snippets"@,
            "finish"@,
        ),
        asks_for(step_properties()["likely_understanding"@], "string"@),
        asks_for(step_properties()["reason"@], "string"@),
        asks_for(step_properties()["enhanced_prompt"@], "string"@),
        asks_for(step_properties()["changed"@], "boolean"@),
        asks_for_texts(step_properties()["queries"@]),
        asks_for_texts(step_properties()["paths"@]),
        asks_for_texts(step_properties()["context_used"@]),
        asks_for_texts(step_properties()["unresolved_questions"@]),
{
    reveal_strlit("type");
    assert("type"@.len() == 4);
    reveal_strlit("enum");
    assert("enum"@.len() == 4);
    reveal_strlit("items");
    assert("items"@.len() == 5);
    reveal_strlit("description");
    assert("description"@.len() == 11);
    reveal_strlit("likely_understanding");
    assert("likely_understanding"@.len() == 20);
    reveal_strlit("action");
    assert("action"@.len() == 6);
    reveal_strlit("reason");
    assert("reason"@.len() == 6);
    reveal_strlit("queries");
    assert("queries"@.len() == 7);
    reveal_strlit("paths");
    assert("paths"@.len() == 5);
    reveal_strlit("enhanced_prompt");
    assert("enhanced_prompt"@.len() == 15);
    reveal_strlit("changed");
    assert("changed"@.len() == 7);
    reveal_strlit("context_used");
    assert("context_used"@.len() == 12);
    reveal_strlit("unresolved_questions");
    assert("unresolved_questions"@.len() == 20);
    assert("type"@[0] == 't' && "enum"@[0] == 'e');
    assert("likely_understanding"@[0] == 'l');
    assert("unresolved_questions"@[0] == 'u');
    assert("action"@[0] == 'a');
    assert("reason"@[0] == 'r');
    assert("queries"@[0] == 'q');
    assert("changed"@[0] == 'c');
}

/// A check of a draft: one of three outcomes, and texts.
pub proof fn law_review_types()
    ensures
        asks_for_one_of(review_properties()["status"@], "pass"@, "repair"@, "fail"@),
        asks_for(review_properties()["reason"@], "string"@),
        asks_for(review_properties()["likely_understanding"@], "string"@),
        asks_for(review_properties()["enhanced_prompt"@], "string"@),
{
    reveal_strlit("type");
    assert("type"@.len() == 4);
    reveal_strlit("enum");
    assert("enum"@.len() == 4);
    reveal_strlit("items");
    assert("items"@.len() == 5);
    reveal_strlit("description");
    assert("description"@.len() == 11);
    reveal_strlit("status");
    assert("status"@.len() == 6);
    reveal_strlit("reason");
    assert("reason"@.len() == 6);
    reveal_strlit("likely_understanding");
    assert("likely_understanding"@.len() == 20);
    reveal_strlit("enhanced_prompt");
    assert("enhanced_prompt"@.len() == 15);
    assert("type"@[0] == 't' && "enum"@[0] == 'e');
    assert("status"@[0] == 's');
    assert("reason"@[0] == 'r');
}

} // verus!
