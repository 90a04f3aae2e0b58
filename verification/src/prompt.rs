//! The enhancement data model, the prompt sent to the model, the cleanup of
//! its reply, and detection of the kind of IR document being enhanced.
use vstd::prelude::*;
use crate::text::{
    chars_of, contains, ends_with, ends_with_exec, is_white_space, lemma_replaced_absent,
    lemma_replaced_around_newline, occurs_at, push_str, replace_all, replaced, slice_of, starts_with,
    starts_with_exec, string_of, trim, trim_end, trim_start,
};

verus! {

/// The instructions sent to the model; `{TOOL_NAME}` and `{IR_JSON}` are
/// filled in, and "tool specification" is qualified by the guide type.
pub const ENHANCEMENT_PROMPT: &'static str = "You are an expert at writing concise, actionable guides for AI agents that interact with software tools.

Given the following tool specification in JSON format for \"{TOOL_NAME}\", generate enhancements to make the guide more useful for AI agents.

Return a JSON object with these fields:
- \"workflows\": array of {\"title\": \"string\", \"steps\": [\"step1\", \"step2\", ...]} - common multi-step task recipes
- \"gotchas\": array of {\"wrong\": \"string\", \"right\": \"string\", \"explanation\": \"string\"} - common mistakes
- \"key_items\": array of strings - the most important commands/endpoints/functions (top 20%)
- \"error_solutions\": array of {\"error\": \"string\", \"solution\": \"string\"} - common errors and fixes

Keep each array to 3-7 items. Be concise and practical.

Tool specification:
{IR_JSON}

Respond ONLY with valid JSON, no markdown fences or explanation.";

/// What type of guide is being enhanced.
#[derive(Debug, Clone, Copy, PartialEq, Eq, Structural)]
pub enum GuideType {
    Cli,
    Api,
    Doc,
}

/// How a guide type is named in the prompt.
pub open spec fn guide_label(g: GuideType) -> Seq<char> {
    match g {
        GuideType::Cli => "CLI"@,
        GuideType::Api => "API"@,
        GuideType::Doc => "Documentation"@,
    }
}

impl GuideType {
    /// How this guide type is named in the prompt.
    pub fn label(&self) -> (res: &'static str)
        ensures
            res@ == guide_label(*self),
    {
        match self {
            GuideType::Cli => "CLI",
            GuideType::Api => "API",
            GuideType::Doc => "Documentation",
        }
    }
}

/// Request to enhance a guide.
pub struct EnhancementRequest {
    pub tool_name: String,
    pub ir_json: String,
    pub guide_type: GuideType,
}

/// A multi-step workflow recipe.
#[derive(Debug, Clone)]
pub struct Workflow {
    pub title: String,
    pub steps: Vec<String>,
}

/// A gotcha: wrong vs right pattern.
#[derive(Debug, Clone)]
pub struct Gotcha {
    pub wrong: String,
    pub right: String,
    pub explanation: String,
}

/// An error with its solution.
#[derive(Debug, Clone)]
pub struct ErrorSolution {
    pub error: String,
    pub solution: String,
}

/// Response from the LLM enhancement.
#[derive(Debug, Clone)]
pub struct EnhancementResponse {
    pub workflows: Vec<Workflow>,
    pub gotchas: Vec<Gotcha>,
    pub key_items: Vec<String>,
    pub error_solutions: Vec<ErrorSolution>,
}

/// A response with no enhancement in any section.
pub open spec fn is_empty_response(e: EnhancementResponse) -> bool {
    &&& e.workflows@.len() == 0
    &&& e.gotchas@.len() == 0
    &&& e.key_items@.len() == 0
    &&& e.error_solutions@.len() == 0
}

impl Default for EnhancementResponse {
    fn default() -> (res: Self)
        ensures
            is_empty_response(res),
    {
        EnhancementResponse {
            workflows: Vec::new(),
            gotchas: Vec::new(),
            key_items: Vec::new(),
            error_solutions: Vec::new(),
        }
    }
}

/// The enhancements decoded from the model's reply, or empty enhancements
/// when the reply could not be decoded.
pub fn enhancements_or_empty(decoded: Option<EnhancementResponse>) -> (res: EnhancementResponse)
    ensures
        match decoded {
            Some(e) => res == e,
            None => is_empty_response(res),
        },
{
    match decoded {
        Some(e) => e,
        None => EnhancementResponse::default(),
    }
}

// ---------------------------------------------------------------------------
// The prompt
// ---------------------------------------------------------------------------

/// The prompt for a tool named `tool` whose IR is `ir`, of guide type `g`.
pub open spec fn enhancement_prompt_text(tool: Seq<char>, ir: Seq<char>, g: GuideType) -> Seq<char> {
    replaced(
        replaced(replaced(ENHANCEMENT_PROMPT@, "{TOOL_NAME}"@, tool), "{IR_JSON}"@, ir),
        "tool specification"@,
        guide_label(g) + " tool specification"@,
    )
}

/// Build the prompt for the LLM.
pub fn build_enhancement_prompt(req: &EnhancementRequest) -> (res: String)
    ensures
        res@ == enhancement_prompt_text(req.tool_name@, req.ir_json@, req.guide_type),
{
    proof {
        reveal_strlit("{TOOL_NAME}");
        reveal_strlit("{IR_JSON}");
        reveal_strlit("tool specification");
    }
    let with_name = replace_all(ENHANCEMENT_PROMPT, "{TOOL_NAME}", req.tool_name.as_str());
    let with_ir = replace_all(with_name.as_str(), "{IR_JSON}", req.ir_json.as_str());
    let mut qualified = String::new();
    push_str(&mut qualified, req.guide_type.label());
    push_str(&mut qualified, " tool specification");
    replace_all(with_ir.as_str(), "tool specification", qualified.as_str())
}

/// A text none of whose characters is the pattern's first does not hold it.
proof fn lemma_first_char_absent(s: Seq<char>, pat: Seq<char>)
    requires
        pat.len() > 0,
        forall|i: int| 0 <= i < s.len() ==> s[i] != pat[0],
    ensures
        !contains(s, pat),
{
    assert forall|i: int| !occurs_at(s, pat, i) by {
        if occurs_at(s, pat, i) {
            assert(s.subrange(i, i + pat.len())[0] == s[i]);
        }
    }
}

/// Law: the prompt carries the IR document whole, whatever its length, right
/// under the "Tool specification:" line, as long as the document does not
/// itself hold the words "tool specification" (which the guide type
/// qualifies wherever they stand).
pub proof fn law_prompt_holds_ir(tool: Seq<char>, ir: Seq<char>, g: GuideType)
    requires
        !contains(ir, "tool specification"@),
    ensures
        contains(enhancement_prompt_text(tool, ir, g), "Tool specification:\n"@ + ir + "\n"@),
{
    reveal_strlit("You are an expert at writing concise, actionable guides for AI agents that interact with software tools.

Given the following tool specification in JSON format for \"{TOOL_NAME}\", generate enhancements to make the guide more useful for AI agents.

Return a JSON object with these fields:
- \"workflows\": array of {\"title\": \"string\", \"steps\": [\"step1\", \"step2\", ...]} - common multi-step task recipes
- \"gotchas\": array of {\"wrong\": \"string\", \"right\": \"string\", \"explanation\": \"string\"} - common mistakes
- \"key_items\": array of strings - the most important commands/endpoints/functions (top 20%)
- \"error_solutions\": array of {\"error\": \"string\", \"solution\": \"string\"} - common errors and fixes

Keep each array to 3-7 items. Be concise and practical.

Tool specification:
{IR_JSON}

Respond ONLY with valid JSON, no markdown fences or explanation.");
    reveal_strlit("{TOOL_NAME}");
    reveal_strlit("{IR_JSON}");
    reveal_strlit("tool specification");
    reveal_strlit("Tool specification:\n");
    reveal_strlit("\n");
    let t = ENHANCEMENT_PROMPT@;
    assert(t == "You are an expert at writing concise, actionable guides for AI agents that interact with software tools.

Given the following tool specification in JSON format for \"{TOOL_NAME}\", generate enhancements to make the guide more useful for AI agents.

Return a JSON object with these fields:
- \"workflows\": array of {\"title\": \"string\", \"steps\": [\"step1\", \"step2\", ...]} - common multi-step task recipes
- \"gotchas\": array of {\"wrong\": \"string\", \"right\": \"string\", \"explanation\": \"string\"} - common mistakes
- \"key_items\": array of strings - the most important commands/endpoints/functions (top 20%)
- \"error_solutions\": array of {\"error\": \"string\", \"solution\": \"string\"} - common errors and fixes

Keep each array to 3-7 items. Be concise and practical.

Tool specification:
{IR_JSON}

Respond ONLY with valid JSON, no markdown fences or explanation."@);
    let tn = "{TOOL_NAME}"@;
    let ij = "{IR_JSON}"@;
    let ts = "tool specification"@;
    let label = guide_label(g) + " tool specification"@;
    let nl = seq!['\n'];
    let a = t.take(749);
    let h = t.subrange(750, 769);
    let x = t.subrange(770, 779);
    let b = t.skip(780);
    assert(t =~= a + nl + h + nl + x + nl + b);
    assert(x =~= ij);
    assert(h + nl =~= "Tool specification:\n"@);
    assert(forall|j: int| 0 <= j < tn.len() ==> tn[j] != '\n');
    assert(forall|j: int| 0 <= j < ij.len() ==> ij[j] != '\n');
    assert(forall|j: int| 0 <= j < ts.len() ==> ts[j] != '\n');
    // The first pass fills in the tool's name and leaves the rest in place.
    lemma_replaced_around_newline(a + nl + h + nl + x, b, tn, tool);
    lemma_replaced_around_newline(a + nl + h, x, tn, tool);
    lemma_replaced_around_newline(a, h, tn, tool);
    lemma_first_char_absent(h, tn);
    lemma_replaced_absent(h, tn, tool);
    assert(!contains(x, tn));
    lemma_replaced_absent(x, tn, tool);
    let a1 = replaced(a, tn, tool);
    let b1 = replaced(b, tn, tool);
    let r1 = replaced(t, tn, tool);
    assert(r1 == a1 + nl + h + nl + x + nl + b1);
    // The second pass puts the document where its placeholder stood.
    lemma_replaced_around_newline(a1 + nl + h + nl + x, b1, ij, ir);
    lemma_replaced_around_newline(a1 + nl + h, x, ij, ir);
    lemma_replaced_around_newline(a1, h, ij, ir);
    lemma_first_char_absent(h, ij);
    lemma_replaced_absent(h, ij, ir);
    assert(x.take(ij.len() as int) =~= ij);
    assert(starts_with(x, ij));
    assert(x.skip(9) =~= Seq::<char>::empty());
    assert(replaced(x, ij, ir) =~= ir + replaced(x.skip(9), ij, ir));
    let a2 = replaced(a1, ij, ir);
    let b2 = replaced(b1, ij, ir);
    let r2 = replaced(r1, ij, ir);
    assert(r2 == a2 + nl + h + nl + ir + nl + b2);
    // The third pass qualifies "tool specification", which neither the
    // heading nor the document holds.
    lemma_replaced_around_newline(a2 + nl + h + nl + ir, b2, ts, label);
    lemma_replaced_around_newline(a2 + nl + h, ir, ts, label);
    lemma_replaced_around_newline(a2, h, ts, label);
    assert forall|i: int| !occurs_at(h, ts, i) by {
        if occurs_at(h, ts, i) {
            assert(h.subrange(i, i + ts.len())[0] == h[i]);
        }
    }
    lemma_replaced_absent(h, ts, label);
    lemma_replaced_absent(ir, ts, label);
    let a3 = replaced(a2, ts, label);
    let b3 = replaced(b2, ts, label);
    let r3 = replaced(r2, ts, label);
    assert(r3 == a3 + nl + h + nl + ir + nl + b3);
    assert(r3 == enhancement_prompt_text(tool, ir, g));
    let w = "Tool specification:\n"@ + ir + "\n"@;
    let at: int = a3.len() as int + 1;
    assert(r3.subrange(at, at + w.len()) =~= w);
    assert(occurs_at(r3, w, at));
}

// ---------------------------------------------------------------------------
// Cleaning the reply
// ---------------------------------------------------------------------------

/// The reply with surrounding white space, one leading fence (```` ```json ````
/// or ```` ``` ````) and one trailing fence ```` ``` ```` removed, then trimmed
/// again.
pub open spec fn without_fences(reply: Seq<char>) -> Seq<char> {
    let t = trim(reply);
    let a = if starts_with(t, "```json"@) {
        t.skip("```json"@.len() as int)
    } else if starts_with(t, "```"@) {
        t.skip("```"@.len() as int)
    } else {
        t
    };
    let b = if ends_with(a, "```"@) {
        a.take(a.len() - "```"@.len())
    } else {
        a
    };
    trim(b)
}

/// Whether `c` is Unicode white space.
fn is_white_space_exec(c: char) -> (res: bool)
    ensures
        res == is_white_space(c),
{
    ('\t' <= c && c <= '\r') || c == ' ' || c == '\u{85}' || c == '\u{A0}' || c == '\u{1680}' || (
    '\u{2000}' <= c && c <= '\u{200A}') || c == '\u{2028}' || c == '\u{2029}' || c == '\u{202F}'
        || c == '\u{205F}' || c == '\u{3000}'
}

/// The characters `v[from..to]` with surrounding white space removed.
fn trimmed(v: &Vec<char>, from: usize, to: usize) -> (res: Vec<char>)
    requires
        from <= to <= v@.len(),
    ensures
        res@ == trim(v@.subrange(from as int, to as int)),
{
    let ghost s = v@.subrange(from as int, to as int);
    let mut a = from;
    assert(s.skip(0) =~= s);
    while a < to && is_white_space_exec(v[a])
        invariant
            from <= a <= to <= v@.len(),
            s == v@.subrange(from as int, to as int),
            trim_start(s) == trim_start(s.skip(a - from)),
        decreases to - a,
    {
        let ghost r = s.skip(a - from);
        assert(r[0] == v@[a as int]);
        assert(r.drop_first() =~= s.skip(a + 1 - from));
        a = a + 1;
    }
    let ghost t = s.skip(a - from);
    assert(trim_start(s) == t) by {
        if a < to {
            assert(t[0] == v@[a as int]);
        } else {
            assert(t.len() == 0);
        }
    }
    let mut b = to;
    assert(t.take(t.len() as int) =~= t);
    while b > a && is_white_space_exec(v[b - 1])
        invariant
            from <= a <= b <= to <= v@.len(),
            t == v@.subrange(a as int, to as int),
            trim_end(t) == trim_end(t.take(b - a)),
        decreases b - a,
    {
        let ghost r = t.take(b - a);
        assert(r.last() == v@[b - 1]);
        assert(r.drop_last() =~= t.take(b - 1 - a));
        b = b - 1;
    }
    let ghost u = t.take(b - a);
    assert(trim_end(t) == u) by {
        if b > a {
            assert(u.last() == v@[b - 1]);
        }
    }
    let out = slice_of(v, a, b);
    assert(out@ =~= u);
    out
}

/// Strips the Markdown code fences a model may wrap its JSON reply in.
pub fn strip_code_fences(reply: &str) -> (res: String)
    ensures
        res@ == without_fences(reply@),
{
    let v = chars_of(reply);
    let t = trimmed(&v, 0, v.len());
    assert(v@.subrange(0, v@.len() as int) =~= reply@);
    let fence_json = chars_of("```json");
    let fence = chars_of("```");
    let mut from: usize = 0;
    if starts_with_exec(&t, &fence_json) {
        from = fence_json.len();
    } else if starts_with_exec(&t, &fence) {
        from = fence.len();
    }
    let ghost a = if starts_with(t@, "```json"@) {
        t@.skip("```json"@.len() as int)
    } else if starts_with(t@, "```"@) {
        t@.skip("```"@.len() as int)
    } else {
        t@
    };
    assert(a =~= t@.skip(from as int));
    let a_vec = slice_of(&t, from, t.len());
    assert(a_vec@ =~= a);
    let mut to = a_vec.len();
    if ends_with_exec(&a_vec, &fence) {
        to = a_vec.len() - fence.len();
    }
    let cleaned = trimmed(&a_vec, 0, to);
    assert(a_vec@.subrange(0, to as int) =~= if ends_with(a_vec@, "```"@) {
        a_vec@.take(a_vec@.len() - "```"@.len())
    } else {
        a_vec@
    });
    let res = string_of(&cleaned, 0, cleaned.len());
    assert(cleaned@.subrange(0, cleaned@.len() as int) =~= cleaned@);
    res
}

// ---------------------------------------------------------------------------
// IR detection
// ---------------------------------------------------------------------------

/// A top-level field of a JSON document: its key, and its value when that
/// value is a JSON string.
pub struct JsonField {
    pub key: String,
    pub text: Option<String>,
}

/// Fields as plain values.
pub open spec fn field_entries(fields: Seq<JsonField>) -> Seq<(Seq<char>, Option<Seq<char>>)> {
    fields.map_values(|f: JsonField| (f.key@, f.text.deep_view()))
}

/// What `serde_json` reads from `text` as a `serde_json::Value`, reduced to
/// its top level: `None` when `text` is not valid JSON; otherwise the fields
/// of the top-level object, each with its string value if it has one (no
/// fields when the top level is not an object).
pub uninterp spec fn json_top_level(text: Seq<char>) -> Option<Seq<(Seq<char>, Option<Seq<char>>)>>;

#[verifier::external_type_specification]
#[verifier::external_body]
pub struct ExJsonError(serde_json::Error);

/// Parses `text` as JSON and lists the top-level fields.
///
/// Trusted: calls `serde_json::from_str::<serde_json::Value>`. The result is
/// named by `json_top_level`; the keys of a `serde_json::Map` are distinct.
#[verifier::external_body]
fn parse_json_fields(text: &str) -> (res: Result<Vec<JsonField>, serde_json::Error>)
    ensures
        res is Ok <==> json_top_level(text@) is Some,
        res matches Ok(fields) ==> json_top_level(text@) == Some(field_entries(fields@)),
        res matches Ok(fields) ==> forall|i: int, j: int|
            0 <= i < j < fields@.len() ==> fields@[i].key@ != fields@[j].key@,
{
    match serde_json::from_str::<serde_json::Value>(text) {
        Ok(serde_json::Value::Object(map)) => Ok(
            map.into_iter().map(|(key, value)| JsonField {
                key,
                text: match value {
                    serde_json::Value::String(s) => Some(s),
                    _ => None,
                },
            }).collect(),
        ),
        Ok(_) => Ok(Vec::new()),
        Err(e) => Err(e),
    }
}

/// Why an IR document was refused.
#[derive(Debug)]
pub enum IrError {
    /// The document is not valid JSON.
    InvalidJson(serde_json::Error),
    /// The document has none of the known combinations of fields.
    UnknownIrType,
}

/// Some field has key `key`.
pub open spec fn has_key(fields: Seq<(Seq<char>, Option<Seq<char>>)>, key: Seq<char>) -> bool {
    exists|i: int| 0 <= i < fields.len() && #[trigger] fields[i].0 == key
}

/// The guide type that a set of top-level fields shows: `framework` and
/// `commands` for a CLI, `endpoints` and `spec_format` for an API, `modules`
/// and `source_format` for documentation, checked in that order.
pub open spec fn guide_type_of(fields: Seq<(Seq<char>, Option<Seq<char>>)>) -> Option<GuideType> {
    if has_key(fields, "framework"@) && has_key(fields, "commands"@) {
        Some(GuideType::Cli)
    } else if has_key(fields, "endpoints"@) && has_key(fields, "spec_format"@) {
        Some(GuideType::Api)
    } else if has_key(fields, "modules"@) && has_key(fields, "source_format"@) {
        Some(GuideType::Doc)
    } else {
        None
    }
}

/// Whether some field has key `key`.
fn has_key_exec(fields: &Vec<JsonField>, key: &str) -> (res: bool)
    ensures
        res == has_key(field_entries(fields@), key@),
{
    let mut i: usize = 0;
    while i < fields.len()
        invariant
            i <= fields@.len(),
            forall|j: int| 0 <= j < i ==> fields@[j].key@ != key@,
        decreases fields@.len() - i,
    {
        let k = chars_of(fields[i].key.as_str());
        let w = chars_of(key);
        if k.len() == w.len() && starts_with_exec(&k, &w) {
            assert(k@ =~= w@);
            assert(field_entries(fields@)[i as int].0 == key@);
            return true;
        }
        proof {
            if fields@[i as int].key@ == key@ {
                assert(k@.take(w@.len() as int) =~= k@);
            }
        }
        i = i + 1;
    }
    assert forall|j: int| 0 <= j < fields@.len() implies #[trigger] field_entries(fields@)[j].0
        != key@ by {}
    false
}

/// The guide type shown by a document's top-level fields.
pub fn guide_type_from_fields(fields: &Vec<JsonField>) -> (res: Option<GuideType>)
    ensures
        res == guide_type_of(field_entries(fields@)),
{
    if has_key_exec(fields, "framework") && has_key_exec(fields, "commands") {
        Some(GuideType::Cli)
    } else if has_key_exec(fields, "endpoints") && has_key_exec(fields, "spec_format") {
        Some(GuideType::Api)
    } else if has_key_exec(fields, "modules") && has_key_exec(fields, "source_format") {
        Some(GuideType::Doc)
    } else {
        None
    }
}

/// Detect what type of IR this is by checking for known fields.
pub fn detect_guide_type(ir_json: &str) -> (res: Result<GuideType, IrError>)
    ensures
        match json_top_level(ir_json@) {
            None => res matches Err(IrError::InvalidJson(_)),
            Some(fields) => match guide_type_of(fields) {
                Some(g) => res matches Ok(r) && r == g,
                None => res matches Err(IrError::UnknownIrType),
            },
        },
{
    match parse_json_fields(ir_json) {
        Ok(fields) => match guide_type_from_fields(&fields) {
            Some(g) => Ok(g),
            None => Err(IrError::UnknownIrType),
        },
        Err(e) => Err(IrError::InvalidJson(e)),
    }
}

/// The string value of the first field with key `key`, if that field exists
/// and its value is a string.
pub open spec fn text_field(fields: Seq<(Seq<char>, Option<Seq<char>>)>, key: Seq<char>) -> Option<
    Seq<char>,
>
    decreases fields.len(),
{
    if fields.len() == 0 {
        None
    } else if fields[0].0 == key {
        fields[0].1
    } else {
        text_field(fields.drop_first(), key)
    }
}

/// The tool name an IR document gives in its top-level `name` string, or
/// `Unknown Tool`.
pub open spec fn tool_name_of(ir: Seq<char>) -> Seq<char> {
    match json_top_level(ir) {
        Some(fields) => match text_field(fields, "name"@) {
            Some(t) => t,
            None => "Unknown Tool"@,
        },
        None => "Unknown Tool"@,
    }
}

/// The top-level fields of a JSON document, or the parse error when it is
/// not valid JSON.
pub fn top_level_fields(text: &str) -> (res: Result<Vec<JsonField>, serde_json::Error>)
    ensures
        match json_top_level(text@) {
            None => res is Err,
            Some(fields) => res matches Ok(r) && field_entries(r@) == fields,
        },
{
    parse_json_fields(text)
}

/// The name a set of top-level fields gives, if any.
pub fn tool_name_from_fields(fields: &Vec<JsonField>) -> (res: Option<String>)
    ensures
        res.deep_view() == text_field(field_entries(fields@), "name"@),
{
    let w = chars_of("name");
    let mut i: usize = 0;
    assert(field_entries(fields@).skip(0) =~= field_entries(fields@));
    while i < fields.len()
        invariant
            w@ == "name"@,
            i <= fields@.len(),
            text_field(field_entries(fields@), "name"@) == text_field(
                field_entries(fields@).skip(i as int),
                "name"@,
            ),
        decreases fields@.len() - i,
    {
        let ghost rest = field_entries(fields@).skip(i as int);
        assert(rest[0] == field_entries(fields@)[i as int]);
        assert(rest.drop_first() =~= field_entries(fields@).skip(i + 1));
        let k = chars_of(fields[i].key.as_str());
        if k.len() == w.len() && starts_with_exec(&k, &w) {
            assert(k@ =~= w@);
            return match &fields[i].text {
                Some(t) => Some(t.clone()),
                None => None,
            };
        }
        proof {
            if fields@[i as int].key@ == "name"@ {
                assert(k@.take(w@.len() as int) =~= k@);
            }
        }
        i = i + 1;
    }
    assert(field_entries(fields@).skip(i as int) =~= Seq::<(Seq<char>, Option<Seq<char>>)>::empty());
    None
}

} // verus!
